//! The log: an ordered sequence of events, one parsed file.
//!
//! A log is built once, fully, from a text blob or from raw bytes, and then
//! queried or re-serialized. Parsing is fail-fast: the first malformed line
//! aborts the whole parse and no partial log is returned. Serialization only
//! ever produces the plain local text form; the world obfuscation is decoded,
//! never re-applied.

use vstd::prelude::*;
use vstd::string::StringExecFns;
use vstd::utf8::{decode_utf8, valid_utf8};

use crate::decoder::{decode_world, xor_pairs};
use crate::errors::NgError;
use crate::event::{event_text, is_parse_of, lemma_event_round_trip, NgEvent};
use crate::text::{
    lemma_lines_roundtrip, lemma_lines_text_push, lines_of, lines_text, no_crlf, split_chars,
    split_lines,
};

verus! {

/// An ngLog file: its events in source line order.
pub struct NgLog {
    /// The events, in the order of their lines in the source text.
    pub events: Vec<NgEvent>,
}

/// Every line of `text` has at least two tab-separated fields, so the whole
/// text parses.
pub open spec fn parse_log_ok(text: Seq<char>) -> bool {
    forall|i: int|
        0 <= i < lines_of(text).len() ==> split_chars(
            #[trigger] lines_of(text)[i],
            '\t',
        ).len() >= 2
}

/// `log` holds exactly the events of the lines of `text`, in order.
pub open spec fn is_parse_of_log(log: NgLog, text: Seq<char>) -> bool {
    &&& log.events@.len() == lines_of(text).len()
    &&& forall|i: int|
        0 <= i < lines_of(text).len() ==> is_parse_of(#[trigger] log.events@[i], lines_of(text)[i])
}

/// The canonical text of a log: each event's canonical line, every line
/// terminated by a line feed, the last included.
pub open spec fn log_text(log: NgLog) -> Seq<char> {
    lines_text(log.events@.map_values(|e: NgEvent| event_text(e)))
}

/// Relies on String::from_utf8: it succeeds exactly on valid UTF-8 input,
/// and then returns the string of the characters that the bytes encode.
#[verifier::external_body]
fn string_from_utf8(data: &Vec<u8>) -> (r: Option<String>)
    ensures
        r is Some <==> valid_utf8(data@),
        r matches Some(s) ==> s@ == decode_utf8(data@),
{
    String::from_utf8(data.clone()).ok()
}

/// Serializing a log parsed from a text reproduces that text, each line with
/// exactly one terminating line feed, the last line included. Stated of text
/// in which no carriage return stands directly before a line feed: such a
/// pair is consumed as a single terminator when parsing and is rendered back
/// as a bare line feed.
pub proof fn lemma_log_round_trip(log: NgLog, text: Seq<char>)
    requires
        is_parse_of_log(log, text),
        no_crlf(text),
    ensures
        log_text(log) == if text.len() == 0 {
            text
        } else if text.last() == '\n' {
            text
        } else {
            text + seq!['\n']
        },
{
    let evlines = log.events@.map_values(|e: NgEvent| event_text(e));
    assert forall|i: int| 0 <= i < evlines.len() implies evlines[i] == lines_of(text)[i] by {
        lemma_event_round_trip(log.events@[i], lines_of(text)[i]);
    }
    assert(evlines =~= lines_of(text));
    lemma_lines_roundtrip(text);
}

impl NgLog {
    /// Construct an empty log with room for at least `capacity` events.
    pub fn new(capacity: usize) -> (log: NgLog)
        ensures
            log.events@.len() == 0,
    {
        NgLog { events: Vec::with_capacity(capacity) }
    }

    /// Parse a whole text: each line one event, in source order.
    ///
    /// Succeeds exactly when every line has at least two tab-separated
    /// fields; the first malformed line fails the whole parse.
    pub fn from_string(s: &String) -> (r: Result<NgLog, NgError>)
        ensures
            r is Ok <==> parse_log_ok(s@),
            r matches Ok(log) ==> is_parse_of_log(log, s@),
            r matches Err(e) ==> e == NgError::MalformedInput,
    {
        let ls = split_lines(s.as_str());
        let ghost gl = lines_of(s@);
        let mut log = NgLog::new(ls.len());
        let mut i: usize = 0;
        while i < ls.len()
            invariant
                i <= ls@.len(),
                ls@.map_values(|p: String| p@) == gl,
                gl == lines_of(s@),
                gl.len() == ls@.len(),
                log.events@.len() == i,
                forall|k: int| 0 <= k < i ==> is_parse_of(#[trigger] log.events@[k], gl[k]),
            decreases ls@.len() - i,
        {
            proof {
                assert(ls@[i as int]@ == gl[i as int]);
            }
            match NgEvent::from_string(&ls[i]) {
                Ok(ev) => {
                    log.events.push(ev);
                },
                Err(e) => {
                    proof {
                        assert(split_chars(lines_of(s@)[i as int], '\t').len() < 2);
                    }
                    return Err(e);
                },
            }
            i = i + 1;
        }
        proof {
            assert forall|k: int| 0 <= k < lines_of(s@).len() implies split_chars(
                #[trigger] lines_of(s@)[k],
                '\t',
            ).len() >= 2 by {
                assert(is_parse_of(log.events@[k], gl[k]));
            }
        }
        Ok(log)
    }

    /// Parse the plain local variant from raw bytes: interpret the bytes as
    /// UTF-8 text, then parse the text. Bytes that are not valid UTF-8 are
    /// an encoding error; a text with a malformed line is malformed input.
    pub fn local_from_bytes(data: &Vec<u8>) -> (r: Result<NgLog, NgError>)
        ensures
            r is Ok <==> valid_utf8(data@) && parse_log_ok(decode_utf8(data@)),
            r matches Ok(log) ==> is_parse_of_log(log, decode_utf8(data@)),
            r matches Err(e) ==> if valid_utf8(data@) {
                e == NgError::MalformedInput
            } else {
                e == NgError::EncodingError
            },
    {
        match string_from_utf8(data) {
            Some(s) => NgLog::from_string(&s),
            None => Err(NgError::EncodingError),
        }
    }

    /// Parse the world variant from raw bytes: reject an odd byte count,
    /// reverse the XOR obfuscation, interpret the decoded bytes as UTF-8
    /// text, then parse the text.
    pub fn world_from_bytes(data: &Vec<u8>) -> (r: Result<NgLog, NgError>)
        ensures
            r is Ok <==> data@.len() % 2 == 0 && valid_utf8(xor_pairs(data@)) && parse_log_ok(
                decode_utf8(xor_pairs(data@)),
            ),
            r matches Ok(log) ==> is_parse_of_log(log, decode_utf8(xor_pairs(data@))),
            r matches Err(e) ==> if data@.len() % 2 != 0 {
                e == NgError::MalformedInput
            } else if !valid_utf8(xor_pairs(data@)) {
                e == NgError::EncodingError
            } else {
                e == NgError::MalformedInput
            },
    {
        match decode_world(data) {
            Ok(decoded) => NgLog::local_from_bytes(&decoded),
            Err(e) => Err(e),
        }
    }

    /// Render the log to its canonical local text: each event's line followed
    /// by a line feed, the last line included. The world obfuscation is never
    /// re-applied.
    pub fn to_string(&self) -> (r: String)
        ensures
            r@ == log_text(*self),
    {
        let ghost evlines = self.events@.map_values(|e: NgEvent| event_text(e));
        let mut s = String::new();
        proof {
            assert(evlines.take(0) =~= Seq::<Seq<char>>::empty());
        }
        let mut i: usize = 0;
        while i < self.events.len()
            invariant
                i <= self.events@.len(),
                evlines == self.events@.map_values(|e: NgEvent| event_text(e)),
                evlines.len() == self.events@.len(),
                s@ == lines_text(evlines.take(i as int)),
            decreases self.events@.len() - i,
        {
            let line = self.events[i].to_string();
            s.append(line.as_str());
            s.append("\n");
            proof {
                reveal_strlit("\n");
                assert("\n"@ =~= seq!['\n']);
                lemma_lines_text_push(evlines.take(i as int), evlines[i as int]);
                assert(evlines.take(i + 1) =~= evlines.take(i as int).push(evlines[i as int]));
                assert(line@ == evlines[i as int]);
                assert(s@ =~= lines_text(evlines.take(i + 1)));
            }
            i = i + 1;
        }
        proof {
            assert(evlines.take(self.events@.len() as int) =~= evlines);
        }
        s
    }
}

} // verus!

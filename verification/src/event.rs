//! The event record and its line grammar.
//!
//! One line of an ngLog file is one event: tab-separated fields, the first
//! the timestamp and the rest depending on the field count. With exactly two
//! fields the second is the event ID and there is no class; with three or
//! more, the second is the class, the third the ID, and the remainder the
//! parameters. A record with three fields is therefore indistinguishable from
//! one that genuinely has a class and no parameters: that is the documented
//! rule of the format, reproduced here exactly.

use vstd::prelude::*;
use vstd::string::StringExecFns;

use crate::errors::NgError;
use crate::text::{join_chars, lemma_join_split, split_chars, split_on};

verus! {

/// One gameplay occurrence: a single line of an ngLog file.
pub struct NgEvent {
    /// Elapsed time since gameplay began, kept as opaque text; this crate
    /// does not validate it as a number.
    pub timestamp: String,
    /// The category the event belongs to, present exactly when the source
    /// line had three or more fields.
    pub event_class: Option<String>,
    /// The type of the event.
    pub event_id: String,
    /// Free-form data points, in order; possibly empty.
    pub event_params: Vec<String>,
}

/// The canonical field sequence of an event: the timestamp, the class when
/// present, the ID, then each parameter in order.
pub open spec fn event_fields(e: NgEvent) -> Seq<Seq<char>> {
    let params = e.event_params@.map_values(|p: String| p@);
    match e.event_class {
        Some(c) => seq![e.timestamp@, c@, e.event_id@] + params,
        None => seq![e.timestamp@, e.event_id@] + params,
    }
}

/// The canonical text of an event: its fields joined by tabs, no trailing
/// tab.
pub open spec fn event_text(e: NgEvent) -> Seq<char> {
    join_chars(event_fields(e), '\t')
}

/// `e` is the event the line grammar assigns to `line`.
pub open spec fn is_parse_of(e: NgEvent, line: Seq<char>) -> bool {
    let fields = split_chars(line, '\t');
    &&& fields.len() >= 2
    &&& e.timestamp@ == fields[0]
    &&& if fields.len() == 2 {
        &&& e.event_class is None
        &&& e.event_id@ == fields[1]
        &&& e.event_params@.len() == 0
    } else {
        &&& (e.event_class matches Some(c) && c@ == fields[1])
        &&& e.event_id@ == fields[2]
        &&& e.event_params@.map_values(|p: String| p@) == fields.skip(3)
    }
}

/// The canonical text of the event parsed from a line is that line again:
/// the line grammar loses nothing.
pub proof fn lemma_event_round_trip(e: NgEvent, line: Seq<char>)
    requires
        is_parse_of(e, line),
    ensures
        event_text(e) == line,
{
    let fields = split_chars(line, '\t');
    assert(event_fields(e) =~= fields);
    lemma_join_split(line, '\t');
}

impl NgEvent {
    /// Construct an event directly from its parts.
    pub fn new(timestamp: String, class: Option<String>, id: String, params: Vec<String>) -> (e:
        NgEvent)
        ensures
            e.timestamp == timestamp,
            e.event_class == class,
            e.event_id == id,
            e.event_params == params,
    {
        NgEvent {
            timestamp: timestamp,
            event_class: class,
            event_id: id,
            event_params: params,
        }
    }

    /// Parse one event line.
    ///
    /// Succeeds exactly when the line has at least two tab-separated fields,
    /// and then returns the event the grammar assigns to the line; a line
    /// with fewer fields is malformed.
    pub fn from_string(s: &String) -> (r: Result<NgEvent, NgError>)
        ensures
            r is Ok <==> split_chars(s@, '\t').len() >= 2,
            r matches Ok(e) ==> is_parse_of(e, s@),
            r matches Err(e) ==> e == NgError::MalformedInput,
    {
        let fields = split_on(s.as_str(), '\t');
        let ghost gf = split_chars(s@, '\t');
        if fields.len() < 2 {
            return Err(NgError::MalformedInput);
        }
        let timestamp = fields[0].clone();
        if fields.len() == 2 {
            let id = fields[1].clone();
            Ok(NgEvent::new(timestamp, None, id, Vec::new()))
        } else {
            let class = fields[1].clone();
            let id = fields[2].clone();
            let mut params: Vec<String> = Vec::new();
            let mut j: usize = 3;
            proof {
                assert(params@.map_values(|p: String| p@) =~= gf.subrange(3, 3));
            }
            while j < fields.len()
                invariant
                    3 <= j <= fields@.len(),
                    fields@.map_values(|p: String| p@) == gf,
                    gf.len() == fields@.len(),
                    params@.map_values(|p: String| p@) == gf.subrange(3, j as int),
                decreases fields@.len() - j,
            {
                let p = fields[j].clone();
                proof {
                    assert(p@ == gf[j as int]);
                    assert(params@.push(p).map_values(|q: String| q@) =~= params@.map_values(
                        |q: String| q@,
                    ).push(p@));
                    assert(params@.map_values(|q: String| q@).push(p@) =~= gf.subrange(
                        3,
                        j + 1,
                    ));
                }
                params.push(p);
                j = j + 1;
            }
            proof {
                assert(gf.subrange(3, gf.len() as int) =~= gf.skip(3));
            }
            Ok(NgEvent::new(timestamp, Some(class), id, params))
        }
    }

    /// Render the event to its canonical text: the fields in order, a tab
    /// between every two adjacent fields, no trailing tab. No validation is
    /// performed; any directly constructed event serializes under the same
    /// field-presence rule as a parsed one.
    pub fn to_string(&self) -> (r: String)
        ensures
            r@ == event_text(*self),
    {
        proof {
            reveal_strlit("\t");
            assert("\t"@ =~= seq!['\t']);
        }
        let ghost head: Seq<Seq<char>> = match &self.event_class {
            Some(c) => seq![self.timestamp@, c@, self.event_id@],
            None => seq![self.timestamp@, self.event_id@],
        };
        let ghost pviews = self.event_params@.map_values(|p: String| p@);
        let mut s = self.timestamp.clone();
        if let Some(c) = &self.event_class {
            s.append("\t");
            s.append(c.as_str());
        }
        s.append("\t");
        s.append(self.event_id.as_str());
        proof {
            if self.event_class is Some {
                let c = self.event_class->0;
                assert(head.drop_last() =~= seq![self.timestamp@, c@]);
                assert(seq![self.timestamp@, c@].drop_last() =~= seq![self.timestamp@]);
                assert(join_chars(seq![self.timestamp@], '\t') == self.timestamp@);
                assert(join_chars(seq![self.timestamp@, c@], '\t') == self.timestamp@
                    + seq!['\t'] + c@);
                assert(s@ =~= join_chars(head, '\t'));
            } else {
                assert(head.drop_last() =~= seq![self.timestamp@]);
                assert(join_chars(seq![self.timestamp@], '\t') == self.timestamp@);
                assert(s@ =~= join_chars(head, '\t'));
            }
            assert(pviews.take(0) =~= Seq::<Seq<char>>::empty());
            assert(head + pviews.take(0) =~= head);
        }
        let mut j: usize = 0;
        while j < self.event_params.len()
            invariant
                j <= self.event_params@.len(),
                head.len() >= 2,
                pviews == self.event_params@.map_values(|p: String| p@),
                pviews.len() == self.event_params@.len(),
                s@ == join_chars(head + pviews.take(j as int), '\t'),
            decreases self.event_params@.len() - j,
        {
            proof {
                reveal_strlit("\t");
                assert("\t"@ =~= seq!['\t']);
            }
            s.append("\t");
            s.append(self.event_params[j].as_str());
            proof {
                let parts = head + pviews.take(j + 1);
                assert(parts.drop_last() =~= head + pviews.take(j as int));
                assert(parts.last() == pviews[j as int]);
                assert(pviews[j as int] == self.event_params@[j as int]@);
                assert(s@ =~= join_chars(parts, '\t'));
            }
            j = j + 1;
        }
        proof {
            assert(head + pviews.take(self.event_params@.len() as int) =~= event_fields(*self));
        }
        s
    }
}

} // verus!

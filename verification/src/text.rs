//! Splitting and joining of character sequences.
//!
//! The grammar of an ngLog file is line-oriented: the text splits into lines,
//! and each line splits on the ASCII TAB separator into fields. This module
//! gives the mathematical definitions of those splits and of their joins, the
//! lemmas relating them, and the verified executable split functions.

use vstd::prelude::*;
use vstd::string::StrSliceExecFns;

verus! {

/// The fields of `s` under the separator `sep`: `s` split at every
/// occurrence of `sep`, empty fields preserved. Always at least one field.
pub open spec fn split_chars(s: Seq<char>, sep: char) -> Seq<Seq<char>>
    decreases s.len(),
{
    if s.len() == 0 {
        seq![Seq::<char>::empty()]
    } else {
        let rest = split_chars(s.skip(1), sep);
        if s[0] == sep {
            seq![Seq::<char>::empty()] + rest
        } else {
            seq![seq![s[0]] + rest[0]] + rest.skip(1)
        }
    }
}

/// The parts joined back with `sep` between every two adjacent parts.
pub open spec fn join_chars(parts: Seq<Seq<char>>, sep: char) -> Seq<char>
    decreases parts.len(),
{
    if parts.len() == 0 {
        Seq::<char>::empty()
    } else if parts.len() == 1 {
        parts[0]
    } else {
        join_chars(parts.drop_last(), sep) + seq![sep] + parts.last()
    }
}

/// A split always yields at least one field.
proof fn lemma_split_len(s: Seq<char>, sep: char)
    ensures
        split_chars(s, sep).len() >= 1,
    decreases s.len(),
{
    if s.len() > 0 {
        lemma_split_len(s.skip(1), sep);
    }
}

/// Joining a non-empty tail onto a prepended head part inserts one separator.
proof fn lemma_join_prepend(u: Seq<char>, parts: Seq<Seq<char>>, sep: char)
    requires
        parts.len() >= 1,
    ensures
        join_chars(seq![u] + parts, sep) == u + seq![sep] + join_chars(parts, sep),
    decreases parts.len(),
{
    let whole = seq![u] + parts;
    if parts.len() == 1 {
        assert(whole.drop_last() =~= seq![u]);
        assert(whole.last() == parts[0]);
        assert(join_chars(seq![u], sep) == u);
        assert(join_chars(whole, sep) =~= u + seq![sep] + join_chars(parts, sep));
    } else {
        assert(whole.drop_last() =~= seq![u] + parts.drop_last());
        lemma_join_prepend(u, parts.drop_last(), sep);
        assert(whole.last() == parts.last());
        assert((u + seq![sep] + join_chars(parts.drop_last(), sep)) + seq![sep] + parts.last()
            =~= u + seq![sep] + join_chars(parts, sep));
    }
}

/// A prefix free of the separator is absorbed into the first field of the
/// split of what follows it.
proof fn lemma_split_prefix(u: Seq<char>, v: Seq<char>, sep: char)
    requires
        !u.contains(sep),
    ensures
        split_chars(u + v, sep) == seq![u + split_chars(v, sep)[0]] + split_chars(v, sep).skip(
            1,
        ),
    decreases u.len(),
{
    let sv = split_chars(v, sep);
    lemma_split_len(v, sep);
    if u.len() == 0 {
        assert(u + v =~= v);
        assert(u + sv[0] =~= sv[0]);
        assert(seq![sv[0]] + sv.skip(1) =~= sv);
    } else {
        let w = u + v;
        assert(w[0] == u[0]);
        assert(u[0] != sep) by {
            assert(u[0] == u[0] && u.contains(u[0]) == u.contains(u[0]));
            assert(u.contains(u[0]));
        }
        assert(w.skip(1) =~= u.skip(1) + v);
        assert(!u.skip(1).contains(sep)) by {
            if u.skip(1).contains(sep) {
                let i = choose|i: int| 0 <= i < u.skip(1).len() && u.skip(1)[i] == sep;
                assert(u[i + 1] == sep);
                assert(u.contains(sep));
            }
        }
        lemma_split_prefix(u.skip(1), v, sep);
        let rest = split_chars(w.skip(1), sep);
        assert(rest == seq![u.skip(1) + sv[0]] + sv.skip(1));
        assert(rest[0] == u.skip(1) + sv[0]);
        assert(seq![w[0]] + rest[0] =~= u + sv[0]);
        assert(rest.skip(1) =~= sv.skip(1));
        assert(split_chars(w, sep) == seq![seq![w[0]] + rest[0]] + rest.skip(1));
    }
}

/// A separator at the front contributes one empty leading field.
proof fn lemma_split_sep_head(v: Seq<char>, sep: char)
    ensures
        split_chars(seq![sep] + v, sep) == seq![Seq::<char>::empty()] + split_chars(v, sep),
{
    let w = seq![sep] + v;
    assert(w[0] == sep);
    assert(w.skip(1) =~= v);
}

/// Splitting `s.skip(start)` at a separator found at `i`, with none before
/// it, peels off the field `s[start..i]`.
proof fn lemma_split_step(s: Seq<char>, sep: char, start: int, i: int)
    requires
        0 <= start <= i < s.len(),
        s[i] == sep,
        forall|k: int| start <= k < i ==> s[k] != sep,
    ensures
        split_chars(s.skip(start), sep) == seq![s.subrange(start, i)] + split_chars(
            s.skip(i + 1),
            sep,
        ),
{
    let u = s.subrange(start, i);
    let v = seq![sep] + s.skip(i + 1);
    assert(!u.contains(sep)) by {
        if u.contains(sep) {
            let k = choose|k: int| 0 <= k < u.len() && u[k] == sep;
            assert(s[start + k] == sep);
        }
    }
    assert(s.skip(start) =~= u + v);
    lemma_split_prefix(u, v, sep);
    lemma_split_sep_head(s.skip(i + 1), sep);
    let sv = split_chars(s.skip(i + 1), sep);
    lemma_split_len(s.skip(i + 1), sep);
    assert(split_chars(v, sep)[0] == Seq::<char>::empty());
    assert(split_chars(v, sep).skip(1) =~= sv);
    assert(u + Seq::<char>::empty() =~= u);
}

/// With no separator at or after `start`, the remainder is a single field.
proof fn lemma_split_last(s: Seq<char>, sep: char, start: int)
    requires
        0 <= start <= s.len(),
        forall|k: int| start <= k < s.len() ==> s[k] != sep,
    ensures
        split_chars(s.skip(start), sep) == seq![s.skip(start)],
{
    let u = s.skip(start);
    assert(!u.contains(sep)) by {
        if u.contains(sep) {
            let k = choose|k: int| 0 <= k < u.len() && u[k] == sep;
            assert(s[start + k] == sep);
        }
    }
    assert(u + Seq::<char>::empty() =~= u);
    lemma_split_prefix(u, Seq::<char>::empty(), sep);
    assert(split_chars(Seq::<char>::empty(), sep) == seq![Seq::<char>::empty()]);
    assert(u + split_chars(Seq::<char>::empty(), sep)[0] =~= u);
    assert(split_chars(Seq::<char>::empty(), sep).skip(1) =~= Seq::<Seq<char>>::empty());
    assert(seq![u] + Seq::<Seq<char>>::empty() =~= seq![u]);
}

/// Joining a split of `s` gives `s` back: the split loses nothing.
pub proof fn lemma_join_split(s: Seq<char>, sep: char)
    ensures
        join_chars(split_chars(s, sep), sep) == s,
    decreases s.len(),
{
    if s.len() == 0 {
    } else {
        let rest = split_chars(s.skip(1), sep);
        lemma_split_len(s.skip(1), sep);
        lemma_join_split(s.skip(1), sep);
        if s[0] == sep {
            lemma_join_prepend(Seq::<char>::empty(), rest, sep);
            assert(Seq::<char>::empty() + seq![sep] + s.skip(1) =~= s);
        } else {
            if rest.len() == 1 {
                assert(split_chars(s, sep) == seq![seq![s[0]] + rest[0]] + rest.skip(1));
                assert(rest.skip(1) =~= Seq::<Seq<char>>::empty());
                assert(seq![seq![s[0]] + rest[0]] + rest.skip(1) =~= seq![seq![s[0]] + rest[0]]);
                assert(join_chars(rest, sep) == rest[0]);
                assert(seq![s[0]] + rest[0] =~= s);
            } else {
                let head = seq![s[0]] + rest[0];
                assert(split_chars(s, sep) == seq![head] + rest.skip(1));
                lemma_join_prepend(head, rest.skip(1), sep);
                assert(rest =~= seq![rest[0]] + rest.skip(1));
                lemma_join_prepend(rest[0], rest.skip(1), sep);
                assert(head + seq![sep] + join_chars(rest.skip(1), sep) =~= seq![s[0]] + (rest[0]
                    + seq![sep] + join_chars(rest.skip(1), sep)));
                assert(seq![s[0]] + s.skip(1) =~= s);
            }
        }
    }
}

/// `l` with one trailing carriage return removed, if it ends with one.
pub open spec fn strip_cr(l: Seq<char>) -> Seq<char> {
    if l.len() > 0 && l.last() == '\r' {
        l.drop_last()
    } else {
        l
    }
}

/// The lines of `s`: split at every line feed, a carriage return directly
/// before a line feed consumed with it, and no empty final line for a
/// trailing terminator.
pub open spec fn lines_of(s: Seq<char>) -> Seq<Seq<char>>
    decreases s.len(),
{
    if s.len() == 0 {
        Seq::<Seq<char>>::empty()
    } else if s[0] == '\n' {
        seq![Seq::<char>::empty()] + lines_of(s.skip(1))
    } else if s[0] == '\r' && s.len() >= 2 && s[1] == '\n' {
        seq![Seq::<char>::empty()] + lines_of(s.skip(2))
    } else {
        let rest = lines_of(s.skip(1));
        if rest.len() == 0 {
            seq![seq![s[0]]]
        } else {
            seq![seq![s[0]] + rest[0]] + rest.skip(1)
        }
    }
}

/// The lines rendered back to text, every line terminated by a line feed,
/// the last included.
pub open spec fn lines_text(ls: Seq<Seq<char>>) -> Seq<char>
    decreases ls.len(),
{
    if ls.len() == 0 {
        Seq::<char>::empty()
    } else {
        ls[0] + seq!['\n'] + lines_text(ls.skip(1))
    }
}

/// Rendering one more line appends it with its terminator.
pub(crate) proof fn lemma_lines_text_push(ls: Seq<Seq<char>>, l: Seq<char>)
    ensures
        lines_text(ls.push(l)) == lines_text(ls) + l + seq!['\n'],
    decreases ls.len(),
{
    if ls.len() == 0 {
        assert(ls.push(l)[0] == l);
        assert(ls.push(l).skip(1) =~= Seq::<Seq<char>>::empty());
        assert(lines_text(ls.push(l).skip(1)) =~= Seq::<char>::empty());
        assert(lines_text(ls.push(l)) =~= lines_text(ls) + l + seq!['\n']);
    } else {
        assert(ls.push(l).skip(1) =~= ls.skip(1).push(l));
        lemma_lines_text_push(ls.skip(1), l);
        assert(ls.push(l)[0] == ls[0]);
        assert(ls[0] + seq!['\n'] + (lines_text(ls.skip(1)) + l + seq!['\n']) =~= lines_text(ls)
            + l + seq!['\n']);
    }
}

/// Only the empty text has no lines.
proof fn lemma_lines_of_empty_iff(s: Seq<char>)
    ensures
        lines_of(s).len() == 0 <==> s.len() == 0,
    decreases s.len(),
{
    if s.len() > 0 && !(s[0] == '\n') && !(s[0] == '\r' && s.len() >= 2 && s[1] == '\n') {
        lemma_lines_of_empty_iff(s.skip(1));
    }
}

/// A terminated line free of line feeds is peeled off the front, its
/// trailing carriage return, if any, consumed with the terminator.
proof fn lemma_lines_term(u: Seq<char>, w: Seq<char>)
    requires
        !u.contains('\n'),
    ensures
        lines_of(u + seq!['\n'] + w) == seq![strip_cr(u)] + lines_of(w),
    decreases u.len(),
{
    let s = u + seq!['\n'] + w;
    if u.len() == 0 {
        assert(s[0] == '\n');
        assert(s.skip(1) =~= w);
        assert(strip_cr(u) =~= Seq::<char>::empty());
    } else if u.len() == 1 && u[0] == '\r' {
        assert(s[0] == '\r' && s.len() >= 2 && s[1] == '\n');
        assert(s.skip(2) =~= w);
        assert(strip_cr(u) =~= Seq::<char>::empty());
    } else {
        assert(s[0] == u[0]);
        assert(u[0] != '\n') by {
            assert(u.contains(u[0]));
        }
        if u[0] == '\r' {
            assert(u.len() >= 2);
            assert(s[1] == u[1]);
            assert(u[1] != '\n') by {
                assert(u.contains(u[1]));
            }
        }
        assert(!(s[0] == '\n'));
        assert(!(s[0] == '\r' && s.len() >= 2 && s[1] == '\n'));
        assert(!u.skip(1).contains('\n')) by {
            if u.skip(1).contains('\n') {
                let i = choose|i: int| 0 <= i < u.skip(1).len() && u.skip(1)[i] == '\n';
                assert(u[i + 1] == '\n');
                assert(u.contains('\n'));
            }
        }
        assert(s.skip(1) =~= u.skip(1) + seq!['\n'] + w);
        lemma_lines_term(u.skip(1), w);
        let rest = lines_of(s.skip(1));
        assert(rest == seq![strip_cr(u.skip(1))] + lines_of(w));
        assert(rest.len() >= 1);
        assert(rest[0] == strip_cr(u.skip(1)));
        assert(seq![s[0]] + strip_cr(u.skip(1)) =~= strip_cr(u)) by {
            if u.len() > 1 && u.last() == '\r' {
                assert(u.skip(1).last() == '\r');
                assert(seq![u[0]] + u.skip(1).drop_last() =~= u.drop_last());
            } else {
                assert(seq![u[0]] + u.skip(1) =~= u);
            }
        }
        assert(rest.skip(1) =~= lines_of(w));
        assert(lines_of(s) == seq![seq![s[0]] + rest[0]] + rest.skip(1));
    }
}

/// An unterminated final remainder free of line feeds is one whole line,
/// a trailing carriage return kept.
proof fn lemma_lines_last(u: Seq<char>)
    requires
        u.len() > 0,
        !u.contains('\n'),
    ensures
        lines_of(u) == seq![u],
    decreases u.len(),
{
    assert(u[0] != '\n') by {
        assert(u.contains(u[0]));
    }
    if u.len() >= 2 {
        assert(u[1] != '\n') by {
            assert(u.contains(u[1]));
        }
    }
    assert(!(u[0] == '\r' && u.len() >= 2 && u[1] == '\n'));
    if u.len() == 1 {
        assert(u.skip(1) =~= Seq::<char>::empty());
        assert(lines_of(u.skip(1)) =~= Seq::<Seq<char>>::empty());
        assert(seq![u[0]] =~= u);
        assert(seq![seq![u[0]]] =~= seq![u]);
    } else {
        assert(!u.skip(1).contains('\n')) by {
            if u.skip(1).contains('\n') {
                let i = choose|i: int| 0 <= i < u.skip(1).len() && u.skip(1)[i] == '\n';
                assert(u[i + 1] == '\n');
                assert(u.contains('\n'));
            }
        }
        lemma_lines_last(u.skip(1));
        let rest = lines_of(u.skip(1));
        assert(rest == seq![u.skip(1)]);
        assert(seq![u[0]] + u.skip(1) =~= u);
        assert(rest.skip(1) =~= Seq::<Seq<char>>::empty());
        assert(seq![seq![u[0]] + rest[0]] + rest.skip(1) =~= seq![u]);
    }
}

/// No carriage return stands directly before a line feed in `s`.
pub open spec fn no_crlf(s: Seq<char>) -> bool {
    forall|i: int| 0 <= i && i + 1 < s.len() ==> !((#[trigger] s[i]) == '\r' && s[i + 1] == '\n')
}

/// Splitting `s.skip(start)` at a line feed found at `i`, with none before
/// it, peels off one line.
proof fn lemma_lines_step(s: Seq<char>, start: int, i: int)
    requires
        0 <= start <= i < s.len(),
        s[i] == '\n',
        forall|k: int| start <= k < i ==> s[k] != '\n',
    ensures
        lines_of(s.skip(start)) == seq![strip_cr(s.subrange(start, i))] + lines_of(
            s.skip(i + 1),
        ),
{
    let u = s.subrange(start, i);
    assert(!u.contains('\n')) by {
        if u.contains('\n') {
            let k = choose|k: int| 0 <= k < u.len() && u[k] == '\n';
            assert(s[start + k] == '\n');
        }
    }
    assert(s.skip(start) =~= u + seq!['\n'] + s.skip(i + 1));
    lemma_lines_term(u, s.skip(i + 1));
}

/// Rendering the lines of a text reproduces it, with one line feed appended
/// when the text did not end with one. Stated of text in which no carriage
/// return stands directly before a line feed: such a pair is consumed as a
/// single terminator by line splitting and rendered back as a bare line feed.
pub proof fn lemma_lines_roundtrip(s: Seq<char>)
    requires
        no_crlf(s),
    ensures
        lines_text(lines_of(s)) == if s.len() == 0 {
            s
        } else if s.last() == '\n' {
            s
        } else {
            s + seq!['\n']
        },
    decreases s.len(),
{
    if s.len() == 0 {
    } else {
        let t = s.skip(1);
        assert forall|i: int| 0 <= i && i + 1 < t.len() implies !((#[trigger] t[i]) == '\r' && t[i
            + 1] == '\n') by {
            assert(t[i] == s[i + 1]);
            assert(t[i + 1] == s[i + 2]);
        }
        lemma_lines_roundtrip(t);
        if t.len() > 0 {
            assert(s.last() == t.last());
        }
        if s[0] == '\n' {
            let els = seq![Seq::<char>::empty()] + lines_of(t);
            assert(lines_of(s) == els);
            assert(els[0] == Seq::<char>::empty());
            assert(els.skip(1) =~= lines_of(t));
            assert(lines_text(els) == Seq::<char>::empty() + seq!['\n'] + lines_text(
                lines_of(t),
            ));
            if t.len() == 0 {
                assert(Seq::<char>::empty() + seq!['\n'] + lines_text(lines_of(t)) =~= s);
            } else if t.last() == '\n' {
                assert(Seq::<char>::empty() + seq!['\n'] + t =~= s);
            } else {
                assert(Seq::<char>::empty() + seq!['\n'] + (t + seq!['\n']) =~= s + seq!['\n']);
            }
        } else {
            assert(!(s[0] == '\r' && s.len() >= 2 && s[1] == '\n'));
            let rest = lines_of(t);
            lemma_lines_of_empty_iff(t);
            if s.len() == 1 {
                assert(lines_of(s) == seq![seq![s[0]]]);
                assert(lines_text(lines_of(s).skip(1)) =~= Seq::<char>::empty());
                assert(lines_text(lines_of(s)) =~= s + seq!['\n']);
            } else {
                let head = seq![s[0]] + rest[0];
                assert(lines_of(s) == seq![head] + rest.skip(1));
                assert((seq![head] + rest.skip(1)).skip(1) =~= rest.skip(1));
                assert(lines_text(lines_of(s)) == head + seq!['\n'] + lines_text(rest.skip(1)));
                assert(lines_text(rest) == rest[0] + seq!['\n'] + lines_text(rest.skip(1)));
                assert(lines_text(lines_of(s)) =~= seq![s[0]] + lines_text(rest));
                if t.last() == '\n' {
                    assert(seq![s[0]] + t =~= s);
                } else {
                    assert(seq![s[0]] + (t + seq!['\n']) =~= s + seq!['\n']);
                }
            }
        }
    }
}

/// Split `s` into its lines.
pub fn split_lines(s: &str) -> (ls: Vec<String>)
    ensures
        ls@.map_values(|p: String| p@) == lines_of(s@),
{
    let n = s.unicode_len();
    let mut ls: Vec<String> = Vec::new();
    let mut start: usize = 0;
    let mut i: usize = 0;
    proof {
        assert(s@.skip(0) =~= s@);
        assert(ls@.map_values(|p: String| p@) + lines_of(s@) =~= lines_of(s@));
    }
    while i < n
        invariant
            n == s@.len(),
            start <= i <= n,
            forall|k: int| start <= k < i ==> s@[k] != '\n',
            lines_of(s@) == ls@.map_values(|p: String| p@) + lines_of(s@.skip(start as int)),
        decreases n - i,
    {
        if s.get_char(i) == '\n' {
            let end = if i > start && s.get_char(i - 1) == '\r' {
                i - 1
            } else {
                i
            };
            let piece = s.substring_char(start, end).to_owned();
            proof {
                lemma_lines_step(s@, start as int, i as int);
                let u = s@.subrange(start as int, i as int);
                assert(piece@ == strip_cr(u)) by {
                    if i > start && s@[i - 1] == '\r' {
                        assert(u.last() == s@[i - 1]);
                        assert(u.drop_last() =~= s@.subrange(start as int, i - 1));
                    }
                }
                assert(ls@.push(piece).map_values(|p: String| p@) =~= ls@.map_values(
                    |p: String| p@,
                ).push(piece@));
                assert(ls@.map_values(|p: String| p@).push(piece@) + lines_of(s@.skip(i + 1))
                    =~= ls@.map_values(|p: String| p@) + (seq![strip_cr(u)] + lines_of(
                    s@.skip(i + 1),
                )));
            }
            ls.push(piece);
            start = i + 1;
        }
        i = i + 1;
    }
    if start < n {
        let piece = s.substring_char(start, n).to_owned();
        proof {
            lemma_lines_last(s@.skip(start as int));
            assert(piece@ == s@.skip(start as int)) by {
                assert(s@.subrange(start as int, n as int) =~= s@.skip(start as int));
            }
            assert(ls@.push(piece).map_values(|p: String| p@) =~= ls@.map_values(
                |p: String| p@,
            ).push(piece@));
            assert(ls@.map_values(|p: String| p@).push(piece@) =~= ls@.map_values(
                |p: String| p@,
            ) + seq![s@.skip(start as int)]);
        }
        ls.push(piece);
    } else {
        proof {
            assert(s@.skip(start as int) =~= Seq::<char>::empty());
            assert(lines_of(s@.skip(start as int)) =~= Seq::<Seq<char>>::empty());
            assert(ls@.map_values(|p: String| p@) + Seq::<Seq<char>>::empty() =~= ls@.map_values(
                |p: String| p@,
            ));
        }
    }
    ls
}

/// Split `s` at every occurrence of `sep`, preserving empty fields.
pub fn split_on(s: &str, sep: char) -> (parts: Vec<String>)
    ensures
        parts@.map_values(|p: String| p@) == split_chars(s@, sep),
{
    let n = s.unicode_len();
    let mut parts: Vec<String> = Vec::new();
    let mut start: usize = 0;
    let mut i: usize = 0;
    proof {
        assert(s@.skip(0) =~= s@);
        assert(parts@.map_values(|p: String| p@) + split_chars(s@, sep) =~= split_chars(
            s@,
            sep,
        ));
    }
    while i < n
        invariant
            n == s@.len(),
            start <= i <= n,
            forall|k: int| start <= k < i ==> s@[k] != sep,
            split_chars(s@, sep) == parts@.map_values(|p: String| p@) + split_chars(
                s@.skip(start as int),
                sep,
            ),
        decreases n - i,
    {
        if s.get_char(i) == sep {
            let piece = s.substring_char(start, i).to_owned();
            proof {
                lemma_split_step(s@, sep, start as int, i as int);
                assert(parts@.push(piece).map_values(|p: String| p@) =~= parts@.map_values(
                    |p: String| p@,
                ).push(piece@));
                assert(parts@.map_values(|p: String| p@).push(piece@) + split_chars(
                    s@.skip(i + 1),
                    sep,
                ) =~= parts@.map_values(|p: String| p@) + (seq![s@.subrange(
                    start as int,
                    i as int,
                )] + split_chars(s@.skip(i + 1), sep)));
            }
            parts.push(piece);
            start = i + 1;
        }
        i = i + 1;
    }
    let piece = s.substring_char(start, n).to_owned();
    proof {
        lemma_split_last(s@, sep, start as int);
        assert(parts@.push(piece).map_values(|p: String| p@) =~= parts@.map_values(
            |p: String| p@,
        ).push(piece@));
        assert(parts@.map_values(|p: String| p@).push(piece@) =~= parts@.map_values(
            |p: String| p@,
        ) + seq![s@.skip(start as int)]);
    }
    parts.push(piece);
    parts
}

} // verus!

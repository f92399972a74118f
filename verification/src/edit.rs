//! Replacing, trimming and cutting text.

use vstd::prelude::*;
use vstd::string::*;
use crate::text::{chars_of, is_space, is_white_space, occurs_at, slice, stands_at};

verus! {

/// `to` in front of every character of `s` and behind the last.
pub open spec fn interleaved(s: Seq<char>, to: Seq<char>) -> Seq<char>
    decreases s.len(),
{
    if s.len() == 0 {
        to
    } else {
        to + seq![s[0]] + interleaved(s.skip(1), to)
    }
}

/// `s` with every occurrence of `from` replaced by `to`. Occurrences are taken
/// from left to right and do not overlap. An empty `from` occurs in front of
/// every character and behind the last.
pub open spec fn replaced(s: Seq<char>, from: Seq<char>, to: Seq<char>) -> Seq<char>
    decreases s.len(),
{
    if from.len() == 0 {
        interleaved(s, to)
    } else if s.len() < from.len() {
        s
    } else if occurs_at(s, from, 0) {
        to + replaced(s.skip(from.len() as int), from, to)
    } else {
        seq![s[0]] + replaced(s.skip(1), from, to)
    }
}

/// The leftmost index at or behind `from` at which `pattern` occurs in `s`.
pub open spec fn first_occurrence_from(s: Seq<char>, pattern: Seq<char>, from: int) -> Option<int>
    decreases s.len() + 1 - from,
{
    if from < 0 || from + pattern.len() > s.len() {
        None
    } else if occurs_at(s, pattern, from) {
        Some(from)
    } else {
        first_occurrence_from(s, pattern, from + 1)
    }
}

/// `s` with its leftmost occurrence of `from` replaced by `to`, or `s` where
/// `from` does not occur in it.
pub open spec fn replaced_first(s: Seq<char>, from: Seq<char>, to: Seq<char>) -> Seq<char> {
    match first_occurrence_from(s, from, 0) {
        Some(at) => s.take(at) + to + s.skip(at + from.len()),
        None => s,
    }
}

/// `s` without the white space at its head and at its end.
pub open spec fn trimmed(s: Seq<char>) -> Seq<char>
    decreases s.len(),
{
    if s.len() == 0 {
        s
    } else if is_white_space(s.first()) {
        trimmed(s.drop_first())
    } else if is_white_space(s.last()) {
        trimmed(s.drop_last())
    } else {
        s
    }
}

/// `s` without the white space at its head.
pub open spec fn trimmed_start(s: Seq<char>) -> Seq<char>
    decreases s.len(),
{
    if s.len() > 0 && is_white_space(s.first()) {
        trimmed_start(s.drop_first())
    } else {
        s
    }
}

/// The first line of `s`: what stands before its first line feed.
pub open spec fn first_line(s: Seq<char>) -> Seq<char> {
    match first_occurrence_from(s, seq!['\n'], 0) {
        Some(at) => s.take(at),
        None => s,
    }
}

/// What stands behind the first line feed of `s`, if it has one.
pub open spec fn after_first_line(s: Seq<char>) -> Option<Seq<char>> {
    match first_occurrence_from(s, seq!['\n'], 0) {
        Some(at) => Some(s.skip(at + 1)),
        None => None,
    }
}

/// `text` with every occurrence of `from` replaced by `to`.
pub fn replace(text: &str, from: &str, to: &str) -> (out: String)
    ensures
        out@ == replaced(text@, from@, to@),
{
    let chars = chars_of(text);
    let pattern = chars_of(from);
    let mut out = String::new();
    if pattern.len() == 0 {
        let mut i: usize = 0;
        proof {
            assert(text@.skip(0) =~= text@);
            assert(out@ + interleaved(text@, to@) =~= interleaved(text@, to@));
        }
        while i < chars.len()
            invariant
                chars@ == text@,
                i <= chars.len(),
                out@ + interleaved(text@.skip(i as int), to@) == interleaved(text@, to@),
            decreases chars.len() - i,
        {
            let ghost before = out@;
            let ghost rest = text@.skip(i as int);
            out.append(to);
            out.append(slice(text, i, i + 1));
            proof {
                assert(rest.skip(1) =~= text@.skip(i + 1));
                assert(text@.subrange(i as int, i + 1) =~= seq![rest[0]]);
                assert(before + (to@ + seq![rest[0]] + interleaved(rest.skip(1), to@))
                    =~= (before + to@ + seq![rest[0]]) + interleaved(text@.skip(i + 1), to@));
            }
            i = i + 1;
        }
        out.append(to);
        return out;
    }
    let mut kept: usize = 0;
    let mut at: usize = 0;
    proof {
        assert(text@.skip(0) =~= text@);
        assert(text@.subrange(0, 0) =~= Seq::<char>::empty());
        assert(out@ + text@.subrange(0, 0) + replaced(text@, from@, to@) =~= replaced(
            text@,
            from@,
            to@,
        ));
    }
    while at < chars.len()
        invariant
            chars@ == text@,
            pattern@ == from@,
            from@.len() > 0,
            kept <= at <= chars.len(),
            out@ + text@.subrange(kept as int, at as int) + replaced(
                text@.skip(at as int),
                from@,
                to@,
            ) == replaced(text@, from@, to@),
        decreases chars.len() - at,
    {
        let ghost rest = text@.skip(at as int);
        let ghost before = out@;
        let ghost run = text@.subrange(kept as int, at as int);
        proof {
            if at + from@.len() <= text@.len() {
                assert(rest.subrange(0, from@.len() as int) =~= text@.subrange(
                    at as int,
                    at + from@.len(),
                ));
            }
        }
        if stands_at(&chars, &pattern, at) {
            out.append(slice(text, kept, at));
            out.append(to);
            proof {
                assert(rest.skip(from@.len() as int) =~= text@.skip(at + from@.len()));
                assert(text@.subrange(at + from@.len(), at + from@.len()) =~= Seq::<
                    char,
                >::empty());
                assert(before + run + (to@ + replaced(rest.skip(from@.len() as int), from@, to@))
                    =~= (before + run + to@) + text@.subrange(
                    at + from@.len(),
                    at + from@.len(),
                ) + replaced(text@.skip(at + from@.len()), from@, to@));
            }
            at = at + pattern.len();
            kept = at;
        } else {
            proof {
                assert(rest.skip(1) =~= text@.skip(at + 1));
                assert(run + seq![rest[0]] =~= text@.subrange(kept as int, at + 1));
                if rest.len() < from@.len() {
                    assert(replaced(rest, from@, to@) == rest);
                    assert(replaced(rest.skip(1), from@, to@) == rest.skip(1));
                    assert(rest =~= seq![rest[0]] + rest.skip(1));
                }
                assert(before + run + (seq![rest[0]] + replaced(rest.skip(1), from@, to@))
                    =~= before + text@.subrange(kept as int, at + 1) + replaced(
                    text@.skip(at + 1),
                    from@,
                    to@,
                ));
            }
            at = at + 1;
        }
    }
    out.append(slice(text, kept, at));
    proof {
        assert(replaced(text@.skip(at as int), from@, to@) =~= Seq::<char>::empty());
        assert(out@ =~= out@ + Seq::<char>::empty());
    }
    out
}

/// `text` with its leftmost occurrence of `from` replaced by `to`.
pub fn replace_first(text: &str, from: &str, to: &str) -> (out: String)
    ensures
        out@ == replaced_first(text@, from@, to@),
{
    let chars = chars_of(text);
    let pattern = chars_of(from);
    if pattern.len() > chars.len() {
        return String::from_str(text);
    }
    let last: usize = chars.len() - pattern.len();
    let mut at: usize = 0;
    loop
        invariant
            chars@ == text@,
            pattern@ == from@,
            last == chars.len() - pattern.len(),
            at <= last,
            first_occurrence_from(text@, from@, at as int) == first_occurrence_from(
                text@,
                from@,
                0,
            ),
        ensures
            first_occurrence_from(text@, from@, 0) is None,
        decreases last - at,
    {
        if stands_at(&chars, &pattern, at) {
            let mut out = String::from_str(slice(text, 0, at));
            out.append(to);
            out.append(slice(text, at + pattern.len(), chars.len()));
            proof {
                assert(text@.subrange(0, at as int) =~= text@.take(at as int));
                assert(text@.subrange(at + pattern.len(), chars.len() as int) =~= text@.skip(
                    at + from@.len(),
                ));
            }
            return out;
        }
        if at == last {
            proof {
                assert(first_occurrence_from(text@, from@, at + 1) is None);
            }
            break ;
        }
        at = at + 1;
    }
    String::from_str(text)
}

/// `text` without the white space at its head and at its end.
pub fn trim<'a>(text: &'a str) -> (out: &'a str)
    ensures
        out@ == trimmed(text@),
{
    let chars = chars_of(text);
    let mut from: usize = 0;
    let mut to: usize = chars.len();
    proof {
        assert(text@.subrange(0, chars.len() as int) =~= text@);
    }
    while from < to && is_space(chars[from])
        invariant
            chars@ == text@,
            from <= to == chars.len(),
            trimmed(text@.subrange(from as int, to as int)) == trimmed(text@),
        decreases to - from,
    {
        proof {
            assert(text@.subrange(from as int, to as int).drop_first() =~= text@.subrange(
                from + 1,
                to as int,
            ));
        }
        from = from + 1;
    }
    while from < to && is_space(chars[to - 1])
        invariant
            chars@ == text@,
            from <= to <= chars.len(),
            from < to ==> !is_white_space(text@[from as int]),
            trimmed(text@.subrange(from as int, to as int)) == trimmed(text@),
        decreases to - from,
    {
        proof {
            assert(text@.subrange(from as int, to as int).drop_last() =~= text@.subrange(
                from as int,
                to - 1,
            ));
        }
        to = to - 1;
    }
    slice(text, from, to)
}

/// `text` without the white space at its head.
pub fn trim_start<'a>(text: &'a str) -> (out: &'a str)
    ensures
        out@ == trimmed_start(text@),
{
    let chars = chars_of(text);
    let mut from: usize = 0;
    proof {
        assert(text@.subrange(0, chars.len() as int) =~= text@);
    }
    while from < chars.len() && is_space(chars[from])
        invariant
            chars@ == text@,
            from <= chars.len(),
            trimmed_start(text@.subrange(from as int, chars.len() as int)) == trimmed_start(
                text@,
            ),
        decreases chars.len() - from,
    {
        proof {
            assert(text@.subrange(from as int, chars.len() as int).drop_first()
                =~= text@.subrange(from + 1, chars.len() as int));
        }
        from = from + 1;
    }
    slice(text, from, chars.len())
}

/// The first line of `text`, and what stands behind its line feed.
pub fn cut_line<'a>(text: &'a str) -> (cut: (&'a str, Option<&'a str>))
    ensures
        cut.0@ == first_line(text@),
        cut.1 is Some <==> after_first_line(text@) is Some,
        cut.1 matches Some(rest) ==> Some(rest@) == after_first_line(text@),
{
    let chars = chars_of(text);
    let mut at: usize = 0;
    while at < chars.len()
        invariant
            chars@ == text@,
            at <= chars.len(),
            first_occurrence_from(text@, seq!['\n'], at as int) == first_occurrence_from(
                text@,
                seq!['\n'],
                0,
            ),
        decreases chars.len() - at,
    {
        proof {
            assert(text@.subrange(at as int, at + 1)[0] == text@[at as int]);
            if text@[at as int] == '\n' {
                assert(text@.subrange(at as int, at + 1) =~= seq!['\n']);
            }
        }
        if chars[at] == '\n' {
            proof {
                assert(text@.subrange(0, at as int) =~= text@.take(at as int));
                assert(text@.subrange(at + 1, chars.len() as int) =~= text@.skip(at + 1));
            }
            return (slice(text, 0, at), Some(slice(text, at + 1, chars.len())));
        }
        at = at + 1;
    }
    (text, None)
}

} // verus!

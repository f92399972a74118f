//! Splitting a long text into chunks of bounded length.
//!
//! A break is looked for in a window: the next characters, as many as the
//! limit says. A chunk ends, by preference, with the last line feed of the
//! window, else with the full stop of its last `". "`, else with its last
//! space. A delimiter counts only where it lies wholly in the window: a full
//! stop that is the last character of the window ends no sentence, whatever
//! follows it. Where the window holds none of them, the text is cut hard, one
//! character behind the window, so that a chunk never holds more than the
//! limit and one.

use vstd::prelude::*;
use vstd::seq_lib::*;
use crate::text::{chars_of, occurs_at, slice, views};

verus! {

/// The rightmost index below `bound` at which `pattern` occurs in `s`.
pub open spec fn last_occurrence_below(s: Seq<char>, pattern: Seq<char>, bound: int) -> Option<int>
    decreases bound,
{
    if bound <= 0 {
        None
    } else if occurs_at(s, pattern, bound - 1) {
        Some(bound - 1)
    } else {
        last_occurrence_below(s, pattern, bound - 1)
    }
}

/// The rightmost index at which `pattern` occurs in `s`.
pub open spec fn last_occurrence(s: Seq<char>, pattern: Seq<char>) -> Option<int> {
    last_occurrence_below(s, pattern, s.len() as int + 1)
}

/// What `last_occurrence_below` finds is an occurrence with none to its right,
/// and it finds one whenever there is one.
pub proof fn lemma_last_occurrence_below(s: Seq<char>, pattern: Seq<char>, bound: int)
    ensures
        match last_occurrence_below(s, pattern, bound) {
            Some(at) => {
                &&& at < bound
                &&& occurs_at(s, pattern, at)
                &&& forall|j: int| at < j < bound ==> !occurs_at(s, pattern, j)
            },
            None => forall|j: int| j < bound ==> !occurs_at(s, pattern, j),
        },
    decreases bound,
{
    if bound > 0 && !occurs_at(s, pattern, bound - 1) {
        lemma_last_occurrence_below(s, pattern, bound - 1);
    }
}

/// Where a window breaks: at its last line feed, else at the full stop of
/// its last `". "`, else at its last space; nowhere where it holds none.
pub open spec fn break_at(window: Seq<char>) -> Option<int> {
    if last_occurrence(window, seq!['\n']) is Some {
        last_occurrence(window, seq!['\n'])
    } else if last_occurrence(window, seq!['.', ' ']) is Some {
        last_occurrence(window, seq!['.', ' '])
    } else {
        last_occurrence(window, seq![' '])
    }
}

/// The length of the chunk that is cut from the head of `rest` for a limit of
/// `limit` characters, of which `rest` holds at least as many. The window is
/// the first `limit` characters. The chunk ends with the character at which
/// the window breaks. Where the window does not break, the chunk is the
/// window and one character more, or all of `rest` where it holds no more
/// than the window.
pub open spec fn chunk_len(rest: Seq<char>, limit: nat) -> int {
    match break_at(rest.take(limit as int)) {
        Some(at) => at + 1,
        None => if rest.len() > limit {
            limit as int + 1
        } else {
            rest.len() as int
        },
    }
}

/// A chunk is not empty, lies within the text that is left, and holds at most
/// one character more than the limit.
pub proof fn lemma_chunk_len_bounds(rest: Seq<char>, limit: nat)
    requires
        0 < limit <= rest.len(),
    ensures
        1 <= chunk_len(rest, limit) <= rest.len(),
        chunk_len(rest, limit) <= limit + 1,
        break_at(rest.take(limit as int)) is Some ==> chunk_len(rest, limit) <= limit,
{
    let window = rest.take(limit as int);
    lemma_last_occurrence_below(window, seq!['\n'], window.len() as int + 1);
    lemma_last_occurrence_below(window, seq!['.', ' '], window.len() as int + 1);
    lemma_last_occurrence_below(window, seq![' '], window.len() as int + 1);
}

/// A chunk ends at the best break that its window has: with the window's
/// last line feed; else, where it has no line feed, with the full stop of its
/// last `". "`; else, where it has none either, with its last space. Where
/// the window has no space, the chunk is the window and the character behind
/// it, or the window alone where nothing is behind it.
pub proof fn lemma_chunk_ends_at_best_break(rest: Seq<char>, limit: nat)
    requires
        0 < limit <= rest.len(),
    ensures
        ({
            let window = rest.take(limit as int);
            let n = chunk_len(rest, limit);
            let feeds = exists|j: int| occurs_at(window, seq!['\n'], j);
            let stops = exists|j: int| occurs_at(window, seq!['.', ' '], j);
            let spaces = exists|j: int| occurs_at(window, seq![' '], j);
            &&& feeds ==> {
                &&& occurs_at(window, seq!['\n'], n - 1)
                &&& forall|j: int| n <= j ==> !occurs_at(window, seq!['\n'], j)
            }
            &&& !feeds && stops ==> {
                &&& occurs_at(window, seq!['.', ' '], n - 1)
                &&& forall|j: int| n <= j ==> !occurs_at(window, seq!['.', ' '], j)
            }
            &&& !feeds && !stops && spaces ==> {
                &&& occurs_at(window, seq![' '], n - 1)
                &&& forall|j: int| n <= j ==> !occurs_at(window, seq![' '], j)
            }
            &&& !feeds && !stops && !spaces ==> n == if rest.len() > limit {
                limit as int + 1
            } else {
                limit as int
            }
        }),
{
    let window = rest.take(limit as int);
    lemma_last_occurrence_below(window, seq!['\n'], window.len() as int + 1);
    lemma_last_occurrence_below(window, seq!['.', ' '], window.len() as int + 1);
    lemma_last_occurrence_below(window, seq![' '], window.len() as int + 1);
}

/// The chunks of `text` for a limit of `limit` characters: while at least
/// `limit` characters are left, one chunk is cut from the head of them; what
/// is left at the end is the last chunk, which may be empty.
pub open spec fn segments(text: Seq<char>, limit: nat) -> Seq<Seq<char>>
    decreases text.len(),
    via segments_decreases
{
    if limit == 0 || text.len() < limit {
        seq![text]
    } else {
        let n = chunk_len(text, limit);
        seq![text.take(n)] + segments(text.skip(n), limit)
    }
}

#[via_fn]
proof fn segments_decreases(text: Seq<char>, limit: nat) {
    if !(limit == 0 || text.len() < limit) {
        lemma_chunk_len_bounds(text, limit);
    }
}

/// A chunk list read back to back is the text it was cut from.
pub proof fn lemma_segments_concat(text: Seq<char>, limit: nat)
    ensures
        segments(text, limit).flatten() == text,
    decreases text.len(),
{
    if limit == 0 || text.len() < limit {
        seq![text].lemma_flatten_one_element();
    } else {
        let n = chunk_len(text, limit);
        lemma_chunk_len_bounds(text, limit);
        lemma_segments_concat(text.skip(n), limit);
        seq![text.take(n)].lemma_flatten_one_element();
        lemma_flatten_concat(seq![text.take(n)], segments(text.skip(n), limit));
        assert(text.take(n) + text.skip(n) =~= text);
    }
}

/// Every chunk but the last holds at least one character and at most one
/// more than `limit`; the last holds fewer than `limit`.
pub proof fn lemma_segments_bound(text: Seq<char>, limit: nat)
    requires
        limit > 0,
    ensures
        segments(text, limit).len() >= 1,
        segments(text, limit).last().len() < limit,
        forall|i: int|
            0 <= i < segments(text, limit).len() - 1 ==> 1 <= (#[trigger] segments(
                text,
                limit,
            )[i]).len() <= limit + 1,
    decreases text.len(),
{
    if text.len() >= limit {
        let n = chunk_len(text, limit);
        lemma_chunk_len_bounds(text, limit);
        lemma_segments_bound(text.skip(n), limit);
        let rest = segments(text.skip(n), limit);
        assert forall|i: int| 0 <= i < segments(text, limit).len() - 1 implies 1 <= (
        #[trigger] segments(text, limit)[i]).len() <= limit + 1 by {
            if i > 0 {
                assert(segments(text, limit)[i] == rest[i - 1]);
            }
        }
        assert(segments(text, limit).last() == rest.last());
    }
}

proof fn lemma_occurs_single(s: Seq<char>, c: char, at: int)
    ensures
        occurs_at(s, seq![c], at) <==> (0 <= at < s.len() && s[at] == c),
{
    if 0 <= at < s.len() {
        assert(s.subrange(at, at + 1)[0] == s[at]);
        if s[at] == c {
            assert(s.subrange(at, at + 1) =~= seq![c]);
        }
    }
}

proof fn lemma_occurs_pair(s: Seq<char>, a: char, b: char, at: int)
    ensures
        occurs_at(s, seq![a, b], at) <==> (0 <= at && at + 1 < s.len() && s[at] == a && s[at + 1]
            == b),
{
    if 0 <= at && at + 1 < s.len() {
        assert(s.subrange(at, at + 2)[0] == s[at]);
        assert(s.subrange(at, at + 2)[1] == s[at + 1]);
        if s[at] == a && s[at + 1] == b {
            assert(s.subrange(at, at + 2) =~= seq![a, b]);
        }
    }
}

/// The rightmost `c` among the characters `from..to`, counted from `from`.
fn rfind_char(chars: &Vec<char>, from: usize, to: usize, c: char) -> (found: Option<usize>)
    requires
        from <= to <= chars.len(),
    ensures
        found is Some <==> last_occurrence(chars@.subrange(from as int, to as int), seq![c])
            is Some,
        found matches Some(at) ==> last_occurrence(
            chars@.subrange(from as int, to as int),
            seq![c],
        ) == Some(at as int),
{
    let ghost window = chars@.subrange(from as int, to as int);
    let mut i: usize = to;
    while i > from
        invariant
            from <= i <= to <= chars.len(),
            window == chars@.subrange(from as int, to as int),
            forall|j: int| i - from <= j ==> !occurs_at(window, seq![c], j),
        decreases i,
    {
        i = i - 1;
        proof {
            lemma_occurs_single(window, c, i - from);
        }
        if chars[i] == c {
            proof {
                lemma_last_occurrence_below(window, seq![c], window.len() as int + 1);
            }
            return Some(i - from);
        }
    }
    proof {
        lemma_last_occurrence_below(window, seq![c], window.len() as int + 1);
    }
    None
}

/// The rightmost place among the characters `from..to` where `a` stands with
/// `b` behind it, counted from `from`.
fn rfind_pair(chars: &Vec<char>, from: usize, to: usize, a: char, b: char) -> (found: Option<
    usize,
>)
    requires
        from <= to <= chars.len(),
    ensures
        found is Some <==> last_occurrence(chars@.subrange(from as int, to as int), seq![a, b])
            is Some,
        found matches Some(at) ==> last_occurrence(
            chars@.subrange(from as int, to as int),
            seq![a, b],
        ) == Some(at as int),
{
    let ghost window = chars@.subrange(from as int, to as int);
    proof {
        lemma_last_occurrence_below(window, seq![a, b], window.len() as int + 1);
    }
    if to - from < 2 {
        proof {
            assert forall|j: int| !occurs_at(window, seq![a, b], j) by {
                lemma_occurs_pair(window, a, b, j);
            }
        }
        return None;
    }
    let mut i: usize = to - 1;
    proof {
        assert forall|j: int| i - from <= j implies !occurs_at(window, seq![a, b], j) by {
            lemma_occurs_pair(window, a, b, j);
        }
    }
    while i > from
        invariant
            from <= i < to <= chars.len(),
            window == chars@.subrange(from as int, to as int),
            forall|j: int| i - from <= j ==> !occurs_at(window, seq![a, b], j),
        decreases i,
    {
        i = i - 1;
        proof {
            lemma_occurs_pair(window, a, b, i - from);
        }
        if chars[i] == a && chars[i + 1] == b {
            proof {
                lemma_last_occurrence_below(window, seq![a, b], window.len() as int + 1);
            }
            return Some(i - from);
        }
    }
    proof {
        lemma_last_occurrence_below(window, seq![a, b], window.len() as int + 1);
    }
    None
}

/// The length of the chunk cut from the characters of `chars` from `from`
/// on, for a limit of `limit` characters.
fn cut_chunk(chars: &Vec<char>, from: usize, limit: usize) -> (n: usize)
    requires
        0 < limit <= chars.len() - from,
        from <= chars.len(),
    ensures
        n == chunk_len(chars@.skip(from as int), limit as nat),
        1 <= n <= chars.len() - from,
        n <= limit + 1,
{
    let to = from + limit;
    proof {
        lemma_chunk_len_bounds(chars@.skip(from as int), limit as nat);
        assert(chars@.skip(from as int).take(limit as int) =~= chars@.subrange(
            from as int,
            to as int,
        ));
    }
    if let Some(at) = rfind_char(chars, from, to, '\n') {
        at + 1
    } else if let Some(at) = rfind_pair(chars, from, to, '.', ' ') {
        at + 1
    } else if let Some(at) = rfind_char(chars, from, to, ' ') {
        at + 1
    } else if chars.len() - from > limit {
        limit + 1
    } else {
        limit
    }
}

/// Splits `text` into chunks for a limit of `chars_per_string` characters.
///
/// While at least `chars_per_string` characters are left, the next chunk is
/// cut from the head of them. A break is looked for in the window of the
/// next `chars_per_string` characters: the chunk ends with the last line feed
/// of the window, else with the full stop of its last `". "`, else with its
/// last space. The window ends before the character at `chars_per_string`, so
/// a full stop that is the last character of the window ends no sentence.
/// Where the window holds none of them, the chunk is cut hard: it is the
/// window and one character more, or the window alone where the text ends
/// with it. The rest of the text is the last chunk, and is there even when it
/// is empty. The chunks, read back to back, are `text`.
pub fn smart_split<'a>(text: &'a str, chars_per_string: usize) -> (chunks: Vec<&'a str>)
    requires
        chars_per_string > 0,
    ensures
        views(chunks@) == segments(text@, chars_per_string as nat),
        views(chunks@).flatten() == text@,
        chunks@.len() >= 1,
        chunks@.last()@.len() < chars_per_string,
        forall|i: int|
            0 <= i < chunks@.len() - 1 ==> 1 <= (#[trigger] chunks@[i])@.len()
                <= chars_per_string + 1,
{
    let chars = chars_of(text);
    let total = chars.len();
    let mut chunks: Vec<&'a str> = Vec::new();
    let mut left: usize = 0;
    proof {
        assert(text@.skip(0) =~= text@);
        assert(views(chunks@) + segments(text@, chars_per_string as nat) =~= segments(
            text@,
            chars_per_string as nat,
        ));
    }
    while total - left >= chars_per_string
        invariant
            chars_per_string > 0,
            chars@ == text@,
            total == chars.len(),
            left <= total,
            views(chunks@) + segments(text@.skip(left as int), chars_per_string as nat)
                == segments(text@, chars_per_string as nat),
        decreases total - left,
    {
        let n = cut_chunk(&chars, left, chars_per_string);
        let part = slice(text, left, left + n);
        let ghost rest = text@.skip(left as int);
        let ghost before = chunks@;
        chunks.push(part);
        proof {
            let limit = chars_per_string as nat;
            assert(rest.take(n as int) =~= part@);
            assert(rest.skip(n as int) =~= text@.skip(left + n));
            assert(views(chunks@) =~= views(before).push(part@));
            assert(segments(rest, limit) == seq![part@] + segments(rest.skip(n as int), limit));
            assert(views(before).push(part@) + segments(rest.skip(n as int), limit) =~= views(
                before,
            ) + (seq![part@] + segments(rest.skip(n as int), limit)));
        }
        left = left + n;
    }
    let ghost before = chunks@;
    chunks.push(slice(text, left, total));
    proof {
        let limit = chars_per_string as nat;
        let rest = text@.skip(left as int);
        assert(rest =~= text@.subrange(left as int, total as int));
        assert(views(chunks@) =~= views(before).push(rest));
        assert(views(before).push(rest) =~= views(before) + segments(rest, limit));
        assert forall|i: int| 0 <= i < chunks@.len() implies (#[trigger] chunks@[i])@ == views(
            chunks@,
        )[i] by {}
        lemma_segments_concat(text@, chars_per_string as nat);
        lemma_segments_bound(text@, chars_per_string as nat);
    }
    chunks
}

} // verus!

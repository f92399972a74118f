//! The span markers of a line of marked-up text.
//!
//! An opening marker is `<tspan`, one white-space character, and then at least
//! one character up to the first `>` behind it, all on one line. The closing
//! marker is `</tspan>`. A line is read from left to right, and a marker
//! begins only where no earlier marker is still being read.

use vstd::prelude::*;
use crate::text::{is_space, is_white_space, occurs_at};

verus! {

/// One marker of a line.
pub enum Token {
    /// An opening marker, with its text.
    Open(Seq<char>),
    /// The closing marker.
    Close,
}

/// The word that begins an opening marker.
pub open spec fn opener_word() -> Seq<char> {
    seq!['<', 't', 's', 'p', 'a', 'n']
}

/// The closing marker.
pub open spec fn closer() -> Seq<char> {
    seq!['<', '/', 't', 's', 'p', 'a', 'n', '>']
}

/// One past the first `>` at or behind `from` that no line feed comes before.
pub open spec fn attribute_end(s: Seq<char>, from: int) -> Option<int>
    decreases s.len() - from,
{
    if from < 0 || from >= s.len() {
        None
    } else if s[from] == '>' {
        Some(from + 1)
    } else if s[from] == '\n' {
        None
    } else {
        attribute_end(s, from + 1)
    }
}

/// Whether an opening marker begins at `at` as far as its word, its white
/// space and the first character behind them go.
pub open spec fn opener_begins(s: Seq<char>, at: int) -> bool {
    &&& occurs_at(s, opener_word(), at)
    &&& at + 7 < s.len()
    &&& is_white_space(s[at + 6])
    &&& s[at + 7] != '\n'
}

/// One past the end of the opening marker that begins at `at`, if one does.
pub open spec fn opener_end(s: Seq<char>, at: int) -> Option<int> {
    if opener_begins(s, at) {
        attribute_end(s, at + 8)
    } else {
        None
    }
}

/// The markers of `s` from index `at` on.
pub open spec fn tokens_from(s: Seq<char>, at: int) -> Seq<Token>
    decreases s.len() - at,
    via tokens_from_decreases
{
    if at < 0 || at >= s.len() {
        Seq::empty()
    } else if let Some(end) = opener_end(s, at) {
        seq![Token::Open(s.subrange(at, end))] + tokens_from(s, end)
    } else if occurs_at(s, closer(), at) {
        seq![Token::Close] + tokens_from(s, at + 8)
    } else {
        tokens_from(s, at + 1)
    }
}

#[via_fn]
proof fn tokens_from_decreases(s: Seq<char>, at: int) {
    if 0 <= at < s.len() {
        if opener_end(s, at) is Some {
            lemma_attribute_end(s, at + 8);
        }
    }
}

/// An attribute ends behind where it was looked for, and within the text.
pub proof fn lemma_attribute_end(s: Seq<char>, from: int)
    ensures
        attribute_end(s, from) matches Some(end) ==> {
            &&& from < end <= s.len()
            &&& s[end - 1] == '>'
        },
    decreases s.len() - from,
{
    if 0 <= from < s.len() && s[from] != '>' && s[from] != '\n' {
        lemma_attribute_end(s, from + 1);
    }
}

/// The markers of `s`.
pub open spec fn tokens(s: Seq<char>) -> Seq<Token> {
    tokens_from(s, 0)
}

/// Where a marker stands in a line: at the characters `from..to`.
pub struct Place {
    /// Whether the marker opens a span.
    pub open: bool,
    /// Index of the marker's `<`.
    pub from: int,
    /// One past the index of the marker's `>`.
    pub to: int,
}

impl Place {
    /// The marker that stands at this place of `s`.
    pub open spec fn token(self, s: Seq<char>) -> Token {
        if self.open {
            Token::Open(s.subrange(self.from, self.to))
        } else {
            Token::Close
        }
    }
}

/// The places of the markers of `s` from index `at` on.
pub open spec fn places_from(s: Seq<char>, at: int) -> Seq<Place>
    decreases s.len() - at,
    via places_from_decreases
{
    if at < 0 || at >= s.len() {
        Seq::empty()
    } else if let Some(end) = opener_end(s, at) {
        seq![Place { open: true, from: at, to: end }] + places_from(s, end)
    } else if occurs_at(s, closer(), at) {
        seq![Place { open: false, from: at, to: at + 8 }] + places_from(s, at + 8)
    } else {
        places_from(s, at + 1)
    }
}

#[via_fn]
proof fn places_from_decreases(s: Seq<char>, at: int) {
    if 0 <= at < s.len() {
        if opener_end(s, at) is Some {
            lemma_attribute_end(s, at + 8);
        }
    }
}

/// The places of the markers of `s`.
pub open spec fn places(s: Seq<char>) -> Seq<Place> {
    places_from(s, 0)
}

/// The markers of a line are what stands at their places.
pub proof fn lemma_tokens_at_places(s: Seq<char>, at: int)
    ensures
        tokens_from(s, at) == places_from(s, at).map_values(|place: Place| place.token(s)),
    decreases s.len() - at,
{
    let read = |place: Place| place.token(s);
    if 0 <= at < s.len() {
        if let Some(end) = opener_end(s, at) {
            lemma_attribute_end(s, at + 8);
            lemma_tokens_at_places(s, end);
            assert(places_from(s, at).map_values(read) =~= seq![
                Token::Open(s.subrange(at, end)),
            ] + places_from(s, end).map_values(read));
        } else if occurs_at(s, closer(), at) {
            lemma_tokens_at_places(s, at + 8);
            assert(places_from(s, at).map_values(read) =~= seq![Token::Close] + places_from(
                s,
                at + 8,
            ).map_values(read));
        } else {
            lemma_tokens_at_places(s, at + 1);
        }
    } else {
        assert(places_from(s, at).map_values(read) =~= Seq::<Token>::empty());
    }
}

/// A marker of a line by its place, in machine integers.
#[derive(Clone, Copy, Debug, PartialEq, Eq)]
pub struct Span {
    /// Whether the marker opens a span.
    pub open: bool,
    /// Index of the marker's `<`.
    pub from: usize,
    /// One past the index of the marker's `>`.
    pub to: usize,
}

impl View for Span {
    type V = Place;

    open spec fn view(&self) -> Place {
        Place { open: self.open, from: self.from as int, to: self.to as int }
    }
}

impl Span {
    /// The marker that this span is in `s`.
    pub open spec fn token(self, s: Seq<char>) -> Token {
        if self.open {
            Token::Open(s.subrange(self.from as int, self.to as int))
        } else {
            Token::Close
        }
    }

    /// Whether this span lies in `s`.
    pub open spec fn within(self, s: Seq<char>) -> bool {
        self.from <= self.to <= s.len()
    }
}

/// The places of `spans`.
pub open spec fn span_places(spans: Seq<Span>) -> Seq<Place> {
    spans.map_values(|span: Span| span@)
}

/// The markers that `spans` are in `s`.
pub open spec fn span_tokens(s: Seq<char>, spans: Seq<Span>) -> Seq<Token> {
    spans.map_values(|span: Span| span.token(s))
}

/// The texts of `spans` in `s`.
pub open spec fn span_texts(s: Seq<char>, spans: Seq<Span>) -> Seq<Seq<char>> {
    spans.map_values(|span: Span| s.subrange(span.from as int, span.to as int))
}

/// Looks for the end of an attribute from `from` on.
fn find_attribute_end(chars: &Vec<char>, from: usize) -> (end: Option<usize>)
    ensures
        end is Some <==> attribute_end(chars@, from as int) is Some,
        end matches Some(e) ==> attribute_end(chars@, from as int) == Some(e as int) && from < e
            <= chars.len(),
{
    let mut i: usize = from;
    while i < chars.len()
        invariant
            from <= i,
            attribute_end(chars@, i as int) == attribute_end(chars@, from as int),
        decreases chars.len() - i,
    {
        if chars[i] == '>' {
            return Some(i + 1);
        }
        if chars[i] == '\n' {
            return None;
        }
        i = i + 1;
    }
    None
}

/// Whether the word of an opening marker stands at `at`.
fn opener_word_at(chars: &Vec<char>, at: usize) -> (yes: bool)
    ensures
        yes == occurs_at(chars@, opener_word(), at as int),
{
    if chars.len() < 6 || at > chars.len() - 6 {
        return false;
    }
    let yes = chars[at] == '<' && chars[at + 1] == 't' && chars[at + 2] == 's' && chars[at + 3]
        == 'p' && chars[at + 4] == 'a' && chars[at + 5] == 'n';
    proof {
        let part = chars@.subrange(at as int, at + 6);
        if yes {
            assert(part =~= opener_word());
        } else {
            assert(part[0] == chars@[at as int]);
            assert(part[1] == chars@[at + 1]);
            assert(part[2] == chars@[at + 2]);
            assert(part[3] == chars@[at + 3]);
            assert(part[4] == chars@[at + 4]);
            assert(part[5] == chars@[at + 5]);
        }
    }
    yes
}

/// Whether the closing marker stands at `at`.
fn closer_at(chars: &Vec<char>, at: usize) -> (yes: bool)
    ensures
        yes == occurs_at(chars@, closer(), at as int),
{
    if chars.len() < 8 || at > chars.len() - 8 {
        return false;
    }
    let yes = chars[at] == '<' && chars[at + 1] == '/' && chars[at + 2] == 't' && chars[at + 3]
        == 's' && chars[at + 4] == 'p' && chars[at + 5] == 'a' && chars[at + 6] == 'n' && chars[at
        + 7] == '>';
    proof {
        let part = chars@.subrange(at as int, at + 8);
        if yes {
            assert(part =~= closer());
        } else {
            assert(part[0] == chars@[at as int]);
            assert(part[1] == chars@[at + 1]);
            assert(part[2] == chars@[at + 2]);
            assert(part[3] == chars@[at + 3]);
            assert(part[4] == chars@[at + 4]);
            assert(part[5] == chars@[at + 5]);
            assert(part[6] == chars@[at + 6]);
            assert(part[7] == chars@[at + 7]);
        }
    }
    yes
}

/// Looks for the end of an opening marker that begins at `at`.
fn find_opener_end(chars: &Vec<char>, at: usize) -> (end: Option<usize>)
    requires
        at < chars.len(),
    ensures
        end is Some <==> opener_end(chars@, at as int) is Some,
        end matches Some(e) ==> opener_end(chars@, at as int) == Some(e as int) && at < e
            <= chars.len(),
{
    if opener_word_at(chars, at) && chars.len() - at > 7 && is_space(chars[at + 6]) && chars[at
        + 7] != '\n' {
        find_attribute_end(chars, at + 8)
    } else {
        None
    }
}

/// The markers of a line, each by its place in it.
pub fn read_tokens(chars: &Vec<char>) -> (spans: Vec<Span>)
    ensures
        span_places(spans@) == places(chars@),
        span_tokens(chars@, spans@) == tokens(chars@),
        forall|i: int| 0 <= i < spans.len() ==> (#[trigger] spans[i]).within(chars@),
{
    let mut spans: Vec<Span> = Vec::new();
    let mut at: usize = 0;
    proof {
        assert(span_places(spans@) + places_from(chars@, 0) =~= places(chars@));
    }
    while at < chars.len()
        invariant
            at <= chars.len(),
            span_places(spans@) + places_from(chars@, at as int) == places(chars@),
            forall|i: int| 0 <= i < spans.len() ==> (#[trigger] spans[i]).within(chars@),
        decreases chars.len() - at,
    {
        let ghost before = spans@;
        if let Some(end) = find_opener_end(chars, at) {
            let span = Span { open: true, from: at, to: end };
            spans.push(span);
            proof {
                assert(span_places(spans@) =~= span_places(before).push(span@));
                assert(span_places(before).push(span@) + places_from(chars@, end as int)
                    =~= span_places(before) + (seq![span@] + places_from(chars@, end as int)));
            }
            at = end;
        } else if closer_at(chars, at) {
            let span = Span { open: false, from: at, to: at + 8 };
            spans.push(span);
            proof {
                assert(span_places(spans@) =~= span_places(before).push(span@));
                assert(span_places(before).push(span@) + places_from(chars@, at + 8)
                    =~= span_places(before) + (seq![span@] + places_from(chars@, at + 8)));
            }
            at = at + 8;
        } else {
            at = at + 1;
        }
    }
    proof {
        assert(span_places(spans@) + places_from(chars@, at as int) =~= span_places(spans@));
        lemma_tokens_at_places(chars@, 0);
        assert(span_tokens(chars@, spans@) =~= places(chars@).map_values(
            |place: Place| place.token(chars@),
        ));
    }
    spans
}

} // verus!

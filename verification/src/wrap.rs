//! Wrapping marked-up text into lines of a fixed width.
//!
//! The width of a line is counted in the characters that are shown: a marker,
//! from its `<` to its `>`, takes no room. A line ends at a space outside any
//! marker.

use vstd::prelude::*;
use crate::text::{chars_of, slice, views};

verus! {

/// Where a scan stands between two characters of the text.
pub struct ScanState {
    /// Index of the first character that no line holds yet.
    pub cursor: nat,
    /// Index of the last space seen outside a marker, 0 before the first.
    pub last_space: nat,
    /// Characters outside markers that were counted since the last line ended.
    pub count: nat,
    /// Whether the scan is inside a marker.
    pub open: bool,
}

impl ScanState {
    /// The state before the first character.
    pub open spec fn start() -> ScanState {
        ScanState { cursor: 0, last_space: 0, count: 0, open: false }
    }

    /// Whether reading `c` in this state ends a line: `c` is shown and is one
    /// more than the width allows.
    pub open spec fn flushes(self, c: char, width: nat) -> bool {
        !self.open && c != '<' && self.count + 1 > width
    }

    /// The state after reading `c`, the character at index `at`.
    pub open spec fn step(self, at: nat, c: char, width: nat) -> ScanState {
        if self.open || c == '<' {
            ScanState { open: c != '>', ..self }
        } else {
            ScanState {
                cursor: if self.flushes(c, width) {
                    self.last_space + 1
                } else {
                    self.cursor
                },
                last_space: if c == ' ' {
                    at
                } else {
                    self.last_space
                },
                count: if self.flushes(c, width) {
                    (at - self.last_space) as nat
                } else {
                    self.count + 1
                },
                open: false,
            }
        }
    }

    /// What holds of a state that was reached by reading `upto` characters.
    pub open spec fn within(self, upto: nat) -> bool {
        &&& self.cursor <= self.last_space + 1
        &&& self.cursor <= upto
        &&& self.last_space <= upto
        &&& self.count <= upto
    }
}

/// The state after the first `upto` characters of `text`.
pub open spec fn scan(text: Seq<char>, width: nat, upto: nat) -> ScanState
    decreases upto,
{
    if upto == 0 {
        ScanState::start()
    } else {
        scan(text, width, (upto - 1) as nat).step((upto - 1) as nat, text[upto - 1], width)
    }
}

/// The lines that the first `upto` characters of `text` have ended.
pub open spec fn lines_ended(text: Seq<char>, width: nat, upto: nat) -> Seq<Seq<char>>
    decreases upto,
{
    if upto == 0 {
        Seq::empty()
    } else {
        let before = scan(text, width, (upto - 1) as nat);
        let lines = lines_ended(text, width, (upto - 1) as nat);
        if before.flushes(text[upto - 1], width) {
            lines.push(text.subrange(before.cursor as int, before.last_space as int + 1))
        } else {
            lines
        }
    }
}

/// The lines of `text` for a width of `width` shown characters: those that the
/// scan ended, then what is left behind the last of them.
pub open spec fn wrapped(text: Seq<char>, width: nat) -> Seq<Seq<char>> {
    lines_ended(text, width, text.len()).push(
        text.skip(scan(text, width, text.len()).cursor as int),
    )
}

/// Whether a marker is open behind the first `upto` characters of `text`: a
/// `<` opens one and the next `>` closes it.
pub open spec fn marker_open(text: Seq<char>, upto: nat) -> bool
    decreases upto,
{
    if upto == 0 {
        false
    } else {
        (marker_open(text, (upto - 1) as nat) || text[upto - 1] == '<') && text[upto - 1] != '>'
    }
}

/// Whether the character at index `at` is part of a marker.
pub open spec fn in_marker(text: Seq<char>, at: int) -> bool {
    marker_open(text, at as nat) || text[at] == '<'
}

/// Those of the first `upto` characters of `text` that are shown.
pub open spec fn visible_upto(text: Seq<char>, upto: nat) -> Seq<char>
    decreases upto,
{
    if upto == 0 {
        Seq::empty()
    } else if in_marker(text, upto - 1) {
        visible_upto(text, (upto - 1) as nat)
    } else {
        visible_upto(text, (upto - 1) as nat).push(text[upto - 1])
    }
}

/// The characters of `text` that are shown: those outside every marker.
pub open spec fn visible(text: Seq<char>) -> Seq<char> {
    visible_upto(text, text.len())
}

/// Text without markup: it holds no `<`.
pub open spec fn markup_free(text: Seq<char>) -> bool {
    forall|i: int| 0 <= i < text.len() ==> text[i] != '<'
}

/// The scan keeps its cursor behind no more than one place past the last
/// space, and none of its positions runs ahead of what was read.
pub proof fn lemma_scan_within(text: Seq<char>, width: nat, upto: nat)
    requires
        upto <= text.len(),
    ensures
        scan(text, width, upto).within(upto),
        scan(text, width, upto).open == marker_open(text, upto),
    decreases upto,
{
    if upto > 0 {
        lemma_scan_within(text, width, (upto - 1) as nat);
    }
}

/// The lines that were ended are the text in front of the cursor.
pub proof fn lemma_lines_ended_concat(text: Seq<char>, width: nat, upto: nat)
    requires
        upto <= text.len(),
    ensures
        lines_ended(text, width, upto).flatten() == text.take(
            scan(text, width, upto).cursor as int,
        ),
    decreases upto,
{
    broadcast use Seq::lemma_flatten_push;

    if upto == 0 {
        assert(text.take(0) =~= Seq::<char>::empty());
    } else {
        let before = scan(text, width, (upto - 1) as nat);
        lemma_scan_within(text, width, (upto - 1) as nat);
        lemma_lines_ended_concat(text, width, (upto - 1) as nat);
        if before.flushes(text[upto - 1], width) {
            assert(text.take(before.cursor as int) + text.subrange(
                before.cursor as int,
                before.last_space as int + 1,
            ) =~= text.take(before.last_space as int + 1));
        }
    }
}

/// The lines of a text, read back to back, are the text: wrapping neither
/// drops a character nor adds one.
pub proof fn lemma_wrapped_concat(text: Seq<char>, width: nat)
    ensures
        wrapped(text, width).flatten() == text,
{
    broadcast use Seq::lemma_flatten_push;

    let cursor = scan(text, width, text.len()).cursor as int;
    lemma_scan_within(text, width, text.len());
    lemma_lines_ended_concat(text, width, text.len());
    assert(text.take(cursor) + text.skip(cursor) =~= text);
}

/// Whether a space outside every marker stands at index `at` of `text`: a
/// place behind which a line can end.
pub open spec fn breakable(text: Seq<char>, at: int) -> bool {
    0 <= at < text.len() && text[at] == ' ' && !in_marker(text, at)
}

/// The last space of a scan is a place behind which a line can end, unless
/// it is still 0 as at the start.
pub proof fn lemma_last_space_is_breakable(text: Seq<char>, width: nat, upto: nat)
    requires
        upto <= text.len(),
    ensures
        scan(text, width, upto).last_space == 0 || breakable(
            text,
            scan(text, width, upto).last_space as int,
        ),
    decreases upto,
{
    if upto > 0 {
        lemma_last_space_is_breakable(text, width, (upto - 1) as nat);
        lemma_scan_within(text, width, (upto - 1) as nat);
    }
}

/// A line ends only behind a space outside every marker: each line that the
/// scan ends is empty or ends with such a space, unless no such space was
/// read before the width was reached; the line is then the first character
/// of the text.
pub proof fn lemma_lines_end_behind_spaces(text: Seq<char>, width: nat, upto: nat, k: int)
    requires
        upto <= text.len(),
        0 <= k < lines_ended(text, width, upto).len(),
    ensures
        ({
            let line = lines_ended(text, width, upto)[k];
            line.len() == 0 || line.last() == ' ' || line == text.take(1)
        }),
    decreases upto,
{
    if upto > 0 {
        let before = scan(text, width, (upto - 1) as nat);
        let lines = lines_ended(text, width, (upto - 1) as nat);
        if k < lines.len() {
            lemma_lines_ended_grow(text, width, upto, k);
            lemma_lines_end_behind_spaces(text, width, (upto - 1) as nat, k);
        } else {
            lemma_scan_within(text, width, (upto - 1) as nat);
            lemma_last_space_is_breakable(text, width, (upto - 1) as nat);
            let line = text.subrange(before.cursor as int, before.last_space as int + 1);
            assert(lines_ended(text, width, upto)[k] == line);
            if before.last_space == 0 && before.cursor == 0 {
                assert(line =~= text.take(1));
            }
        }
    }
}

proof fn lemma_lines_ended_grow(text: Seq<char>, width: nat, upto: nat, k: int)
    requires
        0 < upto <= text.len(),
        0 <= k < lines_ended(text, width, (upto - 1) as nat).len(),
    ensures
        lines_ended(text, width, upto)[k] == lines_ended(text, width, (upto - 1) as nat)[k],
{
}

/// All of a text without markup is shown.
pub proof fn lemma_visible_markup_free(text: Seq<char>, upto: nat)
    requires
        markup_free(text),
        upto <= text.len(),
    ensures
        !marker_open(text, upto),
        visible_upto(text, upto) == text.take(upto as int),
    decreases upto,
{
    if upto > 0 {
        lemma_visible_markup_free(text, (upto - 1) as nat);
        assert(text.take(upto - 1).push(text[upto - 1]) =~= text.take(upto as int));
    } else {
        assert(text.take(0) =~= Seq::<char>::empty());
    }
}

/// Wrapping changes nothing of what is shown: what is shown of the lines of a
/// text, read back to back, is what is shown of the text, and that is the
/// whole text where it holds no markup.
pub proof fn lemma_wrapped_visible(text: Seq<char>, width: nat)
    ensures
        visible(wrapped(text, width).flatten()) == visible(text),
        markup_free(text) ==> visible(wrapped(text, width).flatten()) == text,
{
    lemma_wrapped_concat(text, width);
    if markup_free(text) {
        lemma_visible_markup_free(text, text.len());
        assert(text.take(text.len() as int) =~= text);
    }
}

/// The state of a scan in machine integers.
pub struct LineScan {
    /// Index of the first character that no line holds yet.
    pub cursor: usize,
    /// Index of the last space seen outside a marker, 0 before the first.
    pub last_space_pos: usize,
    /// Characters outside markers that were counted since the last line ended.
    pub count: usize,
    /// Whether the scan is inside a marker.
    pub open: bool,
}

impl View for LineScan {
    type V = ScanState;

    open spec fn view(&self) -> ScanState {
        ScanState {
            cursor: self.cursor as nat,
            last_space: self.last_space_pos as nat,
            count: self.count as nat,
            open: self.open,
        }
    }
}

impl LineScan {
    /// A scan that has read nothing.
    pub fn new() -> (scan: LineScan)
        ensures
            scan@ == ScanState::start(),
    {
        LineScan { cursor: 0, last_space_pos: 0, count: 0, open: false }
    }

    /// Reads `c`, the character at index `at`. Where that ends a line, the
    /// result is the range of the line's characters.
    pub fn feed(&mut self, at: usize, c: char, width: usize) -> (line: Option<(usize, usize)>)
        requires
            old(self)@.within(at as nat),
            at < usize::MAX,
        ensures
            final(self)@ == old(self)@.step(at as nat, c, width as nat),
            final(self)@.within((at + 1) as nat),
            line == if old(self)@.flushes(c, width as nat) {
                Some((old(self).cursor, (old(self).last_space_pos + 1) as usize))
            } else {
                None
            },
    {
        let mut line: Option<(usize, usize)> = None;
        if c == '<' {
            self.open = true;
        }
        if !self.open {
            self.count = self.count + 1;
            if self.count > width {
                line = Some((self.cursor, self.last_space_pos + 1));
                self.cursor = self.last_space_pos + 1;
                self.count = at - self.last_space_pos;
            }
            if c == ' ' {
                self.last_space_pos = at;
            }
        }
        if c == '>' {
            self.open = false;
        }
        line
    }
}

/// Splits `text` into lines of at most `chars_per_string` shown characters,
/// where a space allows it.
///
/// The text is read once. Characters of a marker, from `<` to `>`, are not
/// counted. When a counted character is one more than the width allows, a line
/// ends behind the last space that was seen outside a marker, and the count
/// starts again at the distance from that space. What is left at the end is
/// the last line. The lines, read back to back, are `text`.
pub fn split_by_whitespace<'a>(text: &'a str, chars_per_string: usize) -> (lines: Vec<&'a str>)
    requires
        chars_per_string > 0,
    ensures
        views(lines@) == wrapped(text@, chars_per_string as nat),
        views(lines@).flatten() == text@,
{
    let chars = chars_of(text);
    let total = chars.len();
    let mut lines: Vec<&'a str> = Vec::new();
    let mut state = LineScan::new();
    let mut i: usize = 0;
    proof {
        assert(views(lines@) =~= lines_ended(text@, chars_per_string as nat, 0));
    }
    while i < total
        invariant
            chars@ == text@,
            total == chars.len(),
            i <= total,
            state@ == scan(text@, chars_per_string as nat, i as nat),
            state@.within(i as nat),
            views(lines@) == lines_ended(text@, chars_per_string as nat, i as nat),
        decreases total - i,
    {
        let ghost before = lines@;
        if let Some((from, to)) = state.feed(i, chars[i], chars_per_string) {
            let line = slice(text, from, to);
            lines.push(line);
            proof {
                assert(views(lines@) =~= views(before).push(line@));
            }
        }
        i = i + 1;
    }
    let ghost before = lines@;
    let rest = slice(text, state.cursor, total);
    lines.push(rest);
    proof {
        assert(rest@ =~= text@.skip(state.cursor as int));
        assert(views(lines@) =~= views(before).push(rest@));
        lemma_wrapped_concat(text@, chars_per_string as nat);
    }
    lines
}

} // verus!

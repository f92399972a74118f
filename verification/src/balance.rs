//! What holds of lines when they have been dealt with: when a line is
//! balanced, and how a span that is open at the end of a line goes on into
//! the next.

use vstd::prelude::*;
use crate::markup::{
    attribute_end, closer, lemma_attribute_end, opener_begins, opener_end, opener_word, tokens,
    tokens_from, Token,
};
use crate::rebalance::{
    carry_into, closer_count, closing_run, fix_line, open_stack, opener_count, rebalanced,
};
use crate::text::{is_white_space, occurs_at};

verus! {

/// Whether a line has as many opening markers as closing ones.
pub open spec fn balanced(line: Seq<char>) -> bool {
    opener_count(tokens(line)) == closer_count(tokens(line))
}

/// `n` closing markers.
pub open spec fn close_tokens(n: nat) -> Seq<Token> {
    Seq::new(n, |i: int| Token::Close)
}

/// Whether no `>` and no line feed stands in `s` from `from` on.
pub open spec fn attribute_runs_out(s: Seq<char>, from: int) -> bool
    decreases s.len() - from,
{
    from >= s.len() || (from >= 0 && s[from] != '>' && s[from] != '\n' && attribute_runs_out(
        s,
        from + 1,
    ))
}

/// Whether an opening marker begins at `at` and `s` ends before it does.
pub open spec fn opener_pending(s: Seq<char>, at: int) -> bool {
    &&& occurs_at(s, opener_word(), at)
    &&& at + 6 < s.len()
    &&& is_white_space(s[at + 6])
    &&& at + 7 >= s.len() || (s[at + 7] != '\n' && attribute_runs_out(s, at + 8))
}

/// Whether reading `s` from `at` on ends inside an opening marker.
pub open spec fn ends_pending_from(s: Seq<char>, at: int) -> bool
    decreases s.len() - at,
    via ends_pending_from_decreases
{
    if at < 0 || at >= s.len() {
        false
    } else if let Some(end) = opener_end(s, at) {
        ends_pending_from(s, end)
    } else if opener_pending(s, at) {
        true
    } else if occurs_at(s, closer(), at) {
        ends_pending_from(s, at + 8)
    } else {
        ends_pending_from(s, at + 1)
    }
}

#[via_fn]
proof fn ends_pending_from_decreases(s: Seq<char>, at: int) {
    if 0 <= at < s.len() {
        if opener_end(s, at) is Some {
            lemma_attribute_end(s, at + 8);
        }
    }
}

/// Whether reading `s` ends inside an opening marker: text put behind `s`
/// could then end that marker.
pub open spec fn ends_pending(s: Seq<char>) -> bool {
    ends_pending_from(s, 0)
}

/// Whether `line`, with `carry` in front of it, is one that closing markers at
/// its end can balance: it has no more closing markers than opening ones, and
/// where it has fewer it does not end inside an opening marker.
pub open spec fn can_balance(carry: Seq<char>, line: Seq<char>) -> bool {
    let full = carry + line;
    &&& opener_count(tokens(full)) >= closer_count(tokens(full))
    &&& opener_count(tokens(full)) > closer_count(tokens(full)) ==> !ends_pending(full)
}

/// Whether no closing marker of `tokens` comes where nothing is open.
pub open spec fn well_nested(tokens: Seq<Token>) -> bool {
    forall|n: int|
        0 <= n <= tokens.len() ==> closer_count(#[trigger] tokens.take(n)) <= opener_count(
            tokens.take(n),
        )
}

/// Each of `stack` as an opening marker.
pub open spec fn open_tokens(stack: Seq<Seq<char>>) -> Seq<Token> {
    stack.map_values(|text: Seq<char>| Token::Open(text))
}

/// Whether `text` is one opening marker and nothing else.
pub open spec fn is_opener(text: Seq<char>) -> bool {
    opener_end(text, 0) == Some(text.len() as int)
}

proof fn lemma_closing_run(n: nat)
    ensures
        closing_run(n).len() == 8 * n,
        n > 0 ==> closing_run(n) == closer() + closing_run((n - 1) as nat),
        n > 0 ==> closing_run(n)[0] == '<',
    decreases n,
{
    if n > 0 {
        lemma_closing_run((n - 1) as nat);
        if n > 1 {
            assert(closing_run(n) =~= closer() + closing_run((n - 1) as nat)) by {
                assert(closing_run((n - 1) as nat) == closer() + closing_run((n - 2) as nat));
                assert(closing_run((n - 1) as nat) == closing_run((n - 2) as nat) + closer());
                assert((closer() + closing_run((n - 2) as nat)) + closer() =~= closer() + (
                closing_run((n - 2) as nat) + closer()));
            }
        } else {
            assert(closing_run(0) =~= Seq::<char>::empty());
            assert(closing_run(1) =~= closer());
            assert(closing_run(n) =~= closer() + closing_run((n - 1) as nat));
        }
    }
}

proof fn lemma_counts_concat(a: Seq<Token>, b: Seq<Token>)
    ensures
        opener_count(a + b) == opener_count(a) + opener_count(b),
        closer_count(a + b) == closer_count(a) + closer_count(b),
    decreases b.len(),
{
    if b.len() == 0 {
        assert(a + b =~= a);
    } else {
        lemma_counts_concat(a, b.drop_last());
        assert((a + b).drop_last() =~= a + b.drop_last());
        assert((a + b).last() == b.last());
    }
}

proof fn lemma_counts_of_one(token: Token)
    ensures
        opener_count(seq![token]) == if token is Open {
            1nat
        } else {
            0nat
        },
        closer_count(seq![token]) == if token is Close {
            1nat
        } else {
            0nat
        },
{
    let one = seq![token];
    assert(one.drop_last() =~= Seq::<Token>::empty());
    assert(one.last() == token);
    assert(opener_count(one.drop_last()) == 0);
    assert(closer_count(one.drop_last()) == 0);
}

proof fn lemma_close_tokens_counts(n: nat)
    ensures
        opener_count(close_tokens(n)) == 0,
        closer_count(close_tokens(n)) == n,
    decreases n,
{
    if n > 0 {
        lemma_close_tokens_counts((n - 1) as nat);
        assert(close_tokens(n).drop_last() =~= close_tokens((n - 1) as nat));
    }
}

proof fn lemma_word_append_whole(s: Seq<char>, t: Seq<char>, word: Seq<char>, at: int)
    requires
        occurs_at(s, word, at),
    ensures
        occurs_at(s + t, word, at),
{
    assert((s + t).subrange(at, at + word.len()) =~= s.subrange(at, at + word.len()));
}

proof fn lemma_word_append(s: Seq<char>, t: Seq<char>, word: Seq<char>, at: int)
    requires
        0 <= at < s.len(),
        t.len() == 0 || t[0] == '<',
        word.len() > 0,
        forall|i: int| 1 <= i < word.len() ==> word[i] != '<',
    ensures
        occurs_at(s + t, word, at) == occurs_at(s, word, at),
{
    if at + word.len() <= s.len() {
        assert((s + t).subrange(at, at + word.len()) =~= s.subrange(at, at + word.len()));
    } else if t.len() == 0 {
        assert(s + t =~= s);
    } else if at + word.len() <= (s + t).len() {
        let part = (s + t).subrange(at, at + word.len());
        let i = s.len() - at;
        assert(part[i] == (s + t)[s.len() as int]);
        assert((s + t)[s.len() as int] == t[0]);
    }
}

proof fn lemma_attribute_end_append(s: Seq<char>, t: Seq<char>, from: int)
    requires
        0 <= from,
    ensures
        attribute_end(s, from) is Some ==> attribute_end(s + t, from) == attribute_end(s, from),
        attribute_end(s, from) is None && !attribute_runs_out(s, from) ==> attribute_end(
            s + t,
            from,
        ) is None,
    decreases s.len() - from,
{
    if from < s.len() {
        assert((s + t)[from] == s[from]);
        if s[from] != '>' && s[from] != '\n' {
            lemma_attribute_end_append(s, t, from + 1);
        }
    }
}

proof fn lemma_attribute_runs_into(s: Seq<char>, t: Seq<char>, from: int)
    requires
        0 <= from <= s.len(),
        attribute_runs_out(s, from),
    ensures
        attribute_end(s + t, from) == attribute_end(s + t, s.len() as int),
    decreases s.len() - from,
{
    if from < s.len() {
        assert((s + t)[from] == s[from]);
        lemma_attribute_runs_into(s, t, from + 1);
    }
}

proof fn lemma_runs_out_holds(s: Seq<char>, from: int, at: int)
    requires
        0 <= from <= at < s.len(),
        attribute_runs_out(s, from),
    ensures
        s[at] != '>',
        s[at] != '\n',
    decreases at - from,
{
    if from < at {
        lemma_runs_out_holds(s, from + 1, at);
    }
}

proof fn lemma_runs_out_never_ends(s: Seq<char>, from: int)
    requires
        0 <= from,
        attribute_runs_out(s, from),
    ensures
        attribute_end(s, from) is None,
    decreases s.len() - from,
{
    if from < s.len() {
        lemma_runs_out_never_ends(s, from + 1);
    }
}

proof fn lemma_opener_end_append(s: Seq<char>, t: Seq<char>, at: int)
    requires
        0 <= at < s.len(),
        t.len() == 0 || t[0] == '<',
        opener_end(s, at) is None ==> !opener_pending(s, at),
    ensures
        opener_end(s + t, at) == opener_end(s, at),
{
    lemma_word_append(s, t, opener_word(), at);
    if t.len() == 0 {
        assert(s + t =~= s);
    } else if occurs_at(s, opener_word(), at) {
        if at + 7 < s.len() {
            assert((s + t)[at + 6] == s[at + 6]);
            assert((s + t)[at + 7] == s[at + 7]);
            if opener_begins(s, at) {
                lemma_attribute_end_append(s, t, at + 8);
            }
        } else if at + 6 < s.len() {
            assert((s + t)[at + 6] == s[at + 6]);
        } else {
            assert((s + t)[at + 6] == t[0]);
        }
    }
}

proof fn lemma_tokens_append(s: Seq<char>, t: Seq<char>, at: int)
    requires
        0 <= at <= s.len(),
        t.len() == 0 || t[0] == '<',
        !ends_pending_from(s, at),
    ensures
        tokens_from(s + t, at) == tokens_from(s, at) + tokens_from(s + t, s.len() as int),
    decreases s.len() - at,
{
    if at == s.len() {
        assert(tokens_from(s, at) =~= Seq::<Token>::empty());
        assert(tokens_from(s, at) + tokens_from(s + t, at) =~= tokens_from(s + t, at));
    } else {
        let behind = tokens_from(s + t, s.len() as int);
        if let Some(end) = opener_end(s, at) {
            lemma_attribute_end(s, at + 8);
            lemma_opener_end_append(s, t, at);
            lemma_tokens_append(s, t, end);
            assert((s + t).subrange(at, end) =~= s.subrange(at, end));
            assert((seq![Token::Open(s.subrange(at, end))] + tokens_from(s, end)) + behind =~= seq![
                Token::Open(s.subrange(at, end)),
            ] + (tokens_from(s, end) + behind));
        } else {
            lemma_opener_end_append(s, t, at);
            lemma_word_append(s, t, closer(), at);
            if occurs_at(s, closer(), at) {
                lemma_tokens_append(s, t, at + 8);
                assert((seq![Token::Close] + tokens_from(s, at + 8)) + behind =~= seq![
                    Token::Close,
                ] + (tokens_from(s, at + 8) + behind));
            } else {
                lemma_tokens_append(s, t, at + 1);
            }
        }
    }
}

proof fn lemma_closer_read(s: Seq<char>, at: int)
    requires
        occurs_at(s, closer(), at),
    ensures
        tokens_from(s, at) == seq![Token::Close] + tokens_from(s, at + 8),
{
    let part = s.subrange(at, at + 8);
    assert(part[1] == s[at + 1]);
    assert(closer()[1] == '/');
    if occurs_at(s, opener_word(), at) {
        let word = s.subrange(at, at + 6);
        assert(word[1] == s[at + 1]);
        assert(opener_word()[1] == 't');
    }
}

proof fn lemma_tokens_of_closing_run(s: Seq<char>, n: nat)
    ensures
        tokens_from(s + closing_run(n), s.len() as int) == close_tokens(n),
    decreases n,
{
    let all = s + closing_run(n);
    let at = s.len() as int;
    lemma_closing_run(n);
    if n == 0 {
        assert(tokens_from(all, at) =~= close_tokens(0));
    } else {
        let rest = closing_run((n - 1) as nat);
        assert(all =~= (s + closer()) + rest);
        assert(all.subrange(at, at + 8) =~= closer());
        lemma_closer_read(all, at);
        lemma_tokens_of_closing_run(s + closer(), (n - 1) as nat);
        assert(seq![Token::Close] + close_tokens((n - 1) as nat) =~= close_tokens(n));
    }
}

proof fn lemma_no_marker_behind(s: Seq<char>, bound: int, at: int)
    requires
        0 <= at,
        bound <= at + 7,
        attribute_runs_out(s, bound) || bound >= s.len(),
    ensures
        tokens_from(s, at) == Seq::<Token>::empty(),
    decreases s.len() - at,
{
    if at < s.len() {
        if occurs_at(s, closer(), at) {
            assert(s.subrange(at, at + 8)[7] == s[at + 7]);
            assert(closer()[7] == '>');
            lemma_runs_out_holds(s, bound, at + 7);
        }
        if let Some(end) = opener_end(s, at) {
            lemma_attribute_end(s, at + 8);
            lemma_runs_out_holds(s, bound, end - 1);
        }
        lemma_no_marker_behind(s, bound, at + 1);
    }
}

proof fn lemma_pending_opener_closes(s: Seq<char>, n: nat, at: int)
    requires
        0 <= at,
        n > 0,
        opener_pending(s, at),
    ensures
        opener_end(s + closing_run(n), at) == Some(s.len() as int + 8),
        tokens_from(s, at) == Seq::<Token>::empty(),
{
    let t = closing_run(n);
    let all = s + t;
    lemma_closing_run(n);
    assert(t =~= closer() + closing_run((n - 1) as nat));
    assert forall|k: int| 0 <= k < 8 implies all[s.len() + k] == closer()[k] by {
        assert(all[s.len() + k] == t[k]);
    }
    lemma_word_append_whole(s, t, opener_word(), at);
    assert(all[at + 6] == s[at + 6]);
    let end = s.len() as int;
    assert(attribute_end(all, end) == Some(end + 8)) by {
        assert(all[end] == '<');
        assert(all[end + 1] == '/');
        assert(all[end + 2] == 't');
        assert(all[end + 3] == 's');
        assert(all[end + 4] == 'p');
        assert(all[end + 5] == 'a');
        assert(all[end + 6] == 'n');
        assert(all[end + 7] == '>');
        reveal_with_fuel(attribute_end, 9);
    }
    if at + 7 >= s.len() {
        assert(all[at + 7] == '<');
        assert(attribute_end(all, at + 8) == Some(end + 8)) by {
            assert(all[end + 1] == '/');
            assert(all[end + 2] == 't');
            assert(all[end + 3] == 's');
            assert(all[end + 4] == 'p');
            assert(all[end + 5] == 'a');
            assert(all[end + 6] == 'n');
            assert(all[end + 7] == '>');
            reveal_with_fuel(attribute_end, 8);
        }
        assert(opener_end(s, at) is None);
        lemma_no_marker_behind(s, at + 8, at + 1);
    } else {
        assert(all[at + 7] == s[at + 7]);
        lemma_attribute_runs_into(s, t, at + 8);
        lemma_runs_out_never_ends(s, at + 8);
        lemma_no_marker_behind(s, at + 8, at + 1);
    }
    if occurs_at(s, closer(), at) {
        assert(s.subrange(at, at + 8)[1] == s[at + 1]);
        assert(s.subrange(at, at + 6)[1] == s[at + 1]);
        assert(closer()[1] == '/');
        assert(opener_word()[1] == 't');
    }
}

proof fn lemma_tokens_of_pending(s: Seq<char>, n: nat, at: int)
    requires
        0 <= at <= s.len(),
        n > 0,
        ends_pending_from(s, at),
    ensures
        opener_count(tokens_from(s + closing_run(n), at)) == opener_count(tokens_from(s, at)) + 1,
        closer_count(tokens_from(s + closing_run(n), at)) == closer_count(tokens_from(s, at)) + n
            - 1,
    decreases s.len() - at,
{
    let t = closing_run(n);
    let all = s + t;
    lemma_closing_run(n);
    if let Some(end) = opener_end(s, at) {
        lemma_attribute_end(s, at + 8);
        lemma_opener_end_append(s, t, at);
        lemma_tokens_of_pending(s, n, end);
        lemma_counts_concat(seq![Token::Open(s.subrange(at, end))], tokens_from(s, end));
        lemma_counts_concat(seq![Token::Open(all.subrange(at, end))], tokens_from(all, end));
        lemma_counts_of_one(Token::Open(s.subrange(at, end)));
        lemma_counts_of_one(Token::Open(all.subrange(at, end)));
    } else if opener_pending(s, at) {
        lemma_pending_opener_closes(s, n, at);
        let end = s.len() as int + 8;
        assert(all =~= (s + closer()) + closing_run((n - 1) as nat));
        lemma_tokens_of_closing_run(s + closer(), (n - 1) as nat);
        lemma_close_tokens_counts((n - 1) as nat);
        lemma_counts_concat(seq![Token::Open(all.subrange(at, end))], close_tokens((n - 1) as nat));
        lemma_counts_of_one(Token::Open(all.subrange(at, end)));
    } else {
        lemma_opener_end_append(s, t, at);
        lemma_word_append(s, t, closer(), at);
        if occurs_at(s, closer(), at) {
            lemma_tokens_of_pending(s, n, at + 8);
            lemma_counts_concat(seq![Token::Close], tokens_from(s, at + 8));
            lemma_counts_concat(seq![Token::Close], tokens_from(all, at + 8));
            lemma_counts_of_one(Token::Close);
        } else {
            lemma_tokens_of_pending(s, n, at + 1);
        }
    }
}

/// Closing markers put behind a line that does not end inside an opening
/// marker are read as such, and change no marker of the line.
pub proof fn lemma_tokens_with_closing_run(s: Seq<char>, n: nat)
    requires
        !ends_pending(s),
    ensures
        tokens(s + closing_run(n)) == tokens(s) + close_tokens(n),
{
    lemma_closing_run(n);
    lemma_tokens_append(s, closing_run(n), 0);
    lemma_tokens_of_closing_run(s, n);
}

/// A line that closing markers can balance is balanced when it has been dealt
/// with.
pub proof fn lemma_fix_line_balanced(carry: Seq<char>, line: Seq<char>)
    requires
        can_balance(carry, line),
    ensures
        balanced(fix_line(carry, line).line),
{
    let full = carry + line;
    let opened = opener_count(tokens(full));
    let closed = closer_count(tokens(full));
    if opened > closed {
        let n = (opened - closed) as nat;
        lemma_tokens_with_closing_run(full, n);
        lemma_counts_concat(tokens(full), close_tokens(n));
        lemma_close_tokens_counts(n);
    }
}

/// A line that closing markers cannot balance is not balanced when it has
/// been dealt with: either it has more closing markers than opening ones and
/// is left as it is, or the first closing marker that is put behind it ends
/// the opening marker inside which the line ended.
pub proof fn lemma_fix_line_unbalanced(carry: Seq<char>, line: Seq<char>)
    requires
        !can_balance(carry, line),
    ensures
        !balanced(fix_line(carry, line).line),
{
    let full = carry + line;
    let opened = opener_count(tokens(full));
    let closed = closer_count(tokens(full));
    if opened > closed {
        lemma_tokens_of_pending(full, (opened - closed) as nat, 0);
    }
}

/// Line `i` of the lines that have been dealt with has as many opening
/// markers as closing ones exactly when closing markers can balance it, with
/// what the lines before it carried on in front of it.
pub proof fn lemma_rebalanced_balanced(lines: Seq<Seq<char>>, i: int)
    requires
        0 <= i < lines.len(),
    ensures
        balanced(rebalanced(lines)[i]) <==> can_balance(carry_into(lines, i as nat), lines[i]),
{
    if can_balance(carry_into(lines, i as nat), lines[i]) {
        lemma_fix_line_balanced(carry_into(lines, i as nat), lines[i]);
    } else {
        lemma_fix_line_unbalanced(carry_into(lines, i as nat), lines[i]);
    }
}

/// Where closing markers can balance every line, with what the lines before
/// it carried on in front of it, every line has as many opening markers as
/// closing ones when the lines have been dealt with.
pub proof fn lemma_all_balanced(lines: Seq<Seq<char>>)
    requires
        forall|i: int|
            0 <= i < lines.len() ==> can_balance(carry_into(lines, i as nat), #[trigger] lines[i]),
    ensures
        forall|i: int| 0 <= i < lines.len() ==> balanced(#[trigger] rebalanced(lines)[i]),
{
    assert forall|i: int| 0 <= i < lines.len() implies balanced(
        #[trigger] rebalanced(lines)[i],
    ) by {
        assert(can_balance(carry_into(lines, i as nat), lines[i]));
        lemma_rebalanced_balanced(lines, i);
    }
}

proof fn lemma_open_stack_of_well_nested(tokens: Seq<Token>)
    requires
        well_nested(tokens),
    ensures
        open_stack(tokens).len() == opener_count(tokens) - closer_count(tokens),
    decreases tokens.len(),
{
    if tokens.len() > 0 {
        let before = tokens.drop_last();
        assert forall|n: int| 0 <= n <= before.len() implies closer_count(
            #[trigger] before.take(n),
        ) <= opener_count(before.take(n)) by {
            assert(before.take(n) =~= tokens.take(n));
        }
        lemma_open_stack_of_well_nested(before);
        assert(tokens.take(tokens.len() as int) =~= tokens);
    }
}

proof fn lemma_open_stack_closed(tokens: Seq<Token>, n: nat)
    requires
        n <= open_stack(tokens).len(),
    ensures
        open_stack(tokens + close_tokens(n)) == open_stack(tokens).take(
            open_stack(tokens).len() - n,
        ),
    decreases n,
{
    let stack = open_stack(tokens);
    if n == 0 {
        assert(tokens + close_tokens(0) =~= tokens);
        assert(stack.take(stack.len() as int) =~= stack);
    } else {
        let all = tokens + close_tokens(n);
        lemma_open_stack_closed(tokens, (n - 1) as nat);
        assert(all.drop_last() =~= tokens + close_tokens((n - 1) as nat));
        assert(all.last() == Token::Close);
        assert(stack.take(stack.len() - (n - 1)).drop_last() =~= stack.take(stack.len() - n));
    }
}

proof fn lemma_attribute_end_within(s: Seq<char>, from: int, end: int)
    requires
        0 <= from,
        attribute_end(s, from) == Some(end),
    ensures
        attribute_end(s.take(end), from) == Some(end),
    decreases s.len() - from,
{
    lemma_attribute_end(s, from);
    assert(s.take(end)[from] == s[from]);
    if s[from] != '>' {
        lemma_attribute_end_within(s, from + 1, end);
    }
}

proof fn lemma_attribute_end_shift(a: Seq<char>, b: Seq<char>, from: int)
    requires
        0 <= from,
    ensures
        attribute_end(a + b, a.len() + from) == match attribute_end(b, from) {
            Some(end) => Some(a.len() + end),
            None => None,
        },
    decreases b.len() - from,
{
    if from < b.len() {
        assert((a + b)[a.len() + from] == b[from]);
        if b[from] != '>' && b[from] != '\n' {
            lemma_attribute_end_shift(a, b, from + 1);
        }
    }
}

proof fn lemma_occurs_shift(a: Seq<char>, b: Seq<char>, word: Seq<char>, at: int)
    requires
        0 <= at,
    ensures
        occurs_at(a + b, word, a.len() + at) == occurs_at(b, word, at),
{
    if at + word.len() <= b.len() {
        assert((a + b).subrange(a.len() + at, a.len() + at + word.len()) =~= b.subrange(
            at,
            at + word.len(),
        ));
    }
}

proof fn lemma_opener_end_shift(a: Seq<char>, b: Seq<char>, at: int)
    requires
        0 <= at,
    ensures
        opener_end(a + b, a.len() + at) == match opener_end(b, at) {
            Some(end) => Some(a.len() + end),
            None => None,
        },
{
    lemma_occurs_shift(a, b, opener_word(), at);
    if at + 7 < b.len() {
        assert((a + b)[a.len() + at + 6] == b[at + 6]);
        assert((a + b)[a.len() + at + 7] == b[at + 7]);
        lemma_attribute_end_shift(a, b, at + 8);
    }
}

proof fn lemma_tokens_shift(a: Seq<char>, b: Seq<char>, at: int)
    requires
        0 <= at,
    ensures
        tokens_from(a + b, a.len() + at) == tokens_from(b, at),
    decreases b.len() - at,
{
    if at < b.len() {
        lemma_opener_end_shift(a, b, at);
        lemma_occurs_shift(a, b, closer(), at);
        if let Some(end) = opener_end(b, at) {
            lemma_attribute_end(b, at + 8);
            lemma_tokens_shift(a, b, end);
            assert((a + b).subrange(a.len() + at, a.len() + end) =~= b.subrange(at, end));
        } else if occurs_at(b, closer(), at) {
            lemma_tokens_shift(a, b, at + 8);
        } else {
            lemma_tokens_shift(a, b, at + 1);
        }
    }
}

/// An opening marker is read as itself whatever stands behind it.
pub proof fn lemma_opener_then(text: Seq<char>, behind: Seq<char>)
    requires
        is_opener(text),
    ensures
        tokens(text + behind) == seq![Token::Open(text)] + tokens(behind),
{
    let all = text + behind;
    lemma_attribute_end(text, 8);
    lemma_word_append_whole(text, behind, opener_word(), 0);
    assert(all[6] == text[6]);
    assert(all[7] == text[7]);
    lemma_attribute_end_append(text, behind, 8);
    assert(opener_end(all, 0) == Some(text.len() as int));
    assert(all.subrange(0, text.len() as int) =~= text);
    lemma_tokens_shift(text, behind, 0);
}

proof fn lemma_open_tokens_are_openers(s: Seq<char>, at: int, i: int)
    requires
        0 <= at,
        0 <= i < tokens_from(s, at).len(),
    ensures
        tokens_from(s, at)[i] matches Token::Open(text) ==> is_opener(text),
    decreases s.len() - at,
{
    if at < s.len() {
        if let Some(end) = opener_end(s, at) {
            lemma_attribute_end(s, at + 8);
            if i == 0 {
                let text = s.subrange(at, end);
                assert(text =~= s.take(end).skip(at));
                lemma_attribute_end_within(s, at + 8, end);
                let head = s.take(at);
                assert(head + text =~= s.take(end));
                assert(s.take(end).subrange(at, at + 6) =~= s.subrange(at, at + 6));
                assert(s.take(end)[at + 6] == s[at + 6]);
                assert(s.take(end)[at + 7] == s[at + 7]);
                assert(opener_end(s.take(end), at) == Some(end));
                lemma_opener_end_shift(head, text, 0);
            } else {
                lemma_open_tokens_are_openers(s, end, i - 1);
            }
        } else if occurs_at(s, closer(), at) {
            if i > 0 {
                lemma_open_tokens_are_openers(s, at + 8, i - 1);
            }
        } else {
            lemma_open_tokens_are_openers(s, at + 1, i);
        }
    }
}

proof fn lemma_stack_holds_openers(tokens: Seq<Token>)
    requires
        forall|i: int|
            0 <= i < tokens.len() ==> ((#[trigger] tokens[i]) matches Token::Open(text)
                ==> is_opener(text)),
    ensures
        forall|k: int|
            0 <= k < open_stack(tokens).len() ==> is_opener(#[trigger] open_stack(tokens)[k]),
    decreases tokens.len(),
{
    if tokens.len() > 0 {
        let before = tokens.drop_last();
        assert forall|i: int| 0 <= i < before.len() implies ((#[trigger] before[i]) matches Token::Open(
            text,
        ) ==> is_opener(text)) by {
            assert(before[i] == tokens[i]);
        }
        lemma_stack_holds_openers(before);
        let last = tokens[tokens.len() - 1];
        assert(tokens.last() == last);
        let stack = open_stack(tokens);
        let under = open_stack(before);
        assert forall|k: int| 0 <= k < stack.len() implies is_opener(#[trigger] stack[k]) by {
            match last {
                Token::Open(text) => {
                    if k < under.len() {
                        assert(stack[k] == under[k]);
                    } else {
                        assert(stack[k] == text);
                    }
                },
                Token::Close => {
                    assert(stack[k] == under[k]);
                },
            }
        }
    }
}

proof fn lemma_openers_then(stack: Seq<Seq<char>>, behind: Seq<char>)
    requires
        forall|k: int| 0 <= k < stack.len() ==> is_opener(#[trigger] stack[k]),
    ensures
        tokens(stack.flatten() + behind) == open_tokens(stack) + tokens(behind),
    decreases stack.len(),
{
    if stack.len() == 0 {
        assert(stack.flatten() + behind =~= behind);
        assert(open_tokens(stack) + tokens(behind) =~= tokens(behind));
    } else {
        let rest = stack.drop_first();
        assert forall|k: int| 0 <= k < rest.len() implies is_opener(#[trigger] rest[k]) by {
            assert(rest[k] == stack[k + 1]);
        }
        lemma_openers_then(rest, behind);
        lemma_opener_then(stack.first(), rest.flatten() + behind);
        assert(stack.flatten() + behind =~= stack.first() + (rest.flatten() + behind));
        assert(seq![Token::Open(stack.first())] + (open_tokens(rest) + tokens(behind))
            =~= open_tokens(stack) + tokens(behind));
    }
}

/// A span that is open at the end of a line is closed there and opened again
/// at the head of the next line, by the very marker that opened it: where the
/// markers of a line, with what was carried on in front of it, are well
/// nested and it does not end inside an opening marker, the line leaves
/// nothing open when it has been dealt with, and the next line begins with
/// the markers that were open, outermost first, whatever it holds itself.
pub proof fn lemma_open_spans_cross_the_line(carry: Seq<char>, line: Seq<char>, next: Seq<char>)
    requires
        well_nested(tokens(carry + line)),
        !ends_pending(carry + line),
    ensures
        open_stack(tokens(fix_line(carry, line).line)).len() == 0,
        fix_line(carry, line).carry == open_stack(tokens(carry + line)).flatten(),
        tokens(fix_line(carry, line).carry + next) == open_tokens(
            open_stack(tokens(carry + line)),
        ) + tokens(next),
{
    let full = carry + line;
    let all = tokens(full);
    let stack = open_stack(all);
    let opened = opener_count(all);
    let closed = closer_count(all);
    lemma_open_stack_of_well_nested(all);
    if opened > closed {
        let n = (opened - closed) as nat;
        lemma_tokens_with_closing_run(full, n);
        lemma_open_stack_closed(all, n);
        assert(stack.skip(0) =~= stack);
    } else {
        assert(stack =~= Seq::<Seq<char>>::empty());
    }
    assert forall|i: int| 0 <= i < all.len() implies ((#[trigger] all[i]) matches Token::Open(text)
        ==> is_opener(text)) by {
        lemma_open_tokens_are_openers(full, 0, i);
    }
    lemma_stack_holds_openers(all);
    lemma_openers_then(stack, next);
}

} // verus!

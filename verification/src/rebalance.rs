//! Closing at the end of each line the spans that it leaves open, and opening
//! them again at the head of the next, so that every line can be shown alone.

use vstd::prelude::*;
use vstd::seq_lib::*;
use vstd::string::*;
use crate::markup::{closer, read_tokens, span_texts, span_tokens, tokens, Span, Token};
use crate::text::{chars_of, owned_views, slice};

verus! {

/// How many of `tokens` are opening markers.
pub open spec fn opener_count(tokens: Seq<Token>) -> nat
    decreases tokens.len(),
{
    if tokens.len() == 0 {
        0
    } else {
        opener_count(tokens.drop_last()) + if tokens.last() is Open {
            1nat
        } else {
            0nat
        }
    }
}

/// How many of `tokens` are closing markers.
pub open spec fn closer_count(tokens: Seq<Token>) -> nat
    decreases tokens.len(),
{
    if tokens.len() == 0 {
        0
    } else {
        closer_count(tokens.drop_last()) + if tokens.last() is Close {
            1nat
        } else {
            0nat
        }
    }
}

/// The opening markers that are still open behind `tokens`, outermost first.
/// A closing marker closes the innermost; one that finds nothing open closes
/// nothing.
pub open spec fn open_stack(tokens: Seq<Token>) -> Seq<Seq<char>>
    decreases tokens.len(),
{
    if tokens.len() == 0 {
        Seq::empty()
    } else {
        let before = open_stack(tokens.drop_last());
        match tokens.last() {
            Token::Open(text) => before.push(text),
            Token::Close => if before.len() > 0 {
                before.drop_last()
            } else {
                before
            },
        }
    }
}

/// No more markers are still open than were opened, and no fewer than were
/// opened and not closed.
pub proof fn lemma_open_stack_len(tokens: Seq<Token>)
    ensures
        opener_count(tokens) - closer_count(tokens) <= open_stack(tokens).len() <= opener_count(
            tokens,
        ),
    decreases tokens.len(),
{
    if tokens.len() > 0 {
        lemma_open_stack_len(tokens.drop_last());
    }
}

/// The closing marker `n` times over.
pub open spec fn closing_run(n: nat) -> Seq<char>
    decreases n,
{
    if n == 0 {
        Seq::empty()
    } else {
        closing_run((n - 1) as nat) + closer()
    }
}

/// A line when it has been dealt with.
pub struct Fixed {
    /// The line as it is shown.
    pub line: Seq<char>,
    /// The opening markers to put in front of the next line.
    pub carry: Seq<char>,
}

/// Deals with `line`, in front of which `carry` is put. Where the result has
/// more opening markers than closing ones, by `n`, the closing marker comes
/// `n` times behind it, and the innermost `n` markers that are still open are
/// carried on, outermost first. Else the result is left as it is and nothing
/// is carried on.
pub open spec fn fix_line(carry: Seq<char>, line: Seq<char>) -> Fixed {
    let full = carry + line;
    let opened = opener_count(tokens(full));
    let closed = closer_count(tokens(full));
    if opened > closed {
        let n = (opened - closed) as nat;
        let stack = open_stack(tokens(full));
        Fixed { line: full + closing_run(n), carry: stack.skip(stack.len() - n).flatten() }
    } else {
        Fixed { line: full, carry: Seq::empty() }
    }
}

/// What is put in front of line `i` of `lines`.
pub open spec fn carry_into(lines: Seq<Seq<char>>, i: nat) -> Seq<char>
    decreases i,
{
    if i == 0 {
        Seq::empty()
    } else {
        fix_line(carry_into(lines, (i - 1) as nat), lines[i - 1]).carry
    }
}

/// The lines of `lines` when each has been dealt with in turn.
pub open spec fn rebalanced(lines: Seq<Seq<char>>) -> Seq<Seq<char>> {
    Seq::new(lines.len(), |i: int| fix_line(carry_into(lines, i as nat), lines[i]).line)
}

/// Those of `spans` that open a span which is still open behind them,
/// outermost first.
pub open spec fn open_spans(spans: Seq<Span>) -> Seq<Span>
    decreases spans.len(),
{
    if spans.len() == 0 {
        Seq::empty()
    } else {
        let before = open_spans(spans.drop_last());
        if spans.last().open {
            before.push(spans.last())
        } else if before.len() > 0 {
            before.drop_last()
        } else {
            before
        }
    }
}

/// What a line's markers open and close.
pub struct Balance {
    /// How many opening markers the line has.
    pub opened: usize,
    /// How many closing markers the line has.
    pub closed: usize,
    /// The opening markers that are still open at the end, outermost first.
    pub stack: Vec<Span>,
}

/// Counts the markers of a line and finds those that it leaves open.
pub fn weigh(chars: &Vec<char>, spans: &Vec<Span>) -> (balance: Balance)
    requires
        forall|i: int| 0 <= i < spans.len() ==> (#[trigger] spans[i]).within(chars@),
    ensures
        balance.opened == opener_count(span_tokens(chars@, spans@)),
        balance.closed == closer_count(span_tokens(chars@, spans@)),
        balance.stack@ == open_spans(spans@),
        span_texts(chars@, balance.stack@) == open_stack(span_tokens(chars@, spans@)),
        forall|i: int|
            0 <= i < balance.stack.len() ==> (#[trigger] balance.stack[i]).within(chars@),
        balance.stack.len() + balance.closed >= balance.opened,
{
    let ghost all = span_tokens(chars@, spans@);
    let mut opened: usize = 0;
    let mut closed: usize = 0;
    let mut stack: Vec<Span> = Vec::new();
    let mut i: usize = 0;
    proof {
        assert(all.take(0) =~= Seq::<Token>::empty());
        assert(spans@.take(0) =~= Seq::<Span>::empty());
        assert(span_texts(chars@, stack@) =~= Seq::<Seq<char>>::empty());
    }
    while i < spans.len()
        invariant
            i <= spans.len(),
            all == span_tokens(chars@, spans@),
            opened == opener_count(all.take(i as int)),
            closed == closer_count(all.take(i as int)),
            opened + closed == i,
            stack@ == open_spans(spans@.take(i as int)),
            span_texts(chars@, stack@) == open_stack(all.take(i as int)),
            forall|k: int| 0 <= k < spans.len() ==> (#[trigger] spans[k]).within(chars@),
            forall|k: int| 0 <= k < stack.len() ==> (#[trigger] stack[k]).within(chars@),
            stack.len() + closed >= opened,
            stack.len() <= opened,
        decreases spans.len() - i,
    {
        let span = spans[i];
        let ghost before = stack@;
        proof {
            assert(all.take(i + 1).drop_last() =~= all.take(i as int));
            assert(all.take(i + 1).last() == span.token(chars@));
            assert(spans@.take(i + 1).drop_last() =~= spans@.take(i as int));
            assert(spans@.take(i + 1).last() == span);
        }
        if span.open {
            opened = opened + 1;
            stack.push(span);
            proof {
                assert(span_texts(chars@, stack@) =~= span_texts(chars@, before).push(
                    chars@.subrange(span.from as int, span.to as int),
                ));
            }
        } else {
            closed = closed + 1;
            if stack.len() > 0 {
                stack.pop();
                proof {
                    assert(span_texts(chars@, stack@) =~= span_texts(chars@, before).drop_last());
                }
            }
        }
        i = i + 1;
    }
    proof {
        assert(all.take(i as int) =~= all);
        assert(spans@.take(i as int) =~= spans@);
    }
    Balance { opened, closed, stack }
}

/// Puts `carry` in front of `line`, closes at its end what it leaves open, and
/// gives the line with the opening markers for the next one.
pub fn close_line(carry: &str, line: &str) -> (fixed: (String, String))
    ensures
        fixed.0@ == fix_line(carry@, line@).line,
        fixed.1@ == fix_line(carry@, line@).carry,
{
    let mut full = String::from_str(carry);
    full.append(line);
    let chars = chars_of(full.as_str());
    let spans = read_tokens(&chars);
    let balance = weigh(&chars, &spans);
    let mut next = String::new();
    if balance.opened > balance.closed {
        let n = balance.opened - balance.closed;
        let first = balance.stack.len() - n;
        let ghost texts = span_texts(chars@, balance.stack@);
        let mut j: usize = first;
        proof {
            assert(texts.subrange(first as int, first as int) =~= Seq::<Seq<char>>::empty());
        }
        while j < balance.stack.len()
            invariant
                first <= j <= balance.stack.len(),
                chars@ == full@,
                texts == span_texts(chars@, balance.stack@),
                forall|k: int|
                    0 <= k < balance.stack.len() ==> (#[trigger] balance.stack[k]).within(chars@),
                next@ == texts.subrange(first as int, j as int).flatten(),
            decreases balance.stack.len() - j,
        {
            let span = balance.stack[j];
            next.append(slice(full.as_str(), span.from, span.to));
            proof {
                broadcast use Seq::lemma_flatten_push;

                assert(texts.subrange(first as int, j + 1) =~= texts.subrange(
                    first as int,
                    j as int,
                ).push(texts[j as int]));
            }
            j = j + 1;
        }
        proof {
            assert(texts.subrange(first as int, balance.stack.len() as int) =~= texts.skip(
                texts.len() - n,
            ));
        }
        let ghost plain = full@;
        let mut k: usize = 0;
        while k < n
            invariant
                k <= n,
                full@ == plain + closing_run(k as nat),
            decreases n - k,
        {
            proof {
                reveal_strlit("</tspan>");
                assert("</tspan>"@ =~= closer());
            }
            full.append("</tspan>");
            proof {
                assert(plain + closing_run(k as nat) + closer() =~= plain + closing_run(
                    (k + 1) as nat,
                ));
            }
            k = k + 1;
        }
    }
    (full, next)
}

/// Makes every line one that can be shown alone: what a line leaves open is
/// closed at its end and opened again at the head of the next.
///
/// The lines are dealt with in turn, each with the opening markers in front of
/// it that the one before carried on.
pub fn fix_tags(input: &mut [String])
    ensures
        owned_views(final(input)@) == rebalanced(owned_views(old(input)@)),
{
    let ghost lines = owned_views(input@);
    let mut carry = String::new();
    let mut i: usize = 0;
    while i < input.len()
        invariant
            i <= input.len(),
            input.len() == lines.len(),
            carry@ == carry_into(lines, i as nat),
            forall|k: int| 0 <= k < i ==> (#[trigger] input@[k])@ == rebalanced(lines)[k],
            forall|k: int| i <= k < input.len() ==> (#[trigger] input@[k])@ == lines[k],
        decreases input.len() - i,
    {
        let fixed = close_line(carry.as_str(), input[i].as_str());
        input[i] = fixed.0;
        carry = fixed.1;
        i = i + 1;
    }
    proof {
        assert(owned_views(input@) =~= rebalanced(lines));
    }
}

} // verus!

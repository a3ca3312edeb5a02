//! Reading the number that picks a candidate.
//!
//! The caller answers a list of candidates with a line of text. The line
//! stands for a number when, with the white space around it taken away, it
//! is a run of decimal digits, which a `+` may precede, and the number fits
//! the machine's word. Everything else is no selection.

use crate::render::decimal_text;
use crate::text::{chars_of, is_whitespace, trim_bounds, trim_end, trim_start, trimmed};
use vstd::prelude::*;

verus! {

/// `c` is one of the digits `0` to `9`.
pub open spec fn is_digit(c: char) -> bool {
    '0' <= c <= '9'
}

/// The number that the digit `c` stands for.
pub open spec fn digit_value(c: char) -> nat {
    (c as u32 - '0' as u32) as nat
}

/// `s` consists of digits only.
pub open spec fn all_digits(s: Seq<char>) -> bool {
    forall|i: int| 0 <= i < s.len() ==> is_digit(#[trigger] s[i])
}

/// The number that a run of decimal digits stands for.
pub open spec fn decimal_value(digits: Seq<char>) -> nat
    decreases digits.len(),
{
    if digits.len() == 0 {
        0
    } else {
        10 * decimal_value(digits.drop_last()) + digit_value(digits.last())
    }
}

/// `s` without a `+` at its start.
pub open spec fn without_plus(s: Seq<char>) -> Seq<char> {
    if s.len() > 0 && s[0] == '+' {
        s.drop_first()
    } else {
        s
    }
}

/// The number that the line `input` stands for, if it stands for one.
pub open spec fn selection_of(input: Seq<char>) -> Option<usize> {
    let digits = without_plus(trimmed(input));
    if digits.len() > 0 && all_digits(digits) && decimal_value(digits) <= usize::MAX {
        Some(decimal_value(digits) as usize)
    } else {
        None
    }
}

/// A run of digits stands for at least what each of its beginnings stands
/// for.
proof fn lemma_decimal_value_grows(digits: Seq<char>, n: int)
    requires
        0 <= n <= digits.len(),
        all_digits(digits),
    ensures
        decimal_value(digits.take(n)) <= decimal_value(digits),
    decreases digits.len() - n,
{
    if n == digits.len() {
        assert(digits.take(n) =~= digits);
    } else {
        let front = digits.drop_last();
        assert(is_digit(digits[digits.len() - 1]));
        assert forall|i: int| 0 <= i < front.len() implies is_digit(#[trigger] front[i]) by {
            assert(front[i] == digits[i]);
        }
        lemma_decimal_value_grows(front, n);
        assert(front.take(n) =~= digits.take(n));
    }
}

/// A number written in decimal is a run of digits that stands for the
/// number.
pub proof fn lemma_decimal_text_reads_back(n: nat)
    ensures
        decimal_text(n).len() > 0,
        all_digits(decimal_text(n)),
        decimal_value(decimal_text(n)) == n,
    decreases n,
{
    let text = decimal_text(n);
    if n < 10 {
        assert(text.drop_last().len() == 0);
        assert(decimal_value(text.drop_last()) == 0);
        assert(digit_value(text.last()) == n);
    } else {
        lemma_decimal_text_reads_back(n / 10);
        let front = decimal_text(n / 10);
        assert(text.drop_last() =~= front);
        assert(digit_value(text.last()) == n % 10);
        assert forall|i: int| 0 <= i < text.len() implies is_digit(#[trigger] text[i]) by {
            if i < front.len() {
                assert(text[i] == front[i]);
            }
        }
    }
}

/// The number under which a candidate is offered, typed back as it is
/// shown, selects that candidate: a number written in decimal is read as
/// that number.
pub proof fn lemma_shown_number_is_read(number: usize)
    ensures
        selection_of(decimal_text(number as nat)) == Some(number),
{
    let text = decimal_text(number as nat);
    lemma_decimal_text_reads_back(number as nat);
    assert(is_digit(text[0]) && is_digit(text.last()));
    assert(!is_whitespace(text[0]) && !is_whitespace(text.last()));
    assert(trim_start(text) == text);
    assert(trim_end(text) == text);
    assert(without_plus(text) == text);
}

/// Reads the number that picks a candidate from a line of input. `None`
/// means that the line is no number.
pub fn parse_selection(input: &str) -> (selection: Option<usize>)
    ensures
        selection == selection_of(input@),
{
    let chars = chars_of(input);
    let (start, end) = trim_bounds(&chars);
    let ghost core = chars@.subrange(start as int, end as int);
    let first: usize = if start < end && chars[start] == '+' {
        start + 1
    } else {
        start
    };
    let ghost digits = chars@.subrange(first as int, end as int);
    proof {
        if first > start {
            assert(core[0] == '+');
            assert(core.drop_first() =~= digits);
        } else {
            if core.len() > 0 {
                assert(core[0] == chars@[start as int]);
            }
            assert(core =~= digits);
        }
        assert(without_plus(core) == digits);
    }
    if first == end {
        return None;
    }
    let mut value: usize = 0;
    let mut at: usize = first;
    while at < end
        invariant
            first <= at <= end <= chars@.len(),
            digits == chars@.subrange(first as int, end as int),
            digits == without_plus(trimmed(input@)),
            all_digits(digits.take(at - first)),
            value == decimal_value(digits.take(at - first)),
        decreases end - at,
    {
        let c: char = chars[at];
        assert(digits[at - first] == c);
        if !('0' <= c && c <= '9') {
            assert(!is_digit(digits[at - first]));
            return None;
        }
        let digit: usize = (c as u32 - '0' as u32) as usize;
        let ghost longer = digits.take(at - first + 1);
        proof {
            assert(longer.drop_last() =~= digits.take(at - first));
            assert(longer.last() == c);
            assert forall|i: int| 0 <= i < longer.len() implies is_digit(#[trigger] longer[i]) by {
                if i < at - first {
                    assert(digits.take(at - first)[i] == longer[i]);
                }
            }
            assert(decimal_value(longer) == 10 * value + digit);
        }
        let scaled = value.checked_mul(10);
        let grown = match scaled {
            Some(tenfold) => tenfold.checked_add(digit),
            None => None,
        };
        match grown {
            Some(next) => {
                value = next;
            },
            None => {
                proof {
                    assert(decimal_value(longer) > usize::MAX);
                    if all_digits(digits) {
                        lemma_decimal_value_grows(digits, at - first + 1);
                    }
                }
                return None;
            },
        }
        at += 1;
    }
    proof {
        assert(digits.take(end - first) =~= digits);
    }
    Some(value)
}

} // verus!

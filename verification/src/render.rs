//! Numbers as text.
//!
//! Whole numbers are written in decimal. Audio features, which are counted
//! in millionths, are written with two decimals: the value is rounded to the
//! nearest hundredth, and a value halfway between two hundredths goes to the
//! even one.

use crate::fixed::{nearest, round_quotient};
use crate::text::push_char;
use vstd::prelude::*;
use vstd::string::StringExecFns;

verus! {

/// The audio features of a track together with its popularity.
#[derive(Debug, Clone, Copy)]
pub struct Features {
    pub danceability: i64,
    pub energy: i64,
    pub tempo: i64,
    pub valence: i64,
    pub popularity: u32,
}

/// The character of the digit `d`, for `d` from 0 to 9.
pub open spec fn digit_char(d: nat) -> char {
    (d + 48) as char
}

/// The decimal digits of `n`, without leading zeros.
pub open spec fn decimal_text(n: nat) -> Seq<char>
    decreases n,
{
    if n < 10 {
        seq![digit_char(n)]
    } else {
        decimal_text(n / 10).push(digit_char(n % 10))
    }
}

/// The size of `value`, without its sign.
pub open spec fn magnitude(value: int) -> nat {
    if value < 0 {
        (-value) as nat
    } else {
        value as nat
    }
}

/// The number of hundredths nearest to `millionths` of either sign; halfway
/// cases go to the even number of hundredths.
pub open spec fn hundredths(millionths: int) -> nat {
    nearest(magnitude(millionths), 10_000)
}

/// A value in millionths written with two decimals: a `-` if the value is
/// below zero, the whole part, a point, and two digits.
pub open spec fn fixed2_text(millionths: int) -> Seq<char> {
    let h = hundredths(millionths);
    let sign = if millionths < 0 {
        seq!['-']
    } else {
        Seq::<char>::empty()
    };
    sign + decimal_text(h / 100) + seq!['.', digit_char(h / 10 % 10), digit_char(h % 10)]
}

/// The label of a node or an edge: the four features with two decimals and
/// the popularity, each under its name.
pub open spec fn label_text(f: Features) -> Seq<char> {
    "Danceability: "@ + fixed2_text(f.danceability as int) + ", Energy: "@ + fixed2_text(
        f.energy as int,
    ) + ", Tempo: "@ + fixed2_text(f.tempo as int) + ", Valence: "@ + fixed2_text(f.valence as int)
        + ", Popularity: "@ + decimal_text(f.popularity as nat)
}

/// `text` between two double quotes. Nothing in `text` is escaped.
pub open spec fn quoted(text: Seq<char>) -> Seq<char> {
    seq!['"'] + text + seq!['"']
}

/// The character of a digit.
pub fn digit_to_char(d: u8) -> (c: char)
    requires
        d < 10,
    ensures
        c == digit_char(d as nat),
{
    (d + 48) as char
}

/// Appends `n` in decimal to `out`.
pub fn push_decimal(out: &mut String, n: u64)
    ensures
        final(out)@ == old(out)@ + decimal_text(n as nat),
    decreases n,
{
    if n >= 10 {
        push_decimal(out, n / 10);
    }
    push_char(out, digit_to_char((n % 10) as u8));
    assert(out@ =~= old(out)@ + decimal_text(n as nat));
}

/// Appends `millionths`, written with two decimals, to `out`.
pub fn push_fixed2(out: &mut String, millionths: i64)
    ensures
        final(out)@ == old(out)@ + fixed2_text(millionths as int),
{
    let size: u64 = if millionths < 0 {
        (-(millionths as i128)) as u64
    } else {
        millionths as u64
    };
    let h: u64 = round_quotient(size, 10_000);
    if millionths < 0 {
        push_char(out, '-');
    }
    push_decimal(out, h / 100);
    push_char(out, '.');
    push_char(out, digit_to_char((h / 10 % 10) as u8));
    push_char(out, digit_to_char((h % 10) as u8));
    assert(out@ =~= old(out)@ + fixed2_text(millionths as int));
}

/// Appends the label of `f` to `out`.
pub fn push_label(out: &mut String, f: &Features)
    ensures
        final(out)@ == old(out)@ + label_text(*f),
{
    out.append("Danceability: ");
    push_fixed2(out, f.danceability);
    out.append(", Energy: ");
    push_fixed2(out, f.energy);
    out.append(", Tempo: ");
    push_fixed2(out, f.tempo);
    out.append(", Valence: ");
    push_fixed2(out, f.valence);
    out.append(", Popularity: ");
    push_decimal(out, f.popularity as u64);
    assert(out@ =~= old(out)@ + label_text(*f));
}

/// Appends `text` between double quotes to `out`.
pub fn push_quoted(out: &mut String, text: &str)
    ensures
        final(out)@ == old(out)@ + quoted(text@),
{
    push_char(out, '"');
    out.append(text);
    push_char(out, '"');
    assert(out@ =~= old(out)@ + quoted(text@));
}

/// The label of `f` as a text of its own.
pub fn render_label(f: &Features) -> (label: String)
    ensures
        label@ == label_text(*f),
{
    let mut label = String::new();
    push_label(&mut label, f);
    assert(label@ =~= label_text(*f));
    label
}

} // verus!

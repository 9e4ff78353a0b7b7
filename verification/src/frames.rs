//! The record of a run: labelled snapshots of the grid, in the order in which
//! they were taken.

use vstd::prelude::*;
use crate::grid::{frames_wf, Frame, Grid};

verus! {

/// The character of a decimal digit.
pub open spec fn spec_digit(d: int) -> char {
    if d == 0 {
        '0'
    } else if d == 1 {
        '1'
    } else if d == 2 {
        '2'
    } else if d == 3 {
        '3'
    } else if d == 4 {
        '4'
    } else if d == 5 {
        '5'
    } else if d == 6 {
        '6'
    } else if d == 7 {
        '7'
    } else if d == 8 {
        '8'
    } else {
        '9'
    }
}

/// The digits of `n` in decimal, the most significant first, without
/// leading zeros.
pub open spec fn spec_decimal(n: nat) -> Seq<char>
    decreases n,
{
    if n < 10 {
        seq![spec_digit(n as int)]
    } else {
        spec_decimal(n / 10).push(spec_digit((n % 10) as int))
    }
}

/// The text of a label that ends in a number: the prefix, a space, and the
/// number in decimal.
pub open spec fn numbered_text(prefix: Seq<char>, n: nat) -> Seq<char> {
    prefix + seq![' '] + spec_decimal(n)
}

/// The characters of a row of digits that stands least significant digit
/// first, read the other way round.
pub open spec fn spec_digits_text(digits: Seq<usize>) -> Seq<char> {
    Seq::new(digits.len(), |k: int| spec_digit(digits[digits.len() - 1 - k] as int))
}

/// The text of a decimal digit.
fn digit_text(d: usize) -> (s: &'static str)
    requires
        d < 10,
    ensures
        s@ == seq![spec_digit(d as int)],
{
    proof {
        reveal_strlit("0");
        reveal_strlit("1");
        reveal_strlit("2");
        reveal_strlit("3");
        reveal_strlit("4");
        reveal_strlit("5");
        reveal_strlit("6");
        reveal_strlit("7");
        reveal_strlit("8");
        reveal_strlit("9");
    }
    let s: &'static str = match d {
        0 => "0",
        1 => "1",
        2 => "2",
        3 => "3",
        4 => "4",
        5 => "5",
        6 => "6",
        7 => "7",
        8 => "8",
        _ => "9",
    };
    assert(s@ =~= seq![spec_digit(d as int)]);
    s
}

/// The number `n` in decimal.
pub fn decimal(n: usize) -> (text: String)
    ensures
        text@ == spec_decimal(n as nat),
{
    let mut digits: Vec<usize> = Vec::new();
    let mut rest: usize = n;
    assert(spec_decimal(rest as nat) + spec_digits_text(digits@) =~= spec_decimal(n as nat));
    while rest >= 10
        invariant
            spec_decimal(n as nat) == spec_decimal(rest as nat) + spec_digits_text(digits@),
            forall|k: int| 0 <= k < digits@.len() ==> digits@[k] < 10,
        decreases rest,
    {
        let ghost before = digits@;
        digits.push(rest % 10);
        proof {
            assert(spec_digits_text(digits@) =~= seq![spec_digit((rest % 10) as int)]
                + spec_digits_text(before));
            assert(spec_decimal(rest as nat) + spec_digits_text(before) =~= spec_decimal(
                (rest / 10) as nat,
            ) + spec_digits_text(digits@));
        }
        rest = rest / 10;
    }
    let ghost before = digits@;
    digits.push(rest);
    proof {
        assert(spec_digits_text(digits@) =~= seq![spec_digit(rest as int)] + spec_digits_text(
            before,
        ));
        assert(spec_decimal(n as nat) =~= spec_digits_text(digits@));
    }
    let mut text: String = String::new();
    let mut k: usize = 0;
    while k < digits.len()
        invariant
            k <= digits.len(),
            forall|j: int| 0 <= j < digits@.len() ==> digits@[j] < 10,
            text@ == spec_digits_text(digits@).subrange(0, k as int),
        decreases digits.len() - k,
    {
        let d: usize = digits[digits.len() - 1 - k];
        text.append(digit_text(d));
        proof {
            assert(text@ =~= spec_digits_text(digits@).subrange(0, k + 1));
        }
        k += 1;
    }
    assert(text@ =~= spec_digits_text(digits@));
    text
}

/// The label that ends in a number: the prefix, a space, and the number in
/// decimal.
pub fn numbered_label(prefix: &str, n: usize) -> (label: String)
    ensures
        label@ == numbered_text(prefix@, n as nat),
{
    let mut label: String = String::from_str(prefix);
    proof {
        reveal_strlit(" ");
    }
    label.append(" ");
    assert(" "@ =~= seq![' ']);
    let digits: String = decimal(n);
    label.append(digits.as_str());
    label
}

/// `after` is `before` with one more frame, which shows `tiles` under
/// `label`.
pub open spec fn recorded(before: Seq<Frame>, after: Seq<Frame>, tiles: Seq<crate::grid::Tile>, label: Seq<char>) -> bool {
    &&& after.len() == before.len() + 1
    &&& after.subrange(0, before.len() as int) == before
    &&& after[before.len() as int].0@ == tiles
    &&& after[before.len() as int].1@ == label
}

/// Appends a copy of `grid` under `label`. The copy shares nothing with
/// `grid`: later writes to `grid` do not show in the frame.
pub fn record(frames: &mut Vec<Frame>, grid: &Grid, label: String)
    requires
        grid.wf(),
        frames_wf(old(frames)@),
    ensures
        recorded(old(frames)@, final(frames)@, grid@, label@),
        frames_wf(final(frames)@),
{
    let copy = grid.snapshot();
    frames.push((copy, label));
    assert(frames@.subrange(0, old(frames)@.len() as int) =~= old(frames)@);
    assert forall|i: int| 0 <= i < frames@.len() implies (#[trigger] frames@[i]).0.wf() by {
        if i < old(frames)@.len() {
            assert(frames@[i] == old(frames)@[i]);
        }
    }
}

} // verus!

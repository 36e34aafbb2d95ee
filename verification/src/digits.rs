//! Base-256 positional notation, the arithmetic under every fixed-width scalar.

use vstd::arithmetic::div_mod::{lemma_div_denominator, lemma_mod_breakdown};
use vstd::prelude::*;

verus! {

/// 256 to the power `n`: the number of values that `n` bytes can tell apart.
pub open spec fn pow256(n: nat) -> nat
    decreases n,
{
    if n == 0 {
        1
    } else {
        256 * pow256((n - 1) as nat)
    }
}

/// The `width` least significant base-256 digits of `x`, least significant first.
pub open spec fn le_digits(x: nat, width: nat) -> Seq<u8> {
    Seq::new(width, |i: int| ((x / pow256(i as nat)) % 256) as u8)
}

/// The number that `digits` denote when the least significant digit comes first.
pub open spec fn le_value(digits: Seq<u8>) -> nat
    decreases digits.len(),
{
    if digits.len() == 0 {
        0
    } else {
        digits[0] as nat + 256 * le_value(digits.drop_first())
    }
}

pub proof fn lemma_pow256_positive(n: nat)
    ensures
        pow256(n) > 0,
    decreases n,
{
    if n > 0 {
        lemma_pow256_positive((n - 1) as nat);
    }
}

pub proof fn lemma_pow256_monotonic(a: nat, b: nat)
    requires
        a <= b,
    ensures
        pow256(a) <= pow256(b),
    decreases b,
{
    lemma_pow256_positive(a);
    if a < b {
        lemma_pow256_monotonic(a, (b - 1) as nat);
    }
}

/// The powers that the scalar widths of the wire format use.
pub proof fn lemma_pow256_widths()
    ensures
        pow256(0) == 1,
        pow256(1) == 0x100,
        pow256(2) == 0x1_0000,
        pow256(4) == 0x1_0000_0000,
        pow256(8) == 0x1_0000_0000_0000_0000,
        pow256(15) == 0x1_0000_0000_0000_0000_0000_0000_0000_00,
        pow256(16) == 0x1_0000_0000_0000_0000_0000_0000_0000_0000,
{
    reveal_with_fuel(pow256, 17);
}

/// Dropping the lowest digit is dividing by 256.
pub proof fn lemma_le_digits_step(x: nat, width: nat)
    requires
        width > 0,
    ensures
        le_digits(x, width)[0] == (x % 256) as u8,
        le_digits(x, width).drop_first() == le_digits(x / 256, (width - 1) as nat),
{
    let rest = le_digits(x, width).drop_first();
    let shifted = le_digits(x / 256, (width - 1) as nat);
    assert(pow256(0) == 1);
    assert(le_digits(x, width)[0] == ((x / pow256(0)) % 256) as u8);
    assert forall|i: int| 0 <= i < width - 1 implies rest[i] == shifted[i] by {
        lemma_pow256_positive(i as nat);
        lemma_div_denominator(x as int, 256, pow256(i as nat) as int);
        assert(pow256((i + 1) as nat) == 256 * pow256(i as nat));
    }
    assert(rest =~= shifted);
}

/// Digits denote the number they were taken from, up to the width kept.
pub proof fn lemma_le_value_of_digits(x: nat, width: nat)
    ensures
        le_value(le_digits(x, width)) == x % pow256(width),
    decreases width,
{
    if width > 0 {
        lemma_le_digits_step(x, width);
        lemma_le_value_of_digits(x / 256, (width - 1) as nat);
        lemma_pow256_positive((width - 1) as nat);
        lemma_mod_breakdown(x as int, 256, pow256((width - 1) as nat) as int);
    }
}

/// A number of `digits.len()` digits is below `256 ^ digits.len()`.
pub proof fn lemma_le_value_bound(digits: Seq<u8>)
    ensures
        le_value(digits) < pow256(digits.len()),
    decreases digits.len(),
{
    if digits.len() > 0 {
        lemma_le_value_bound(digits.drop_first());
    }
}

/// Taking the digits of what `digits` denote gives `digits` back.
pub proof fn lemma_le_digits_of_value(digits: Seq<u8>)
    ensures
        le_digits(le_value(digits), digits.len()) == digits,
    decreases digits.len(),
{
    if digits.len() > 0 {
        let x = le_value(digits);
        let tail = digits.drop_first();
        lemma_le_digits_of_value(tail);
        lemma_le_digits_step(x, digits.len());
        assert(x % 256 == digits[0] as nat);
        assert(x / 256 == le_value(tail));
        assert(le_digits(x, digits.len()) =~= seq![digits[0]] + le_digits(x / 256, tail.len()));
        assert(seq![digits[0]] + tail =~= digits);
    } else {
        assert(le_digits(le_value(digits), 0) =~= digits);
    }
}

/// A single digit denotes itself, read from either end.
pub proof fn lemma_single_byte(digits: Seq<u8>)
    requires
        digits.len() == 1,
    ensures
        le_value(digits) == digits[0],
        digits.reverse() == digits,
{
    assert(le_value(digits.drop_first()) == 0);
    assert(digits.reverse() =~= digits);
}

} // verus!

//! Binary digits of natural numbers: what the packing of lengths into a bitmap
//! rests on.

use vstd::arithmetic::div_mod::*;
use vstd::arithmetic::power2::*;
use vstd::prelude::*;

verus! {

/// Whether the binary digit of weight `2^index` is one in `n`.
pub open spec fn bit_of(n: nat, index: nat) -> bool {
    (n / pow2(index)) % 2 == 1
}

/// The number of binary digits of `n`, without leading zeros: none for zero.
pub open spec fn bit_width(n: nat) -> nat
    decreases n,
{
    if n == 0 {
        0
    } else {
        1 + bit_width(n / 2)
    }
}

/// A number lies below two to the number of its digits, and a positive one has
/// its leading digit at one.
pub proof fn lemma_bit_width_bounds(n: nat)
    ensures
        n < pow2(bit_width(n)),
        n > 0 ==> pow2((bit_width(n) - 1) as nat) <= n,
    decreases n,
{
    lemma2_to64();
    if n > 0 {
        lemma_bit_width_bounds(n / 2);
        lemma_pow2_unfold(bit_width(n));
        if n / 2 > 0 {
            lemma_pow2_unfold(bit_width(n / 2));
        }
    }
}

/// Every exponent lies below its power of two.
pub proof fn lemma_below_pow2(exponent: nat)
    ensures
        exponent < pow2(exponent),
    decreases exponent,
{
    lemma2_to64();
    if exponent > 0 {
        lemma_below_pow2((exponent - 1) as nat);
        lemma_pow2_unfold(exponent);
    }
}

/// A number has no more digits than its value.
pub proof fn lemma_bit_width_at_most_value(n: nat)
    ensures
        bit_width(n) <= n,
{
    if n > 0 {
        lemma_bit_width_bounds(n);
        lemma_below_pow2((bit_width(n) - 1) as nat);
    }
}

/// A number below `2^index` has no digit of weight `2^index` or more.
pub proof fn lemma_high_bits_clear(n: nat, index: nat, higher: nat)
    requires
        n < pow2(index),
        index <= higher,
    ensures
        !bit_of(n, higher),
{
    if index < higher {
        lemma_pow2_strictly_increases(index, higher);
    }
    lemma_basic_div(n as int, pow2(higher) as int);
}

/// A digit that is one lies below the number's width, and so below its value.
pub proof fn lemma_set_bit_is_low(n: nat, index: nat)
    requires
        bit_of(n, index),
    ensures
        index < bit_width(n),
        index < n,
{
    lemma_bit_width_bounds(n);
    if index >= bit_width(n) {
        lemma_high_bits_clear(n, bit_width(n), index);
    }
    lemma_bit_width_at_most_value(n);
}

/// Halving a number moves every digit down by one place.
pub proof fn lemma_shift_down(n: nat, index: nat)
    ensures
        (n / pow2(index)) / 2 == n / pow2(index + 1),
{
    lemma_pow2_pos(index);
    lemma_pow2_unfold(index + 1);
    lemma_div_denominator(n as int, pow2(index) as int, 2);
    assert(pow2(index) * 2 == pow2(index + 1));
}

/// The digits below `2^(index + 1)` are those below `2^index` and the digit of
/// weight `2^index`.
pub proof fn lemma_low_digits_step(n: nat, index: nat)
    ensures
        n % pow2(index + 1) == n % pow2(index) + if bit_of(n, index) {
            pow2(index)
        } else {
            0
        },
{
    lemma_pow2_pos(index);
    lemma_pow2_unfold(index + 1);
    lemma_breakdown(n as int, pow2(index) as int, 2);
    assert(pow2(index) * 2 == pow2(index + 1));
    let digit = (n / pow2(index)) % 2;
    assert(digit == 0 || digit == 1);
    if digit == 1 {
        assert(pow2(index) * digit == pow2(index));
    } else {
        assert(pow2(index) * digit == 0);
    }
}

} // verus!

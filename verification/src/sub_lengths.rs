//! The index of subroutine lengths: one bitmap in which the length of each
//! subroutine is written in binary, least digit first, from the offset at which
//! the subroutine begins.
//!
//! No width is stored. A length is read back from its start up to the next
//! subroutine entry, or for as many digits as a machine word has, whichever ends
//! first. That is enough because a number never has more digits than its value: the
//! digits of a subroutine's length end before the next subroutine begins.

use crate::binary::{
    bit_of, bit_width, lemma_bit_width_bounds, lemma_high_bits_clear, lemma_low_digits_step,
    lemma_set_bit_is_low, lemma_shift_down,
};
use crate::bits::Bits;
use vstd::arithmetic::div_mod::*;
use vstd::arithmetic::power2::*;
use vstd::bits::*;
use vstd::prelude::*;

verus! {

/// Whether `bits` holds `offset`. An offset beyond the range of `usize` is held by
/// no set.
pub open spec fn holds(bits: Set<usize>, offset: int) -> bool {
    0 <= offset <= usize::MAX && bits.contains(offset as usize)
}

/// Whether the bit that stands `index` places after `start` is set in `bits`.
pub open spec fn digit_at(bits: Set<usize>, start: usize, index: nat) -> bool {
    holds(bits, start + index)
}

/// The bits that writing `length` at `start` sets: the offset `start + i` for
/// each binary digit `i` of `length` that is one.
pub open spec fn stored_bits(start: usize, length: usize) -> Set<usize> {
    Set::new(|offset: usize| start <= offset && bit_of(length as nat, (offset - start) as nat))
}

/// The first digit count from `width` on at which the reading of a length stops:
/// at a word's number of digits, or where `start + width` is a boundary.
pub open spec fn window_from(boundaries: Set<usize>, start: usize, width: nat) -> nat
    decreases usize::BITS - width,
{
    if width >= usize::BITS || digit_at(boundaries, start, width) {
        width
    } else {
        window_from(boundaries, start, width + 1)
    }
}

/// The number of digits that are read for the length at `start`. The digit at
/// `start` itself is always read; the reading ends before the first boundary after
/// `start`, and after `usize::BITS` digits at the latest.
pub open spec fn window(boundaries: Set<usize>, start: usize) -> nat {
    window_from(boundaries, start, 1)
}

/// The number whose binary digits are the first `width` bits from `start` on.
pub open spec fn decode(bits: Set<usize>, start: usize, width: nat) -> nat
    decreases width,
{
    if width == 0 {
        0
    } else {
        decode(bits, start, (width - 1) as nat) + if digit_at(bits, start, (width - 1) as nat) {
            pow2((width - 1) as nat)
        } else {
            0
        }
    }
}

/// The length that is read at `start` from a bitmap, given the subroutine entries.
pub open spec fn decoded_length(bits: Set<usize>, start: usize, boundaries: Set<usize>) -> nat {
    decode(bits, start, window(boundaries, start))
}

/// The reading never stops before the digit count it starts from, nor after a
/// word's number of digits.
pub proof fn lemma_window_bounds(boundaries: Set<usize>, start: usize, width: nat)
    requires
        width <= usize::BITS,
    ensures
        width <= window_from(boundaries, start, width) <= usize::BITS,
    decreases usize::BITS - width,
{
    if !(width >= usize::BITS || digit_at(boundaries, start, width)) {
        lemma_window_bounds(boundaries, start, width + 1);
    }
}

/// Where the reading stops short of a word's number of digits, it stops at a
/// boundary.
pub proof fn lemma_window_stops_at_boundary(boundaries: Set<usize>, start: usize, width: nat)
    requires
        window_from(boundaries, start, width) < usize::BITS,
    ensures
        digit_at(boundaries, start, window_from(boundaries, start, width)),
    decreases usize::BITS - width,
{
    if !(width >= usize::BITS || digit_at(boundaries, start, width)) {
        lemma_window_stops_at_boundary(boundaries, start, width + 1);
    }
}

/// No boundary lies inside the window.
pub proof fn lemma_window_has_no_boundary(
    boundaries: Set<usize>,
    start: usize,
    width: nat,
    index: nat,
)
    requires
        width <= index < window_from(boundaries, start, width),
    ensures
        !digit_at(boundaries, start, index),
    decreases usize::BITS - width,
{
    if !(width >= usize::BITS || digit_at(boundaries, start, width)) {
        if width < index {
            lemma_window_has_no_boundary(boundaries, start, width + 1, index);
        }
    }
}

/// A number read from `width` digits lies below `2^width`.
pub proof fn lemma_decode_bound(bits: Set<usize>, start: usize, width: nat)
    ensures
        decode(bits, start, width) < pow2(width),
    decreases width,
{
    lemma2_to64();
    if width > 0 {
        lemma_decode_bound(bits, start, (width - 1) as nat);
        lemma_pow2_unfold(width);
    }
}

/// Digits that are zero add nothing: where no bit is set from digit `narrow` up to
/// digit `wide`, both widths read the same number.
pub proof fn lemma_decode_clear_tail(bits: Set<usize>, start: usize, narrow: nat, wide: nat)
    requires
        narrow <= wide,
        forall|index: nat| narrow <= index < wide ==> !#[trigger] digit_at(bits, start, index),
    ensures
        decode(bits, start, wide) == decode(bits, start, narrow),
    decreases wide,
{
    if narrow < wide {
        assert(!digit_at(bits, start, (wide - 1) as nat));
        lemma_decode_clear_tail(bits, start, narrow, (wide - 1) as nat);
    }
}

/// Where the first `width` bits from `start` on are the binary digits of `n`,
/// they read as `n` without its digits of weight `2^width` and more.
pub proof fn lemma_decode_digits(bits: Set<usize>, start: usize, n: nat, width: nat)
    requires
        forall|index: nat| index < width ==> #[trigger] digit_at(bits, start, index) == bit_of(n, index),
    ensures
        decode(bits, start, width) == n % pow2(width),
    decreases width,
{
    lemma2_to64();
    if width == 0 {
        assert(n % 1 == 0);
    } else {
        let below = (width - 1) as nat;
        lemma_decode_digits(bits, start, n, below);
        lemma_low_digits_step(n, below);
        assert(digit_at(bits, start, below) == bit_of(n, below));
    }
}

/// A length that is written into a clear stretch of the bitmap is read back as
/// it was written, provided that its digits end where the reading ends or before:
/// at the first boundary after `start`, and after `usize::BITS` digits at the
/// latest.
pub proof fn lemma_store_then_find_length(
    bits: Set<usize>,
    start: usize,
    length: usize,
    boundaries: Set<usize>,
)
    requires
        start + bit_width(length as nat) <= usize::MAX,
        bit_width(length as nat) <= window(boundaries, start),
        forall|index: nat|
            index < window(boundaries, start) ==> !#[trigger] digit_at(bits, start, index),
    ensures
        decoded_length(bits.union(stored_bits(start, length)), start, boundaries) == length,
{
    let after = bits.union(stored_bits(start, length));
    let wide = window(boundaries, start);
    assert forall|index: nat| index < wide implies #[trigger] digit_at(after, start, index)
        == bit_of(length as nat, index) by {
        assert(!digit_at(bits, start, index));
        if bit_of(length as nat, index) {
            lemma_set_bit_is_low(length as nat, index);
            let offset = (start + index) as usize;
            assert(stored_bits(start, length).contains(offset));
        }
    }
    lemma_decode_digits(after, start, length as nat, wide);
    lemma_bit_width_bounds(length as nat);
    if bit_width(length as nat) < wide {
        lemma_pow2_strictly_increases(bit_width(length as nat), wide);
    }
    lemma_small_mod(length as nat, pow2(wide));
}

/// The bitmap of subroutine lengths.
pub struct SubLengthBits(Bits);

impl View for SubLengthBits {
    type V = Set<usize>;

    closed spec fn view(&self) -> Set<usize> {
        self.0@
    }
}

impl SubLengthBits {
    /// An index with no bit set, with room for one bit per byte of `code`.
    pub fn new(code: &[u8]) -> (index: Self)
        ensures
            index@ == Set::<usize>::empty(),
    {
        SubLengthBits(Bits::with_capacity(code.len()))
    }

    /// The number of bits that the bitmap has storage for: a bound above every bit
    /// that is set, and no more is known of it.
    pub fn capacity(&self) -> (room: usize)
        ensures
            forall|offset: usize| #[trigger] self@.contains(offset) ==> offset < room,
    {
        self.0.capacity()
    }

    /// Gives back unused storage. The bitmap holds what it held. Every bit that
    /// is set must be below `usize::MAX - 31`: the length that is left is counted
    /// in whole blocks of thirty-two bits, and that count must be a `usize`.
    pub fn shrink_to_fit(&mut self)
        requires
            forall|offset: usize| #[trigger]
                old(self)@.contains(offset) ==> offset < usize::MAX - 31,
        ensures
            final(self)@ == old(self)@,
    {
        self.0.shrink_to_fit();
    }

    /// Writes `sub_length` at `sub_start`: sets the bit `sub_start + i` for each
    /// binary digit `i` of `sub_length` that is one, and no other. Nothing is
    /// written for a length of zero, and no bit is ever cleared. The offsets that
    /// the digits take must be offsets: `sub_start` and the number of digits
    /// together may not pass `usize::MAX`.
    pub fn store(&mut self, sub_start: usize, sub_length: usize)
        requires
            sub_start + bit_width(sub_length as nat) <= usize::MAX,
        ensures
            final(self)@ == old(self)@.union(stored_bits(sub_start, sub_length)),
    {
        let mut l = sub_length;
        let mut bit = sub_start;
        proof {
            lemma2_to64();
            assert((bit - sub_start) as nat == 0);
            assert(sub_length as nat / pow2(0) == sub_length as nat);
            assert(self@ =~= old(self)@.union(
                Set::new(
                    |offset: usize|
                        sub_start <= offset < bit && bit_of(
                            sub_length as nat,
                            (offset - sub_start) as nat,
                        ),
                ),
            ));
        }
        while l > 0
            invariant
                sub_start <= bit,
                sub_start + bit_width(sub_length as nat) <= usize::MAX,
                (bit - sub_start) + bit_width(l as nat) == bit_width(sub_length as nat),
                l as nat == sub_length as nat / pow2((bit - sub_start) as nat),
                self@ == old(self)@.union(
                    Set::new(
                        |offset: usize|
                            sub_start <= offset < bit && bit_of(
                                sub_length as nat,
                                (offset - sub_start) as nat,
                            ),
                    ),
                ),
            decreases l,
        {
            let ghost before = self@;
            let ghost index = (bit - sub_start) as nat;
            assert(l & 1 == l % 2) by (bit_vector);
            assert(l >> 1 == l / 2) by (bit_vector);
            if l & 1 == 1 {
                self.0.insert(bit);
            }
            proof {
                lemma_shift_down(sub_length as nat, index);
                assert(bit_of(sub_length as nat, index) == (l % 2 == 1));
                assert(self@ =~= old(self)@.union(
                    Set::new(
                        |offset: usize|
                            sub_start <= offset < bit + 1 && bit_of(
                                sub_length as nat,
                                (offset - sub_start) as nat,
                            ),
                    ),
                ));
            }
            bit += 1;
            l >>= 1;
        }
        proof {
            let reached = (bit - sub_start) as nat;
            lemma_pow2_pos(reached);
            lemma_fundamental_div_mod(sub_length as int, pow2(reached) as int);
            lemma_mod_pos_bound(sub_length as int, pow2(reached) as int);
            let quotient = sub_length as int / pow2(reached) as int;
            assert(quotient == 0);
            assert(pow2(reached) as int * quotient == 0);
            assert(sub_length < pow2(reached));
            assert forall|offset: usize| #[trigger]
                stored_bits(sub_start, sub_length).contains(offset) implies offset < bit by {
                if offset >= bit {
                    lemma_high_bits_clear(
                        sub_length as nat,
                        reached,
                        (offset - sub_start) as nat,
                    );
                }
            }
            assert(self@ =~= old(self)@.union(stored_bits(sub_start, sub_length)));
        }
    }

    /// Reads the length that was written at `sub_start`: the bits from `sub_start`
    /// on, as binary digits of rising weight, up to the first entry of `begin_subs`
    /// after `sub_start`, and `usize::BITS` of them at most.
    pub fn find_length(&self, sub_start: usize, begin_subs: &Bits) -> (length: usize)
        ensures
            length as nat == decoded_length(self@, sub_start, begin_subs@),
    {
        let room = self.0.capacity();
        let mut length: usize = if self.0.contains(sub_start) {
            1
        } else {
            0
        };
        let mut bit: usize = 0;
        proof {
            lemma2_to64();
            assert(decode(self@, sub_start, 0) == 0);
            assert(digit_at(self@, sub_start, 0) == self@.contains(sub_start));
            assert(decode(self@, sub_start, 1) == length);
        }
        loop
            invariant_except_break
                bit < usize::BITS,
                window_from(begin_subs@, sub_start, (bit + 1) as nat) == window(
                    begin_subs@,
                    sub_start,
                ),
                length as nat == decode(self@, sub_start, (bit + 1) as nat),
            invariant
                forall|value: usize| #[trigger] self@.contains(value) ==> value < room,
            ensures
                length as nat == decoded_length(self@, sub_start, begin_subs@),
            decreases usize::BITS - bit,
        {
            let ghost read = (bit + 1) as nat;
            if bit >= usize::BITS as usize - 1 {
                break ;
            }
            if sub_start >= room || room - sub_start <= bit + 1 {
                proof {
                    let wide = window(begin_subs@, sub_start);
                    lemma_window_bounds(begin_subs@, sub_start, read);
                    assert forall|index: nat| read <= index < wide implies !#[trigger] digit_at(
                        self@,
                        sub_start,
                        index,
                    ) by {
                        if digit_at(self@, sub_start, index) {
                            assert(self@.contains((sub_start + index) as usize));
                        }
                    }
                    lemma_decode_clear_tail(self@, sub_start, read, wide);
                }
                break ;
            }
            let next = sub_start + bit + 1;
            if begin_subs.contains(next) {
                break ;
            }
            bit += 1;
            proof {
                lemma_decode_bound(self@, sub_start, read);
                lemma_usize_pow2_no_overflow(read);
                lemma_usize_shl_is_mul(1usize, bit);
                assert(digit_at(self@, sub_start, read) == self@.contains(next));
            }
            if self.0.contains(next) {
                let ghost low = length;
                let digit = 1usize << bit;
                assert(low | digit == low + digit) by (bit_vector)
                    requires
                        low < digit,
                        digit == 1usize << bit,
                ;
                length |= digit;
            }
        }
        length
    }
}

} // verus!

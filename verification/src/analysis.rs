//! What one scan of a program yields, stated over the program's bytes.
//!
//! The scan walks the instructions from offset zero. After a push it steps over
//! the immediate data, so a byte of data is never taken for an instruction. An
//! offset is a jump destination where an instruction starts there and is the jump
//! marker, a subroutine entry where it is the subroutine marker. The subroutine
//! entries cut the program into stretches: from offset zero or from an entry, up to
//! the next entry or the end. The length of each stretch is written into the bitmap
//! of lengths at the offset where the stretch begins.

use crate::binary::{bit_of, lemma_below_pow2, lemma_bit_width_at_most_value, lemma_set_bit_is_low};
use crate::bits::Bits;
use crate::instructions::{push_width, Instruction, BEGINSUB, JUMPDEST};
use crate::shared_cache::SharedCache;
use crate::sub_lengths::{
    decoded_length, digit_at, lemma_decode_digits, lemma_window_bounds,
    lemma_window_has_no_boundary, lemma_window_stops_at_boundary, stored_bits, window,
    SubLengthBits,
};
use std::sync::Arc;
use vstd::arithmetic::div_mod::lemma_small_mod;
use vstd::arithmetic::power2::pow2;
use vstd::prelude::*;

verus! {

/// The offset of the instruction that follows the one at `offset`.
pub open spec fn next_instruction(code: Seq<u8>, offset: int) -> int {
    offset + 1 + push_width(code[offset])
}

/// Whether the walk over the instructions that sets out at `from` comes by
/// `offset`.
pub open spec fn reaches(code: Seq<u8>, from: int, offset: int) -> bool
    decreases offset - from,
{
    if from < 0 || from >= code.len() || offset < from {
        false
    } else if from == offset {
        true
    } else if next_instruction(code, from) > offset {
        false
    } else {
        reaches(code, next_instruction(code, from), offset)
    }
}

/// Whether an instruction starts at `offset`: whether the walk from offset zero
/// comes by it. Such an offset lies inside the program.
pub open spec fn is_instruction_start(code: Seq<u8>, offset: int) -> bool {
    reaches(code, 0, offset)
}

/// The offsets that a jump may target.
pub open spec fn jump_destinations(code: Seq<u8>) -> Set<usize> {
    Set::new(|offset: usize| is_instruction_start(code, offset as int) && code[offset as int] == JUMPDEST)
}

/// The offsets at which a subroutine is entered.
pub open spec fn sub_entrypoints(code: Seq<u8>) -> Set<usize> {
    Set::new(|offset: usize| is_instruction_start(code, offset as int) && code[offset as int] == BEGINSUB)
}

/// Where the stretch that `offset` lies in begins: at the last entry at or before
/// `offset`, or at offset zero where there is none.
pub open spec fn sub_begin(entries: Set<usize>, offset: usize) -> usize
    decreases offset,
{
    if offset == 0 {
        0
    } else if entries.contains(offset) {
        offset
    } else {
        sub_begin(entries, (offset - 1) as usize)
    }
}

/// The first entry from `from` on and below `limit`, or `limit` where there is
/// none.
pub open spec fn sub_end(entries: Set<usize>, from: usize, limit: usize) -> usize
    decreases limit - from,
{
    if from >= limit {
        limit
    } else if entries.contains(from) {
        from
    } else {
        sub_end(entries, (from + 1) as usize, limit)
    }
}

/// The length of the stretch that begins at `begin` in a program of `len` bytes:
/// up to the first entry after `begin`, or to the end of the program.
pub open spec fn sub_length(entries: Set<usize>, begin: usize, len: usize) -> nat {
    if begin < len {
        (sub_end(entries, (begin + 1) as usize, len) - begin) as nat
    } else {
        0
    }
}

/// Whether the bit at `offset` is set in the bitmap of lengths: whether the
/// length of the stretch that `offset` lies in has a one at the digit that `offset`
/// stands for.
pub open spec fn is_length_bit(entries: Set<usize>, len: usize, offset: usize) -> bool {
    let begin = sub_begin(entries, offset);
    offset < len && bit_of(sub_length(entries, begin, len), (offset - begin) as nat)
}

/// The bitmap of lengths of a program.
pub open spec fn sub_length_bits(code: Seq<u8>) -> Set<usize> {
    Set::new(
        |offset: usize| is_length_bit(sub_entrypoints(code), code.len() as usize, offset),
    )
}

/// The three results of a scan.
pub struct Artifacts {
    /// The offsets that a jump may target.
    pub jump_destinations: Set<usize>,
    /// The offsets at which a subroutine is entered.
    pub sub_entrypoints: Set<usize>,
    /// The bitmap into which the lengths of the subroutines are written.
    pub length_bits: Set<usize>,
}

/// What the scan of `code` yields.
pub open spec fn analysis_of(code: Seq<u8>) -> Artifacts {
    Artifacts {
        jump_destinations: jump_destinations(code),
        sub_entrypoints: sub_entrypoints(code),
        length_bits: sub_length_bits(code),
    }
}

/// The walk only comes by offsets from its own start on and inside the program.
pub proof fn lemma_reaches_range(code: Seq<u8>, from: int, offset: int)
    requires
        reaches(code, from, offset),
    ensures
        0 <= from <= offset < code.len(),
    decreases offset - from,
{
    if from != offset {
        lemma_reaches_range(code, next_instruction(code, from), offset);
    }
}

/// From an instruction the walk goes on to the next one.
pub proof fn lemma_reaches_next(code: Seq<u8>, from: int, offset: int)
    requires
        reaches(code, from, offset),
        next_instruction(code, offset) < code.len(),
    ensures
        reaches(code, from, next_instruction(code, offset)),
    decreases offset - from,
{
    if from != offset {
        lemma_reaches_next(code, next_instruction(code, from), offset);
    } else {
        let next = next_instruction(code, offset);
        assert(reaches(code, next, next));
    }
}

/// The walk steps over what lies between one instruction and the next.
pub proof fn lemma_reaches_skips(code: Seq<u8>, from: int, instruction: int, offset: int)
    requires
        reaches(code, from, instruction),
        instruction < offset < next_instruction(code, instruction),
    ensures
        !reaches(code, from, offset),
    decreases instruction - from,
{
    if from != instruction {
        lemma_reaches_range(code, next_instruction(code, from), instruction);
        lemma_reaches_skips(code, next_instruction(code, from), instruction, offset);
    } else {
        let next = next_instruction(code, instruction);
        if reaches(code, next, offset) {
            lemma_reaches_range(code, next, offset);
        }
    }
}

/// The bytes that a push carries are never read as instructions: an offset among
/// the immediate data of a push is no instruction start, whatever byte stands
/// there, and so neither a jump destination nor a subroutine entry.
pub proof fn lemma_push_data_is_not_code(code: Seq<u8>, push: usize, offset: usize)
    requires
        is_instruction_start(code, push as int),
        push < offset <= push + push_width(code[push as int]),
    ensures
        !is_instruction_start(code, offset as int),
        !jump_destinations(code).contains(offset),
        !sub_entrypoints(code).contains(offset),
{
    lemma_reaches_skips(code, 0, push as int, offset as int);
}

/// A stretch begins at `begin` for every offset from `begin` up to the next entry.
pub proof fn lemma_sub_begin_is(entries: Set<usize>, begin: usize, offset: usize)
    requires
        begin == 0 || entries.contains(begin),
        begin <= offset,
        forall|entry: usize| begin < entry <= offset ==> !entries.contains(entry),
    ensures
        sub_begin(entries, offset) == begin,
    decreases offset,
{
    if begin < offset {
        lemma_sub_begin_is(entries, begin, (offset - 1) as usize);
    }
}

/// A stretch ends at `end` where `end` is the first entry from `from` on, or the
/// limit with no entry before it.
pub proof fn lemma_sub_end_is(entries: Set<usize>, from: usize, limit: usize, end: usize)
    requires
        from <= end <= limit,
        end == limit || entries.contains(end),
        forall|entry: usize| from <= entry < end ==> !entries.contains(entry),
    ensures
        sub_end(entries, from, limit) == end,
    decreases limit - from,
{
    if from < end {
        lemma_sub_end_is(entries, (from + 1) as usize, limit, end);
    }
}

/// A stretch ends between where the search for its end sets out and the limit, at
/// an entry or at the limit, and no entry lies before its end.
pub proof fn lemma_sub_end_bounds(entries: Set<usize>, from: usize, limit: usize)
    requires
        from <= limit,
    ensures
        from <= sub_end(entries, from, limit) <= limit,
        sub_end(entries, from, limit) < limit ==> entries.contains(sub_end(entries, from, limit)),
        forall|entry: usize|
            from <= entry < sub_end(entries, from, limit) ==> !entries.contains(entry),
    decreases limit - from,
{
    if from < limit && !entries.contains(from) {
        lemma_sub_end_bounds(entries, (from + 1) as usize, limit);
    }
}

/// Reading the bitmap of lengths where a stretch begins, at offset zero or at a
/// subroutine entry, gives the length of that stretch: the distance to the next
/// entry, or to the end of the program.
pub proof fn lemma_decoded_length_is_sub_length(code: Seq<u8>, begin: usize)
    requires
        code.len() <= usize::MAX,
        begin == 0 || sub_entrypoints(code).contains(begin),
    ensures
        decoded_length(sub_length_bits(code), begin, sub_entrypoints(code)) == sub_length(
            sub_entrypoints(code),
            begin,
            code.len() as usize,
        ),
{
    let entries = sub_entrypoints(code);
    let len = code.len() as usize;
    let bits = sub_length_bits(code);
    let length = sub_length(entries, begin, len);
    let wide = window(entries, begin);
    lemma_window_bounds(entries, begin, 1);
    if begin < len {
        lemma_sub_end_bounds(entries, (begin + 1) as usize, len);
    }
    assert forall|index: nat| index < wide implies #[trigger] digit_at(bits, begin, index)
        == bit_of(length, index) by {
        if begin + index < len {
            let offset = (begin + index) as usize;
            assert forall|entry: usize| begin < entry <= offset implies !entries.contains(
                entry,
            ) by {
                lemma_window_has_no_boundary(entries, begin, 1, (entry - begin) as nat);
                assert(!digit_at(entries, begin, (entry - begin) as nat));
            }
            lemma_sub_begin_is(entries, begin, offset);
            assert(bits.contains(offset) == is_length_bit(entries, len, offset));
        } else {
            if bit_of(length, index) {
                lemma_set_bit_is_low(length, index);
            }
            if begin + index <= usize::MAX {
                assert(!bits.contains((begin + index) as usize));
            }
        }
    }
    lemma_decode_digits(bits, begin, length, wide);
    if wide < usize::BITS {
        lemma_window_stops_at_boundary(entries, begin, 1);
        let entry = (begin + wide) as usize;
        assert(digit_at(entries, begin, wide));
        assert(entries.contains(entry));
        lemma_reaches_range(code, 0, entry as int);
        lemma_below_pow2(wide);
    } else {
        vstd::layout::unsigned_int_max_values();
    }
    lemma_small_mod(length, pow2(wide));
}

/// The results of a scan are determined by the program alone. Two scans of the
/// same bytes agree in the jump destinations and in the subroutine entries, and
/// the same length is read from both at every offset.
pub proof fn lemma_scan_is_determined(code: Seq<u8>, first: CacheItem, second: CacheItem)
    requires
        first@ == analysis_of(code),
        second@ == analysis_of(code),
    ensures
        first@.jump_destinations == second@.jump_destinations,
        first@.sub_entrypoints == second@.sub_entrypoints,
        forall|start: usize|
            decoded_length(first@.length_bits, start, first@.sub_entrypoints) == decoded_length(
                second@.length_bits,
                start,
                second@.sub_entrypoints,
            ),
{
}

/// The results of one scan, each behind a counted reference: a copy of the three
/// handles shares the sets and copies none.
pub struct CacheItem {
    /// The offsets that a jump may target.
    pub jump_destination: Arc<Bits>,
    /// The offsets at which a subroutine is entered.
    pub sub_entrypoint: Arc<Bits>,
    /// The bitmap into which the lengths of the subroutines are written.
    pub sub_length: Arc<SubLengthBits>,
}

impl View for CacheItem {
    type V = Artifacts;

    open spec fn view(&self) -> Artifacts {
        Artifacts {
            jump_destinations: self.jump_destination@,
            sub_entrypoints: self.sub_entrypoint@,
            length_bits: self.sub_length@,
        }
    }
}

/// `Arc::clone`: one more handle to the value that `handle` points to.
#[verifier::external_body]
fn share<T>(handle: &Arc<T>) -> (copy: Arc<T>)
    ensures
        copy == *handle,
{
    Arc::clone(handle)
}

impl CacheItem {
    /// One more set of handles to the same three results. Nothing is copied but
    /// the handles.
    pub fn share(&self) -> (copy: CacheItem)
        ensures
            copy == *self,
    {
        CacheItem {
            jump_destination: share(&self.jump_destination),
            sub_entrypoint: share(&self.sub_entrypoint),
            sub_length: share(&self.sub_length),
        }
    }
}

impl SharedCache {
    /// Scans `code` once and yields the jump destinations, the subroutine entries and
    /// the bitmap of subroutine lengths. The cache is not consulted.
    pub fn find_jump_and_sub_destinations(code: &[u8]) -> (item: CacheItem)
        ensures
            item@ == analysis_of(code@),
    {
        let len = code.len();
        let mut jump_dests = Bits::with_capacity(len);
        let mut sub_entrypoints = Bits::with_capacity(len);
        let mut sub_lengths = SubLengthBits::new(code);
        let mut position: usize = 0;
        let mut sub_start: usize = 0;
        let ghost jumps = jump_destinations(code@);
        let ghost entries = self::sub_entrypoints(code@);
        proof {
            assert(jump_dests@ =~= Set::new(|offset: usize| offset < position && jumps.contains(offset)));
            assert(sub_entrypoints@ =~= Set::new(
                |offset: usize| offset < position && entries.contains(offset),
            ));
            assert(sub_lengths@ =~= Set::new(
                |offset: usize| offset < sub_start && is_length_bit(entries, len, offset),
            ));
        }
        while position < len
            invariant
                len == code@.len(),
                jumps == jump_destinations(code@),
                entries == self::sub_entrypoints(code@),
                sub_start <= position <= len,
                position < len ==> is_instruction_start(code@, position as int),
                sub_start == 0 || entries.contains(sub_start),
                forall|entry: usize| sub_start < entry < position ==> !entries.contains(entry),
                jump_dests@ == Set::new(|offset: usize| offset < position && jumps.contains(offset)),
                sub_entrypoints@ == Set::new(
                    |offset: usize| offset < position && entries.contains(offset),
                ),
                sub_lengths@ == Set::new(
                    |offset: usize| offset < sub_start && is_length_bit(entries, len, offset),
                ),
            decreases len - position,
        {
            let byte = code[position];
            let ghost here = position;
            let ghost begin = sub_start;
            let ghost next = next_instruction(code@, position as int);
            let mut skip: usize = 0;
            proof {
                assert forall|offset: usize| here < offset < next implies !jumps.contains(offset)
                    && !entries.contains(offset) by {
                    lemma_reaches_skips(code@, 0, here as int, offset as int);
                }
                if next < len {
                    lemma_reaches_next(code@, 0, here as int);
                }
            }
            if let Some(instruction) = Instruction::from_u8(byte) {
                if instruction.is_jump_destination() {
                    jump_dests.insert(position);
                } else if instruction.is_subroutine_entry() {
                    let length = position - sub_start;
                    proof {
                        lemma_bit_width_at_most_value(length as nat);
                    }
                    sub_entrypoints.insert(position);
                    sub_lengths.store(sub_start, length);
                    proof {
                        lemma_stretch_is_written(entries, len, begin, here, true);
                        assert(sub_lengths@ =~= Set::new(
                            |offset: usize| offset < here && is_length_bit(entries, len, offset),
                        ));
                    }
                    sub_start = position;
                } else if let Some(push_bytes) = instruction.push_bytes() {
                    skip = push_bytes;
                }
            }
            let remaining = len - position - 1;
            if skip >= remaining {
                position = len;
            } else {
                position = position + skip + 1;
            }
            proof {
                assert(jump_dests@ =~= Set::new(
                    |offset: usize| offset < position && jumps.contains(offset),
                ));
                assert(sub_entrypoints@ =~= Set::new(
                    |offset: usize| offset < position && entries.contains(offset),
                ));
            }
        }
        let length = len - sub_start;
        proof {
            lemma_bit_width_at_most_value(length as nat);
        }
        sub_lengths.store(sub_start, length);
        proof {
            lemma_stretch_is_written(entries, len, sub_start, len, false);
            assert forall|offset: usize| jumps.contains(offset) implies offset < len by {
                lemma_reaches_range(code@, 0, offset as int);
            }
            assert forall|offset: usize| entries.contains(offset) implies offset < len by {
                lemma_reaches_range(code@, 0, offset as int);
            }
            assert(jump_dests@ =~= jumps);
            assert(sub_entrypoints@ =~= entries);
            assert(sub_lengths@ =~= sub_length_bits(code@));
        }
        // Every offset in the three bitmaps is below `len`. A program that reaches
        // into the last block of offsets keeps the storage that its bitmaps have.
        if len <= usize::MAX - 31 {
            jump_dests.shrink_to_fit();
            sub_entrypoints.shrink_to_fit();
            sub_lengths.shrink_to_fit();
        }
        CacheItem {
            jump_destination: Arc::new(jump_dests),
            sub_entrypoint: Arc::new(sub_entrypoints),
            sub_length: Arc::new(sub_lengths),
        }
    }
}

/// What writing the length of one stretch adds to the bitmap: for the stretch
/// from `begin` to `end`, the bits of `end - begin` written at `begin` are the bits
/// that the bitmap of lengths holds from `begin` up to `end`, and none lies
/// outside the stretch. `end` is an entry, or the end of the program.
proof fn lemma_stretch_is_written(
    entries: Set<usize>,
    len: usize,
    begin: usize,
    end: usize,
    at_entry: bool,
)
    requires
        begin <= end <= len,
        begin == 0 || entries.contains(begin),
        forall|entry: usize| begin < entry < end ==> !entries.contains(entry),
        at_entry ==> end < len && entries.contains(end),
        !at_entry ==> end == len,
    ensures
        forall|offset: usize|
            #[trigger] stored_bits(begin, (end - begin) as usize).contains(offset) <==> begin
                <= offset < end && is_length_bit(entries, len, offset),
{
    let length = (end - begin) as usize;
    assert forall|offset: usize|
        #[trigger] stored_bits(begin, length).contains(offset) <==> begin <= offset < end
            && is_length_bit(entries, len, offset) by {
        if begin <= offset < end {
            lemma_sub_begin_is(entries, begin, offset);
            lemma_sub_end_is(entries, (begin + 1) as usize, len, end);
        } else if begin <= offset && bit_of(length as nat, (offset - begin) as nat) {
            lemma_set_bit_is_low(length as nat, (offset - begin) as nat);
        }
    }
}

} // verus!

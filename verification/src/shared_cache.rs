//! The cache of scan results, keyed by the hash of the code.
//!
//! A lookup under the hash of empty code, or without a hash, scans the code and
//! leaves the table alone. Any other lookup is answered from the table where the
//! hash is found there; where it is not, the code is scanned and the results are
//! kept under the hash, which may drop the entries that were used least recently.

use crate::analysis::{analysis_of, CacheItem};
use crate::bits::Bits;
use crate::code_hash::{empty_code_hash, CodeHash};
use crate::lru::{
    has_key, index_of, inserted, lemma_inserted_entries_come_from, lemma_inserted_lacks_key,
    lemma_touched_entries_come_from, lemma_touched_lacks_key, total_size, touched, Entry,
    LruTable,
};
use crate::sub_lengths::SubLengthBits;
use std::sync::Arc;
use vstd::prelude::*;

verus! {

/// The budget of a cache that is made without one: four mebibytes.
pub const DEFAULT_CACHE_SIZE: usize = 4 * 1024 * 1024;

/// Whether a lookup under `code_hash` goes by the table: not for the hash of empty
/// code, and not without a hash.
pub open spec fn uses_table(code_hash: Option<CodeHash>) -> bool {
    code_hash matches Some(hash) && hash@ != empty_code_hash()
}

/// Whether a lookup under `code_hash` is answered from the table.
pub open spec fn is_hit(entries: Seq<Entry>, code_hash: Option<CodeHash>) -> bool {
    uses_table(code_hash) && has_key(entries, code_hash.unwrap()@)
}

/// Whether what the table holds under `key` is the scan of `code`. A table with
/// nothing under `key` holds nothing else there.
pub open spec fn holds_scan_of(entries: Seq<Entry>, key: Seq<u8>, code: Seq<u8>) -> bool {
    forall|index: int|
        0 <= index < entries.len() && #[trigger] entries[index].key@ == key ==> entries[index].item@
            == analysis_of(code)
}

/// A use of an entry changes nothing in what the table holds under any key.
pub proof fn lemma_touched_holds_scan(
    entries: Seq<Entry>,
    used: Seq<u8>,
    key: Seq<u8>,
    code: Seq<u8>,
)
    requires
        holds_scan_of(entries, key, code),
    ensures
        holds_scan_of(touched(entries, used), key, code),
{
    let after = touched(entries, used);
    lemma_touched_entries_come_from(entries, used);
    assert forall|index: int| 0 <= index < after.len() && #[trigger] after[index].key@
        == key implies after[index].item@ == analysis_of(code) by {
        let kept = after[index];
        assert(entries.contains(kept));
        let place = choose|place: int| 0 <= place < entries.len() && entries[place] == kept;
        assert(entries[place].key@ == key);
    }
}

/// Where the table holds the scan of `code` under `key`, it still does so after an
/// insertion, provided that what is inserted under `key` is the scan of `code`.
/// So a table that is only ever given the scan of the code that a hash stands for
/// answers every hit with what a fresh scan of that code would give.
pub proof fn lemma_inserted_holds_scan(
    entries: Seq<Entry>,
    entry: Entry,
    budget: nat,
    key: Seq<u8>,
    code: Seq<u8>,
)
    requires
        holds_scan_of(entries, key, code),
        entry.key@ == key ==> entry.item@ == analysis_of(code),
    ensures
        holds_scan_of(inserted(entries, entry, budget), key, code),
{
    let after = inserted(entries, entry, budget);
    lemma_inserted_entries_come_from(entries, entry, budget);
    assert forall|index: int| 0 <= index < after.len() && #[trigger] after[index].key@
        == key implies after[index].item@ == analysis_of(code) by {
        let kept = after[index];
        if kept != entry {
            assert(entries.contains(kept));
            let place = choose|place: int| 0 <= place < entries.len() && entries[place] == kept;
            assert(entries[place].key@ == key);
        }
    }
}

/// The three results that a lookup hands out, as one value.
pub open spec fn handed_out(results: (Arc<Bits>, Arc<Bits>, Arc<SubLengthBits>)) -> CacheItem {
    CacheItem { jump_destination: results.0, sub_entrypoint: results.1, sub_length: results.2 }
}

/// Eight bytes for each bit of room, and `usize::MAX` where that is no `usize`.
fn bytes_for(room: usize) -> (bytes: usize)
    ensures
        bytes == if room * 8 <= usize::MAX {
            room * 8
        } else {
            usize::MAX as int
        },
{
    if room > usize::MAX / 8 {
        usize::MAX
    } else {
        room * 8
    }
}

/// Whether `room` lies above every offset of the set: what is known of the room
/// that a bitmap has storage for.
pub open spec fn lies_above(room: usize, offsets: Set<usize>) -> bool {
    forall|offset: usize| #[trigger] offsets.contains(offset) ==> offset < room
}

/// The number of bytes that an entry is counted for, given the room of its three
/// bitmaps in bits: the size of the three handles and eight bytes for each bit of
/// room, and `usize::MAX` where that sum is no `usize`.
pub open spec fn counted_size(jumps: usize, entries: usize, lengths: usize) -> nat {
    let bytes = vstd::layout::size_of::<CacheItem>() + 8 * jumps + 8 * entries + 8 * lengths;
    if bytes <= usize::MAX {
        bytes as nat
    } else {
        usize::MAX as nat
    }
}

/// Whether `size` is a number of bytes that an entry with these results may be
/// counted for: the counted size for three rooms, each above every offset that
/// its bitmap holds. Which rooms they are is the allocator's to say.
pub open spec fn is_counted_size(item: CacheItem, size: usize) -> bool {
    exists|jumps: usize, entries: usize, lengths: usize|
        {
            &&& lies_above(jumps, item@.jump_destinations)
            &&& lies_above(entries, item@.sub_entrypoints)
            &&& lies_above(lengths, item@.length_bits)
            &&& size == #[trigger] counted_size(jumps, entries, lengths)
        }
}

/// The number of bytes that an entry is counted for whose three bitmaps have room
/// for `jumps`, `entries` and `lengths` bits.
pub fn size_for_rooms(jumps: usize, entries: usize, lengths: usize) -> (size: usize)
    ensures
        size == counted_size(jumps, entries, lengths),
{
    let handles = core::mem::size_of::<CacheItem>();
    handles.saturating_add(bytes_for(jumps)).saturating_add(bytes_for(entries)).saturating_add(
        bytes_for(lengths),
    )
}

/// The number of bytes that an entry with these results is counted for: the three
/// handles, and eight bytes for each bit of room in the three bitmaps. The room is
/// what the allocator gave, so it is known only as a bound above the offsets that
/// each bitmap holds.
fn estimated_size(item: &CacheItem) -> (size: usize)
    ensures
        is_counted_size(*item, size),
{
    let jumps = item.jump_destination.capacity();
    let entries = item.sub_entrypoint.capacity();
    let lengths = item.sub_length.capacity();
    let size = size_for_rooms(jumps, entries, lengths);
    proof {
        assert(lies_above(jumps, item@.jump_destinations));
        assert(lies_above(entries, item@.sub_entrypoints));
        assert(lies_above(lengths, item@.length_bits));
        assert(size == counted_size(jumps, entries, lengths));
    }
    size
}

/// The cache of scan results.
pub struct SharedCache {
    jump_destinations: LruTable,
}

impl View for SharedCache {
    type V = Seq<Entry>;

    /// The entries, from the least recently used to the most recently used.
    closed spec fn view(&self) -> Seq<Entry> {
        self.jump_destinations@
    }
}

impl SharedCache {
    /// The budget: the most that the sizes of the entries may sum to.
    pub closed spec fn budget(&self) -> nat {
        self.jump_destinations.budget()
    }

    #[verifier::type_invariant]
    spec fn keeps_no_empty_code(self) -> bool {
        !has_key(self.jump_destinations@, empty_code_hash())
    }

    /// An empty cache that keeps its entries within `max_size` bytes.
    pub fn new(max_size: usize) -> (cache: SharedCache)
        ensures
            cache@ == Seq::<Entry>::empty(),
            cache.budget() == max_size,
    {
        SharedCache { jump_destinations: LruTable::new(max_size) }
    }

    /// The budget in bytes.
    pub fn max_size(&self) -> (budget: usize)
        ensures
            budget == self.budget(),
    {
        self.jump_destinations.max_size()
    }

    /// The number of entries.
    pub fn len(&self) -> (count: usize)
        ensures
            count == self@.len(),
    {
        self.jump_destinations.len()
    }

    /// The sum of the sizes that the entries are counted for. It is within the
    /// budget, and no entry stands under the hash of empty code, whatever was
    /// looked up or kept before.
    pub fn current_size(&self) -> (size: usize)
        ensures
            size == total_size(self@),
            size <= self.budget(),
            !has_key(self@, empty_code_hash()),
    {
        proof {
            use_type_invariant(&*self);
        }
        self.jump_destinations.current_size()
    }

    /// The key under which a lookup goes by the table, or `None` for a lookup that
    /// leaves the table alone: one under the hash of empty code, which is cheap to
    /// scan anew, and one without a hash.
    pub fn table_key(code_hash: &Option<CodeHash>) -> (key: Option<CodeHash>)
        ensures
            key == if uses_table(*code_hash) {
                *code_hash
            } else {
                None
            },
    {
        match code_hash {
            Some(hash) => if hash.is_empty_code() {
                None
            } else {
                Some(*hash)
            },
            None => None,
        }
    }

    /// The results that the table holds under `code_hash`, shared and not copied;
    /// `None` where it holds none. An entry that is found becomes the most
    /// recently used. Under the hash of empty code nothing is ever found, since
    /// nothing is ever kept there.
    pub fn cached(&mut self, code_hash: &CodeHash) -> (found: Option<CacheItem>)
        ensures
            final(self).budget() == old(self).budget(),
            final(self)@ == touched(old(self)@, code_hash@),
            total_size(final(self)@) <= final(self).budget(),
            !has_key(old(self)@, empty_code_hash()),
            !has_key(final(self)@, empty_code_hash()),
            found is Some == has_key(old(self)@, code_hash@),
            found matches Some(item) ==> item == old(self)@[index_of(
                old(self)@,
                code_hash@,
            )].item,
    {
        proof {
            use_type_invariant(&*self);
            lemma_touched_lacks_key(self@, code_hash@, empty_code_hash());
        }
        let mut table = LruTable::new(0);
        std::mem::swap(&mut table, &mut self.jump_destinations);
        let found = table.get(code_hash);
        self.jump_destinations = table;
        found
    }

    /// Keeps `item` under `code_hash` as the most recently used entry, counted for
    /// a size that is taken from the room of its bitmaps. An entry that stood under
    /// `code_hash` leaves, and the least recently used entries are dropped until
    /// the budget is kept. Under the hash of empty code nothing is kept, and the
    /// table stays as it is.
    pub fn remember(&mut self, code_hash: CodeHash, item: &CacheItem)
        ensures
            final(self).budget() == old(self).budget(),
            total_size(final(self)@) <= final(self).budget(),
            !has_key(final(self)@, empty_code_hash()),
            code_hash@ == empty_code_hash() ==> final(self)@ == old(self)@,
            code_hash@ != empty_code_hash() ==> exists|size: usize|
                is_counted_size(*item, size) && final(self)@ == #[trigger] inserted(
                    old(self)@,
                    (Entry { key: code_hash, item: *item, size }),
                    old(self).budget(),
                ),
    {
        proof {
            use_type_invariant(&*self);
        }
        self.jump_destinations.recall_bounds();
        if code_hash.is_empty_code() {
            return ;
        }
        let size = estimated_size(item);
        proof {
            lemma_inserted_lacks_key(
                self@,
                (Entry { key: code_hash, item: *item, size }),
                self.budget(),
                empty_code_hash(),
            );
        }
        let mut table = LruTable::new(0);
        std::mem::swap(&mut table, &mut self.jump_destinations);
        table.insert(code_hash, item.share(), size);
        self.jump_destinations = table;
        proof {
            assert(self@ == inserted(
                old(self)@,
                (Entry { key: code_hash, item: *item, size }),
                old(self).budget(),
            ));
        }
    }

    /// The jump destinations, the subroutine entries and the bitmap of subroutine
    /// lengths of `code`, whose hash is `code_hash`.
    ///
    /// Under the hash of empty code, and without a hash, the code is scanned and
    /// the table stays as it is. Under any other hash the table answers where it
    /// holds an entry, which becomes the most recently used; where it holds none,
    /// the code is scanned and the results are kept under the hash. What is handed
    /// out is shared with the table.
    pub fn jump_and_sub_destinations(&mut self, code_hash: &Option<CodeHash>, code: &[u8]) -> (results:
        (Arc<Bits>, Arc<Bits>, Arc<SubLengthBits>))
        ensures
            final(self).budget() == old(self).budget(),
            total_size(final(self)@) <= final(self).budget(),
            !uses_table(*code_hash) ==> final(self)@ == old(self)@,
            is_hit(old(self)@, *code_hash) ==> {
                &&& final(self)@ == touched(old(self)@, code_hash.unwrap()@)
                &&& handed_out(results) == old(self)@[index_of(
                    old(self)@,
                    code_hash.unwrap()@,
                )].item
            },
            !is_hit(old(self)@, *code_hash) ==> handed_out(results)@ == analysis_of(code@),
            uses_table(*code_hash) && !is_hit(old(self)@, *code_hash) ==> exists|size: usize|
                is_counted_size(handed_out(results), size) && final(self)@ == #[trigger] inserted(
                    old(self)@,
                    (Entry { key: code_hash.unwrap(), item: handed_out(results), size }),
                    old(self).budget(),
                ),
            !has_key(final(self)@, empty_code_hash()),
            (code_hash matches Some(hash) ==> holds_scan_of(old(self)@, hash@, code@))
                ==> handed_out(results)@ == analysis_of(code@),
            forall|key: Seq<u8>, other: Seq<u8>|
                holds_scan_of(old(self)@, key, other) && (code_hash matches Some(hash) && hash@
                    == key ==> other == code@) ==> #[trigger] holds_scan_of(
                    final(self)@,
                    key,
                    other,
                ),
    {
        let ghost before = self@;
        proof {
            use_type_invariant(&*self);
        }
        self.jump_destinations.recall_bounds();
        let key = Self::table_key(code_hash);
        if let Some(hash) = &key {
            if let Some(item) = self.cached(hash) {
                proof {
                    let index = index_of(before, hash@);
                    assert(0 <= index < before.len() && before[index].key@ == hash@);
                    assert forall|key: Seq<u8>, other: Seq<u8>|
                        holds_scan_of(before, key, other) implies #[trigger] holds_scan_of(
                        self@,
                        key,
                        other,
                    ) by {
                        lemma_touched_holds_scan(before, hash@, key, other);
                    }
                }
                return (item.jump_destination, item.sub_entrypoint, item.sub_length);
            }
        }
        let item = Self::find_jump_and_sub_destinations(code);
        let ghost kept = item;
        if let Some(hash) = key {
            self.remember(hash, &item);
        }
        let results = (item.jump_destination, item.sub_entrypoint, item.sub_length);
        proof {
            assert(handed_out(results) == kept);
            if let Some(hash) = key {
                let size = choose|size: usize|
                    is_counted_size(kept, size) && self@ == #[trigger] inserted(
                        before,
                        (Entry { key: hash, item: kept, size }),
                        old(self).budget(),
                    );
                assert(self@ == inserted(
                    before,
                    (Entry { key: code_hash.unwrap(), item: handed_out(results), size }),
                    old(self).budget(),
                ));
                assert forall|key: Seq<u8>, other: Seq<u8>|
                    holds_scan_of(before, key, other) && (hash@ == key ==> other
                        == code@) implies #[trigger] holds_scan_of(self@, key, other) by {
                    lemma_inserted_holds_scan(
                        before,
                        (Entry { key: hash, item: kept, size }),
                        old(self).budget(),
                        key,
                        other,
                    );
                }
            }
        }
        results
    }
}

impl Default for SharedCache {
    /// An empty cache with the default budget.
    fn default() -> (cache: SharedCache)
        ensures
            cache@ == Seq::<Entry>::empty(),
            cache.budget() == DEFAULT_CACHE_SIZE,
    {
        SharedCache::new(DEFAULT_CACHE_SIZE)
    }
}

} // verus!

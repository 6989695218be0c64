//! The table of the cache: entries in the order of their last use, held to a
//! budget of bytes.
//!
//! Each entry comes with the number of bytes it is counted for. An insertion that
//! takes the sum over the budget drops entries, the least recently used first,
//! until the sum fits again; an entry that alone is over the budget does not stay.

use crate::analysis::CacheItem;
use crate::code_hash::CodeHash;
use vstd::prelude::*;

verus! {

/// One entry of the table.
pub struct Entry {
    /// The hash of the program.
    pub key: CodeHash,
    /// The results of the program's scan.
    pub item: CacheItem,
    /// The number of bytes that the entry is counted for.
    pub size: usize,
}

/// The sum of the sizes of the entries.
pub open spec fn total_size(entries: Seq<Entry>) -> nat
    decreases entries.len(),
{
    if entries.len() == 0 {
        0
    } else {
        total_size(entries.drop_last()) + entries.last().size as nat
    }
}

/// Whether an entry stands under `key`.
pub open spec fn has_key(entries: Seq<Entry>, key: Seq<u8>) -> bool {
    exists|index: int| 0 <= index < entries.len() && #[trigger] entries[index].key@ == key
}

/// The place of an entry under `key`, where there is one.
pub open spec fn index_of(entries: Seq<Entry>, key: Seq<u8>) -> int {
    choose|index: int| 0 <= index < entries.len() && #[trigger] entries[index].key@ == key
}

/// Whether no two entries stand under the same key.
pub open spec fn distinct_keys(entries: Seq<Entry>) -> bool {
    forall|i: int, j: int|
        0 <= i < j < entries.len() ==> #[trigger] entries[i].key@ != #[trigger] entries[j].key@
}

/// The entries without the one under `key`.
pub open spec fn without_key(entries: Seq<Entry>, key: Seq<u8>) -> Seq<Entry> {
    if has_key(entries, key) {
        entries.remove(index_of(entries, key))
    } else {
        entries
    }
}

/// The entries after a use of the one under `key`: it has become the most
/// recently used, and the others keep their order.
pub open spec fn touched(entries: Seq<Entry>, key: Seq<u8>) -> Seq<Entry> {
    if has_key(entries, key) {
        let index = index_of(entries, key);
        entries.remove(index).push(entries[index])
    } else {
        entries
    }
}

/// What stays of the entries under a budget: the least recently used are dropped,
/// one after the other, until the sum of the sizes is within the budget.
pub open spec fn fit(entries: Seq<Entry>, budget: nat) -> Seq<Entry>
    decreases entries.len(),
{
    if total_size(entries) <= budget || entries.len() == 0 {
        entries
    } else {
        fit(entries.drop_first(), budget)
    }
}

/// The entries after an insertion: the new entry takes the place of one under the
/// same key and becomes the most recently used; then the table is held to its
/// budget.
pub open spec fn inserted(entries: Seq<Entry>, entry: Entry, budget: nat) -> Seq<Entry> {
    fit(without_key(entries, entry.key@).push(entry), budget)
}

/// Another entry adds its size to the sum.
pub proof fn lemma_total_size_push(entries: Seq<Entry>, entry: Entry)
    ensures
        total_size(entries.push(entry)) == total_size(entries) + entry.size,
{
    assert(entries.push(entry).drop_last() =~= entries);
}

/// An entry that leaves takes its size from the sum.
pub proof fn lemma_total_size_remove(entries: Seq<Entry>, index: int)
    requires
        0 <= index < entries.len(),
    ensures
        total_size(entries.remove(index)) == total_size(entries) - entries[index].size,
    decreases entries.len(),
{
    if index == entries.len() - 1 {
        assert(entries.remove(index) =~= entries.drop_last());
    } else {
        lemma_total_size_remove(entries.drop_last(), index);
        assert(entries.remove(index).drop_last() =~= entries.drop_last().remove(index));
    }
}

/// The first entries sum to no more than all of them.
pub proof fn lemma_total_size_prefix(entries: Seq<Entry>, count: int)
    requires
        0 <= count <= entries.len(),
    ensures
        total_size(entries.take(count)) <= total_size(entries),
    decreases entries.len(),
{
    if count == entries.len() {
        assert(entries.take(count) =~= entries);
    } else {
        lemma_total_size_prefix(entries.drop_last(), count);
        assert(entries.drop_last().take(count) =~= entries.take(count));
    }
}

/// With distinct keys, the entry under a key is where any entry under that key
/// is found.
pub proof fn lemma_index_of_is(entries: Seq<Entry>, key: Seq<u8>, index: int)
    requires
        distinct_keys(entries),
        0 <= index < entries.len(),
        entries[index].key@ == key,
    ensures
        has_key(entries, key),
        index_of(entries, key) == index,
{
    let chosen = index_of(entries, key);
    assert(0 <= chosen < entries.len() && entries[chosen].key@ == key);
    if chosen < index {
        assert(entries[chosen].key@ != entries[index].key@);
    } else if index < chosen {
        assert(entries[index].key@ != entries[chosen].key@);
    }
}

/// What stays under a budget is within the budget, and it is the end of what was
/// there: the most recently used entries, in their order.
pub proof fn lemma_fit_is_suffix(entries: Seq<Entry>, budget: nat)
    ensures
        total_size(fit(entries, budget)) <= budget,
        exists|dropped: int|
            0 <= dropped <= entries.len() && fit(entries, budget) == #[trigger] entries.skip(
                dropped,
            ),
    decreases entries.len(),
{
    if total_size(entries) <= budget || entries.len() == 0 {
        assert(entries.skip(0) =~= entries);
    } else {
        let rest = entries.drop_first();
        lemma_fit_is_suffix(rest, budget);
        let dropped = choose|dropped: int|
            0 <= dropped <= rest.len() && fit(rest, budget) == #[trigger] rest.skip(dropped);
        assert(rest.skip(dropped) =~= entries.skip(dropped + 1));
    }
}

/// The entries after one insertion after the other.
pub open spec fn after_insertions(entries: Seq<Entry>, added: Seq<Entry>, budget: nat) -> Seq<
    Entry,
>
    decreases added.len(),
{
    if added.len() == 0 {
        entries
    } else {
        inserted(after_insertions(entries, added.drop_last(), budget), added.last(), budget)
    }
}

/// The budget is kept: whatever is inserted, and in whatever order, the sizes of
/// the entries that stay sum to no more than the budget.
pub proof fn lemma_insertions_keep_budget(entries: Seq<Entry>, added: Seq<Entry>, budget: nat)
    requires
        total_size(entries) <= budget || added.len() > 0,
    ensures
        total_size(after_insertions(entries, added, budget)) <= budget,
{
    if added.len() > 0 {
        let earlier = after_insertions(entries, added.drop_last(), budget);
        lemma_fit_is_suffix(without_key(earlier, added.last().key@).push(added.last()), budget);
    }
}

/// An entry that fits the budget by itself is in the table after its insertion,
/// as the most recently used.
pub proof fn lemma_inserted_is_last(entries: Seq<Entry>, entry: Entry, budget: nat)
    requires
        entry.size <= budget,
    ensures
        inserted(entries, entry, budget).len() > 0,
        inserted(entries, entry, budget).last() == entry,
        has_key(inserted(entries, entry, budget), entry.key@),
{
    lemma_fit_push(without_key(entries, entry.key@), entry, budget);
    let after = inserted(entries, entry, budget);
    assert(after[after.len() - 1].key@ == entry.key@);
}

/// Every entry that is in the table after an insertion is the new entry or was
/// there before.
pub proof fn lemma_inserted_entries_come_from(entries: Seq<Entry>, entry: Entry, budget: nat)
    ensures
        forall|index: int|
            0 <= index < inserted(entries, entry, budget).len() ==> {
                let kept = #[trigger] inserted(entries, entry, budget)[index];
                kept == entry || entries.contains(kept)
            },
{
    let cleared = without_key(entries, entry.key@);
    let more = cleared.push(entry);
    let after = inserted(entries, entry, budget);
    lemma_fit_is_suffix(more, budget);
    let dropped = choose|dropped: int|
        0 <= dropped <= more.len() && fit(more, budget) == #[trigger] more.skip(dropped);
    assert forall|index: int| 0 <= index < after.len() implies {
        let kept = #[trigger] after[index];
        kept == entry || entries.contains(kept)
    } by {
        let kept = after[index];
        let place = index + dropped;
        assert(kept == more[place]);
        if place < cleared.len() {
            if has_key(entries, entry.key@) {
                let gone = index_of(entries, entry.key@);
                if place < gone {
                    assert(entries[place] == kept);
                } else {
                    assert(entries[place + 1] == kept);
                }
            } else {
                assert(entries[place] == kept);
            }
        }
    }
}

/// Every entry that is in the table after a use was there before.
pub proof fn lemma_touched_entries_come_from(entries: Seq<Entry>, used: Seq<u8>)
    ensures
        forall|index: int|
            0 <= index < touched(entries, used).len() ==> entries.contains(
                #[trigger] touched(entries, used)[index],
            ),
{
    let moved = touched(entries, used);
    assert forall|index: int| 0 <= index < moved.len() implies entries.contains(
        #[trigger] moved[index],
    ) by {
        if has_key(entries, used) {
            let place = index_of(entries, used);
            if index == moved.len() - 1 {
                assert(entries[place] == moved[index]);
            } else if index < place {
                assert(entries[index] == moved[index]);
            } else {
                assert(entries[index + 1] == moved[index]);
            }
        } else {
            assert(entries[index] == moved[index]);
        }
    }
}

/// A key that the table does not hold is not held after an insertion under
/// another key.
pub proof fn lemma_inserted_lacks_key(entries: Seq<Entry>, entry: Entry, budget: nat, key: Seq<u8>)
    requires
        !has_key(entries, key),
        entry.key@ != key,
    ensures
        !has_key(inserted(entries, entry, budget), key),
{
    let after = inserted(entries, entry, budget);
    lemma_inserted_entries_come_from(entries, entry, budget);
    if has_key(after, key) {
        let index = index_of(after, key);
        let kept = after[index];
        assert(entries.contains(kept));
        let place = choose|place: int| 0 <= place < entries.len() && entries[place] == kept;
        assert(entries[place].key@ == key);
    }
}

/// A key that the table does not hold is not held after a use of an entry.
pub proof fn lemma_touched_lacks_key(entries: Seq<Entry>, used: Seq<u8>, key: Seq<u8>)
    requires
        !has_key(entries, key),
    ensures
        !has_key(touched(entries, used), key),
{
    let after = touched(entries, used);
    lemma_touched_entries_come_from(entries, used);
    if has_key(after, key) {
        let index = index_of(after, key);
        let kept = after[index];
        assert(entries.contains(kept));
        let place = choose|place: int| 0 <= place < entries.len() && entries[place] == kept;
        assert(entries[place].key@ == key);
    }
}

/// Making room first and adding then is the same as adding first and dropping
/// then, for an entry that fits the budget by itself.
pub proof fn lemma_fit_push(entries: Seq<Entry>, entry: Entry, budget: nat)
    requires
        entry.size <= budget,
    ensures
        fit(entries.push(entry), budget) == fit(entries, (budget - entry.size) as nat).push(entry),
    decreases entries.len(),
{
    lemma_total_size_push(entries, entry);
    if total_size(entries) + entry.size > budget {
        assert(entries.len() > 0);
        assert(entries.push(entry).drop_first() =~= entries.drop_first().push(entry));
        lemma_fit_push(entries.drop_first(), entry, budget);
    }
}

/// An entry that alone is over the budget empties the table and does not stay.
pub proof fn lemma_fit_oversize(entries: Seq<Entry>, entry: Entry, budget: nat)
    requires
        entry.size > budget,
    ensures
        fit(entries.push(entry), budget) == Seq::<Entry>::empty(),
    decreases entries.len(),
{
    lemma_total_size_push(entries, entry);
    if entries.len() == 0 {
        assert(entries.push(entry).drop_first() =~= Seq::<Entry>::empty());
        assert(fit(Seq::<Entry>::empty(), budget) == Seq::<Entry>::empty());
    } else {
        assert(entries.push(entry).drop_first() =~= entries.drop_first().push(entry));
        lemma_fit_oversize(entries.drop_first(), entry, budget);
    }
}

/// The place of the entry under `key`, or `None` where there is none.
fn find(entries: &Vec<Entry>, key: &CodeHash) -> (found: Option<usize>)
    ensures
        found matches Some(index) ==> index < entries@.len() && entries@[index as int].key@
            == key@,
        found is None ==> !has_key(entries@, key@),
{
    let mut index: usize = 0;
    while index < entries.len()
        invariant
            index <= entries@.len(),
            forall|i: int| 0 <= i < index ==> entries@[i].key@ != key@,
        decreases entries@.len() - index,
    {
        if entries[index].key.same_as(key) {
            return Some(index);
        }
        index += 1;
    }
    None
}

/// The sum of the sizes of the entries.
fn sum_of_sizes(entries: &Vec<Entry>) -> (sum: usize)
    requires
        total_size(entries@) <= usize::MAX,
    ensures
        sum == total_size(entries@),
{
    let mut sum: usize = 0;
    let mut index: usize = 0;
    proof {
        assert(entries@.take(0) =~= Seq::<Entry>::empty());
    }
    while index < entries.len()
        invariant
            index <= entries@.len(),
            sum == total_size(entries@.take(index as int)),
            total_size(entries@) <= usize::MAX,
        decreases entries@.len() - index,
    {
        proof {
            lemma_total_size_prefix(entries@, index + 1);
            assert(entries@.take(index + 1).drop_last() =~= entries@.take(index as int));
        }
        sum += entries[index].size;
        index += 1;
    }
    proof {
        assert(entries@.take(index as int) =~= entries@);
    }
    sum
}

/// A table of scan results under their hashes, in the order of their last use
/// and held to a budget of bytes. No two entries stand under one hash, and the
/// sizes of the entries never sum to more than the budget.
pub struct LruTable {
    entries: Vec<Entry>,
    max_size: usize,
}

impl View for LruTable {
    type V = Seq<Entry>;

    /// The entries, from the least recently used to the most recently used.
    closed spec fn view(&self) -> Seq<Entry> {
        self.entries@
    }
}

impl LruTable {
    /// The budget: the most that the sizes of the entries may sum to.
    pub closed spec fn budget(&self) -> nat {
        self.max_size as nat
    }

    #[verifier::type_invariant]
    spec fn within_budget(self) -> bool {
        distinct_keys(self.entries@) && total_size(self.entries@) <= self.max_size
    }

    /// An empty table with a budget of `max_size` bytes.
    pub fn new(max_size: usize) -> (table: LruTable)
        ensures
            table@ == Seq::<Entry>::empty(),
            table.budget() == max_size,
    {
        LruTable { entries: Vec::new(), max_size }
    }

    /// The budget in bytes.
    pub fn max_size(&self) -> (budget: usize)
        ensures
            budget == self.budget(),
    {
        self.max_size
    }

    /// The number of entries.
    pub fn len(&self) -> (count: usize)
        ensures
            count == self@.len(),
    {
        self.entries.len()
    }

    /// What holds of every table: the keys are distinct and the sizes sum to no
    /// more than the budget. The call computes nothing; it hands these two facts to
    /// the proof of the caller.
    pub fn recall_bounds(&self)
        ensures
            distinct_keys(self@),
            total_size(self@) <= self.budget(),
    {
        proof {
            use_type_invariant(&*self);
        }
    }

    /// The sum of the sizes of the entries.
    pub fn current_size(&self) -> (size: usize)
        ensures
            size == total_size(self@),
            size <= self.budget(),
    {
        proof {
            use_type_invariant(&*self);
        }
        sum_of_sizes(&self.entries)
    }

    /// Looks up the entry under `key`. Where there is one, its results are handed
    /// out, shared and not copied, and the entry becomes the most recently used;
    /// where there is none, the table stays as it is.
    pub fn get(&mut self, key: &CodeHash) -> (found: Option<CacheItem>)
        ensures
            final(self).budget() == old(self).budget(),
            final(self)@ == touched(old(self)@, key@),
            total_size(final(self)@) <= final(self).budget(),
            found is Some == has_key(old(self)@, key@),
            found matches Some(item) ==> item == old(self)@[index_of(old(self)@, key@)].item,
    {
        proof {
            use_type_invariant(&*self);
        }
        match find(&self.entries, key) {
            None => None,
            Some(index) => {
                let ghost before = self.entries@;
                let mut entries = Vec::new();
                std::mem::swap(&mut entries, &mut self.entries);
                let entry = entries.remove(index);
                let item = entry.item.share();
                entries.push(entry);
                proof {
                    lemma_index_of_is(before, key@, index as int);
                    lemma_total_size_remove(before, index as int);
                    lemma_total_size_push(before.remove(index as int), before[index as int]);
                    lemma_touch_keeps_keys_distinct(before, index as int);
                }
                self.entries = entries;
                Some(item)
            },
        }
    }

    /// Puts `item` under `key`, counted for `size` bytes, as the most recently
    /// used entry. An entry that stood under `key` leaves. Then entries are
    /// dropped, the least recently used first, until the sizes sum to no more than
    /// the budget: a `size` over the budget leaves the table empty.
    pub fn insert(&mut self, key: CodeHash, item: CacheItem, size: usize)
        ensures
            final(self).budget() == old(self).budget(),
            final(self)@ == inserted(old(self)@, (Entry { key, item, size }), old(self).budget()),
            total_size(final(self)@) <= final(self).budget(),
    {
        proof {
            use_type_invariant(&*self);
        }
        let ghost before = self.entries@;
        let ghost entry = Entry { key, item, size };
        let budget = self.max_size;
        let mut entries = Vec::new();
        std::mem::swap(&mut entries, &mut self.entries);
        match find(&entries, &key) {
            None => {},
            Some(index) => {
                entries.remove(index);
                proof {
                    lemma_index_of_is(before, key@, index as int);
                    lemma_total_size_remove(before, index as int);
                    lemma_remove_keeps_keys_distinct(before, index as int);
                    assert(!has_key(entries@, key@)) by {
                        if has_key(entries@, key@) {
                            let other = index_of(entries@, key@);
                            if other < index {
                                assert(before[other].key@ != before[index as int].key@);
                            } else {
                                assert(before[index as int].key@ != before[other + 1].key@);
                            }
                        }
                    }
                }
            },
        }
        let ghost cleared = entries@;
        assert(cleared == without_key(before, key@));
        if size > budget {
            proof {
                lemma_fit_oversize(cleared, entry, budget as nat);
            }
        } else {
            let room = budget - size;
            let mut total = sum_of_sizes(&entries);
            while total > room
                invariant
                    total == total_size(entries@),
                    distinct_keys(entries@),
                    !has_key(entries@, key@),
                    fit(entries@, room as nat) == fit(cleared, room as nat),
                decreases entries@.len(),
            {
                let ghost longer = entries@;
                let evicted = entries.remove(0);
                proof {
                    lemma_total_size_remove(longer, 0);
                }
                total -= evicted.size;
                proof {
                    assert(entries@ =~= longer.drop_first());
                    lemma_remove_keeps_keys_distinct(longer, 0);
                    assert(!has_key(entries@, key@)) by {
                        if has_key(entries@, key@) {
                            let other = index_of(entries@, key@);
                            assert(longer[other + 1].key@ == key@);
                        }
                    }
                }
            }
            proof {
                lemma_fit_push(cleared, entry, budget as nat);
                lemma_total_size_push(entries@, entry);
                lemma_push_keeps_keys_distinct(entries@, entry);
            }
            entries.push(Entry { key, item, size });
            self.entries = entries;
        }
    }
}

/// Taking an entry out leaves the keys distinct.
pub proof fn lemma_remove_keeps_keys_distinct(entries: Seq<Entry>, index: int)
    requires
        distinct_keys(entries),
        0 <= index < entries.len(),
    ensures
        distinct_keys(entries.remove(index)),
{
    let rest = entries.remove(index);
    assert forall|i: int, j: int| 0 <= i < j < rest.len() implies #[trigger] rest[i].key@
        != #[trigger] rest[j].key@ by {
        let from_i = if i < index {
            i
        } else {
            i + 1
        };
        let from_j = if j < index {
            j
        } else {
            j + 1
        };
        assert(entries[from_i].key@ != entries[from_j].key@);
    }
}

/// An entry under a key that is new to the table leaves the keys distinct.
pub proof fn lemma_push_keeps_keys_distinct(entries: Seq<Entry>, entry: Entry)
    requires
        distinct_keys(entries),
        !has_key(entries, entry.key@),
    ensures
        distinct_keys(entries.push(entry)),
{
    let more = entries.push(entry);
    assert forall|i: int, j: int| 0 <= i < j < more.len() implies #[trigger] more[i].key@
        != #[trigger] more[j].key@ by {
        if j == entries.len() {
            assert(entries[i].key@ != entry.key@);
        } else {
            assert(entries[i].key@ != entries[j].key@);
        }
    }
}

/// Moving an entry to the end leaves the keys distinct.
pub proof fn lemma_touch_keeps_keys_distinct(entries: Seq<Entry>, index: int)
    requires
        distinct_keys(entries),
        0 <= index < entries.len(),
    ensures
        distinct_keys(entries.remove(index).push(entries[index])),
{
    let rest = entries.remove(index);
    lemma_remove_keeps_keys_distinct(entries, index);
    assert(!has_key(rest, entries[index].key@)) by {
        if has_key(rest, entries[index].key@) {
            let other = index_of(rest, entries[index].key@);
            if other < index {
                assert(entries[other].key@ != entries[index].key@);
            } else {
                assert(entries[index].key@ != entries[other + 1].key@);
            }
        }
    }
    lemma_push_keeps_keys_distinct(rest, entries[index]);
}

} // verus!

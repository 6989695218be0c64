use evm_shared_cache::code_hash::CodeHash;
use evm_shared_cache::lru::LruTable;
use evm_shared_cache::analysis::CacheItem;
use evm_shared_cache::shared_cache::{size_for_rooms, SharedCache, DEFAULT_CACHE_SIZE};
use std::sync::Arc;

const CODE: [u8; 10] = [0x60, 0x06, 0x56, 0x60, 0x5b, 0x56, 0x5b, 0x60, 0x04, 0x56];
const OTHER_CODE: [u8; 3] = [0x5b, 0xcc, 0x5c];

fn hash(tag: u8) -> CodeHash {
    CodeHash::new([tag; 32])
}

#[test]
fn empty_code_hash_is_the_keccak_of_nothing() {
    let empty = CodeHash::of_empty_code();
    assert_eq!(empty.to_bytes(), keccak_hash::keccak(&[0u8; 0]).0);
    assert_eq!(empty.to_bytes(), keccak_hash::KECCAK_EMPTY.0);
    assert_eq!(empty.to_bytes()[0], 0xc5);
    assert_eq!(empty.to_bytes()[31], 0x70);
    assert!(empty.is_empty_code());
    assert!(!hash(0).is_empty_code());
    let mut almost = empty.to_bytes();
    almost[31] = 0x71;
    assert!(!CodeHash::new(almost).is_empty_code());
}

#[test]
fn hashes_compare_by_their_bytes() {
    assert!(hash(1).same_as(&hash(1)));
    assert!(!hash(1).same_as(&hash(2)));
    let mut bytes = [7u8; 32];
    bytes[31] = 8;
    assert!(!hash(7).same_as(&CodeHash::new(bytes)));
    assert_eq!(CodeHash::new(bytes).to_bytes(), bytes);
}

#[test]
fn new_cache_is_empty_with_its_budget() {
    let cache = SharedCache::new(1234);
    assert_eq!(cache.len(), 0);
    assert_eq!(cache.current_size(), 0);
    assert_eq!(cache.max_size(), 1234);
    let default = SharedCache::default();
    assert_eq!(default.max_size(), 4 * 1024 * 1024);
    assert_eq!(DEFAULT_CACHE_SIZE, 4194304);
    assert_eq!(default.len(), 0);
}

#[test]
fn miss_scans_and_keeps_the_results() {
    let mut cache = SharedCache::default();
    let (jumps, entries, lengths) = cache.jump_and_sub_destinations(&Some(hash(1)), &CODE);
    assert_eq!(jumps.to_vec(), vec![6]);
    assert!(entries.is_empty());
    assert_eq!(lengths.find_length(0, &entries), 10);
    assert_eq!(cache.len(), 1);
    assert!(cache.current_size() > 0);
    assert!(cache.current_size() <= cache.max_size());
}

#[test]
fn hit_hands_out_what_the_table_holds() {
    let mut cache = SharedCache::default();
    let first = cache.jump_and_sub_destinations(&Some(hash(1)), &CODE);
    let second = cache.jump_and_sub_destinations(&Some(hash(1)), &CODE);
    assert!(Arc::ptr_eq(&first.0, &second.0));
    assert!(Arc::ptr_eq(&first.1, &second.1));
    assert!(Arc::ptr_eq(&first.2, &second.2));
    assert_eq!(cache.len(), 1);
}

#[test]
fn hit_equals_a_fresh_scan() {
    let mut cache = SharedCache::default();
    cache.jump_and_sub_destinations(&Some(hash(1)), &OTHER_CODE);
    let hit = cache.jump_and_sub_destinations(&Some(hash(1)), &OTHER_CODE);
    let fresh = SharedCache::find_jump_and_sub_destinations(&OTHER_CODE);
    assert_eq!(hit.0.to_vec(), fresh.jump_destination.to_vec());
    assert_eq!(hit.1.to_vec(), fresh.sub_entrypoint.to_vec());
    assert_eq!(hit.0.to_vec(), vec![0]);
    assert_eq!(hit.1.to_vec(), vec![2]);
    for start in 0..4 {
        assert_eq!(
            hit.2.find_length(start, &hit.1),
            fresh.sub_length.find_length(start, &fresh.sub_entrypoint)
        );
    }
}

#[test]
fn hit_goes_by_the_hash_alone() {
    let mut cache = SharedCache::default();
    cache.jump_and_sub_destinations(&Some(hash(1)), &CODE);
    let hit = cache.jump_and_sub_destinations(&Some(hash(1)), &OTHER_CODE);
    assert_eq!(hit.0.to_vec(), vec![6]);
}

#[test]
fn empty_code_hash_never_fills_the_table() {
    let mut cache = SharedCache::default();
    let empty = Some(CodeHash::of_empty_code());
    let first = cache.jump_and_sub_destinations(&empty, &[]);
    let second = cache.jump_and_sub_destinations(&empty, &[]);
    let third = cache.jump_and_sub_destinations(&empty, &CODE);
    assert_eq!(cache.len(), 0);
    assert_eq!(cache.current_size(), 0);
    assert!(!Arc::ptr_eq(&first.0, &second.0));
    assert!(first.0.is_empty());
    assert_eq!(third.0.to_vec(), vec![6]);
}

#[test]
fn empty_code_hash_leaves_other_entries_alone() {
    let mut cache = SharedCache::default();
    cache.jump_and_sub_destinations(&Some(hash(1)), &CODE);
    let size = cache.current_size();
    cache.jump_and_sub_destinations(&Some(CodeHash::of_empty_code()), &[]);
    assert_eq!(cache.len(), 1);
    assert_eq!(cache.current_size(), size);
}

#[test]
fn lookup_without_a_hash_never_fills_the_table() {
    let mut cache = SharedCache::default();
    let first = cache.jump_and_sub_destinations(&None, &CODE);
    let second = cache.jump_and_sub_destinations(&None, &CODE);
    assert_eq!(cache.len(), 0);
    assert!(!Arc::ptr_eq(&first.0, &second.0));
    assert_eq!(first.0.to_vec(), vec![6]);
    assert_eq!(second.0.to_vec(), vec![6]);
}

#[test]
fn cache_without_budget_keeps_nothing() {
    let mut cache = SharedCache::new(0);
    let results = cache.jump_and_sub_destinations(&Some(hash(1)), &CODE);
    assert_eq!(results.0.to_vec(), vec![6]);
    assert_eq!(cache.len(), 0);
    assert_eq!(cache.current_size(), 0);
}

#[test]
fn budget_is_kept_over_many_insertions() {
    let mut single = SharedCache::default();
    single.jump_and_sub_destinations(&Some(hash(0)), &CODE);
    let one = single.current_size();
    assert!(one > 0);

    let mut cache = SharedCache::new(2 * one + one / 2);
    for tag in 1..50u8 {
        cache.jump_and_sub_destinations(&Some(hash(tag)), &CODE);
        assert!(cache.current_size() <= cache.max_size());
        assert!(cache.len() <= 2);
    }
    assert_eq!(cache.len(), 2);
    assert_eq!(cache.current_size(), 2 * one);
    assert!(cache.cached(&hash(47)).is_none());
    assert!(cache.cached(&hash(48)).is_some());
    assert!(cache.cached(&hash(49)).is_some());
}

#[test]
fn least_recently_used_entry_leaves_first() {
    let mut single = SharedCache::default();
    single.jump_and_sub_destinations(&Some(hash(0)), &CODE);
    let one = single.current_size();

    let mut cache = SharedCache::new(2 * one);
    cache.jump_and_sub_destinations(&Some(hash(1)), &CODE);
    cache.jump_and_sub_destinations(&Some(hash(2)), &CODE);
    // A hit makes the first entry the most recently used.
    cache.jump_and_sub_destinations(&Some(hash(1)), &CODE);
    cache.jump_and_sub_destinations(&Some(hash(3)), &CODE);
    assert_eq!(cache.len(), 2);
    assert!(cache.cached(&hash(2)).is_none());
    assert!(cache.cached(&hash(1)).is_some());
    assert!(cache.cached(&hash(3)).is_some());
}

#[test]
fn remember_and_cached_share_the_results() {
    let mut cache = SharedCache::default();
    let item = SharedCache::find_jump_and_sub_destinations(&CODE);
    assert!(cache.cached(&hash(9)).is_none());
    cache.remember(hash(9), &item);
    let found = cache.cached(&hash(9)).unwrap();
    assert!(Arc::ptr_eq(&found.jump_destination, &item.jump_destination));
    assert!(Arc::ptr_eq(&found.sub_length, &item.sub_length));
    let copy = item.share();
    assert!(Arc::ptr_eq(&copy.sub_entrypoint, &item.sub_entrypoint));
    assert_eq!(cache.len(), 1);
}

#[test]
fn table_drops_the_oldest_entries_to_keep_its_budget() {
    let mut table = LruTable::new(10);
    let item = SharedCache::find_jump_and_sub_destinations(&CODE);
    table.insert(hash(1), item.share(), 4);
    table.insert(hash(2), item.share(), 4);
    assert_eq!(table.len(), 2);
    assert_eq!(table.current_size(), 8);
    table.insert(hash(3), item.share(), 4);
    assert_eq!(table.len(), 2);
    assert_eq!(table.current_size(), 8);
    assert!(table.get(&hash(1)).is_none());
    assert!(table.get(&hash(2)).is_some());
    // The entry under 2 was just used, so the entry under 3 leaves first.
    table.insert(hash(4), item.share(), 6);
    assert_eq!(table.len(), 2);
    assert_eq!(table.current_size(), 10);
    assert!(table.get(&hash(3)).is_none());
    assert!(table.get(&hash(2)).is_some());
    assert!(table.get(&hash(4)).is_some());
    assert_eq!(table.max_size(), 10);
}

#[test]
fn table_replaces_the_entry_under_the_same_key() {
    let mut table = LruTable::new(10);
    let first = SharedCache::find_jump_and_sub_destinations(&CODE);
    let second = SharedCache::find_jump_and_sub_destinations(&OTHER_CODE);
    table.insert(hash(1), first.share(), 4);
    table.insert(hash(1), second.share(), 6);
    assert_eq!(table.len(), 1);
    assert_eq!(table.current_size(), 6);
    let found = table.get(&hash(1)).unwrap();
    assert!(Arc::ptr_eq(&found.jump_destination, &second.jump_destination));
}

#[test]
fn table_does_not_keep_an_entry_over_its_budget() {
    let mut table = LruTable::new(10);
    let item = SharedCache::find_jump_and_sub_destinations(&CODE);
    table.insert(hash(1), item.share(), 4);
    table.insert(hash(2), item.share(), 11);
    assert_eq!(table.len(), 0);
    assert_eq!(table.current_size(), 0);
    table.insert(hash(3), item.share(), 10);
    assert_eq!(table.len(), 1);
    assert_eq!(table.current_size(), 10);
    table.recall_bounds();
}

#[test]
fn table_key_leaves_out_empty_code_and_missing_hashes() {
    assert_eq!(SharedCache::table_key(&None), None);
    assert_eq!(SharedCache::table_key(&Some(CodeHash::of_empty_code())), None);
    assert_eq!(SharedCache::table_key(&Some(hash(3))), Some(hash(3)));
    assert_eq!(SharedCache::table_key(&Some(hash(0))), Some(hash(0)));
}

#[test]
fn size_is_the_handles_and_eight_bytes_for_each_bit_of_room() {
    let handles = std::mem::size_of::<CacheItem>();
    assert_eq!(size_for_rooms(0, 0, 0), handles);
    assert_eq!(size_for_rooms(1, 0, 0), handles + 8);
    assert_eq!(size_for_rooms(32, 64, 96), handles + 8 * 192);
    assert_eq!(size_for_rooms(3, 5, 7), handles + 24 + 40 + 56);
}

#[test]
fn size_is_held_to_the_greatest_number() {
    assert_eq!(size_for_rooms(usize::MAX, 0, 0), usize::MAX);
    assert_eq!(size_for_rooms(0, usize::MAX / 8 + 1, 0), usize::MAX);
    assert_eq!(size_for_rooms(usize::MAX / 8, 0, 1), usize::MAX);
    assert_eq!(size_for_rooms(usize::MAX / 16, usize::MAX / 16, 2), usize::MAX);
}

#[test]
fn entry_is_counted_for_the_room_of_its_bitmaps() {
    let mut cache = SharedCache::default();
    let item = SharedCache::find_jump_and_sub_destinations(&CODE);
    cache.remember(hash(1), &item);
    let counted = size_for_rooms(
        item.jump_destination.capacity(),
        item.sub_entrypoint.capacity(),
        item.sub_length.capacity(),
    );
    assert_eq!(cache.current_size(), counted);
    assert!(counted > std::mem::size_of::<CacheItem>());
}

#[test]
fn nothing_is_kept_under_the_hash_of_empty_code() {
    let mut cache = SharedCache::default();
    let item = SharedCache::find_jump_and_sub_destinations(&[]);
    cache.remember(CodeHash::of_empty_code(), &item);
    assert_eq!(cache.len(), 0);
    assert_eq!(cache.current_size(), 0);
    assert!(cache.cached(&CodeHash::of_empty_code()).is_none());

    cache.remember(hash(1), &item);
    let size = cache.current_size();
    cache.remember(CodeHash::of_empty_code(), &item);
    assert_eq!(cache.len(), 1);
    assert_eq!(cache.current_size(), size);
    assert!(cache.cached(&CodeHash::of_empty_code()).is_none());
    assert!(cache.cached(&hash(1)).is_some());
}

use evm_shared_cache::analysis::CacheItem;
use evm_shared_cache::bits::Bits;
use evm_shared_cache::instructions::Instruction;
use evm_shared_cache::shared_cache::SharedCache;
use rustc_hex::FromHex;

fn hex(text: &str) -> Vec<u8> {
    text.from_hex::<Vec<u8>>().unwrap()
}

fn bits_of(offsets: &[usize]) -> Bits {
    let mut bits = Bits::with_capacity(0);
    for offset in offsets {
        bits.insert(*offset);
    }
    bits
}

fn scan(text: &str) -> CacheItem {
    SharedCache::find_jump_and_sub_destinations(&hex(text))
}

#[test]
fn test_find_jump_destinations() {
    // given

    // 0000 7F   PUSH32 0xffffffffffffffffffffffffffffffffffffffffffffffffffffffffffffffff
    // 0021 7F   PUSH32 0xffffffffffffffffffffffffffffffffffffffffffffffffffffffffffffffff
    // 0042 5B   JUMPDEST
    // 0043 01   ADD
    // 0044 60   PUSH1 0x00
    // 0046 55   SSTORE
    let code = hex("7fffffffffffffffffffffffffffffffffffffffffffffffffffffffffffffffff7fffffffffffffffffffffffffffffffffffffffffffffffffffffffffffffffff5b01600055");

    // when
    let cache_item = SharedCache::find_jump_and_sub_destinations(&code);

    // then
    assert!(cache_item.jump_destination.to_vec().into_iter().eq(vec![0x42].into_iter()));
    assert!(cache_item.sub_entrypoint.is_empty());
}

#[test]
fn test_find_jump_destinations_not_in_data_segments() {
    // given

    // 0000 60 06   PUSH1 06
    // 0002 56      JUMP
    // 0003 60 5B   PUSH1 0x5B
    // 0005 56      JUMP
    // 0006 5B      JUMPDEST
    // 0007 60 04   PUSH1 04
    let code = hex("600656605B565B6004");

    // when
    let cache_item = SharedCache::find_jump_and_sub_destinations(&code);

    // then
    assert!(cache_item.jump_destination.to_vec().into_iter().eq(vec![6].into_iter()));
    assert!(cache_item.sub_entrypoint.is_empty());
}

#[test]
fn test_find_sub_entrypoints() {
    // given
    let code = hex("6800000000000000000c5e005c60115e5d5c5d");

    // when
    let cache_item = SharedCache::find_jump_and_sub_destinations(&code);

    // then
    assert!(cache_item.jump_destination.is_empty());
    assert!(cache_item.sub_entrypoint.to_vec().into_iter().eq(vec![12, 17].into_iter()));
}

#[test]
fn test_find_jump_and_sub_allowing_unknown_opcodes() {
    // precondition
    assert!(Instruction::from_u8(0xcc) == None);

    // given

    // 0000 5B   JUMPDEST
    // 0001 CC   ???
    // 0002 5C   BEGINSUB
    let code = hex("5BCC5C");

    // when
    let cache_item = SharedCache::find_jump_and_sub_destinations(&code);

    // then
    assert!(cache_item.jump_destination.to_vec().into_iter().eq(vec![0].into_iter()));
    assert!(cache_item.sub_entrypoint.to_vec().into_iter().eq(vec![2].into_iter()));
}

#[test]
fn jump_destination_after_two_full_pushes_with_trailing_jump() {
    let item = scan("600656605B565B600456");
    assert_eq!(item.jump_destination.to_vec(), vec![6]);
    assert!(!item.jump_destination.contains(4));
    assert!(item.sub_entrypoint.is_empty());
}

#[test]
fn empty_code_gives_three_empty_results() {
    let item = SharedCache::find_jump_and_sub_destinations(&[]);
    assert!(item.jump_destination.is_empty());
    assert!(item.sub_entrypoint.is_empty());
    assert_eq!(item.sub_length.find_length(0, &item.sub_entrypoint), 0);
}

#[test]
fn code_without_markers_is_one_stretch() {
    let item = scan("6001600201");
    assert!(item.jump_destination.is_empty());
    assert!(item.sub_entrypoint.is_empty());
    assert_eq!(item.sub_length.find_length(0, &item.sub_entrypoint), 5);
}

#[test]
fn lengths_of_all_stretches_are_read_back() {
    let item = scan("6800000000000000000c5e005c60115e5d5c5d");
    assert_eq!(item.sub_entrypoint.to_vec(), vec![12, 17]);
    assert_eq!(item.sub_length.find_length(0, &item.sub_entrypoint), 12);
    assert_eq!(item.sub_length.find_length(12, &item.sub_entrypoint), 5);
    assert_eq!(item.sub_length.find_length(17, &item.sub_entrypoint), 2);
}

#[test]
fn length_before_first_entry_is_found_with_given_boundaries() {
    let item = scan("6800000000000000000c5e005c60115e5d5c5d");
    let boundaries = bits_of(&[12, 17]);
    assert_eq!(item.sub_length.find_length(0, &boundaries), 12);
}

#[test]
fn entry_at_offset_zero() {
    // 0000 5C BEGINSUB, 0001 5B JUMPDEST, 0002 5C BEGINSUB, 0003 00 STOP
    let item = SharedCache::find_jump_and_sub_destinations(&[0x5c, 0x5b, 0x5c, 0x00]);
    assert_eq!(item.jump_destination.to_vec(), vec![1]);
    assert_eq!(item.sub_entrypoint.to_vec(), vec![0, 2]);
    assert_eq!(item.sub_length.find_length(0, &item.sub_entrypoint), 2);
    assert_eq!(item.sub_length.find_length(2, &item.sub_entrypoint), 2);
}

#[test]
fn push_cut_short_by_the_end_of_the_code() {
    // PUSH4 with two bytes of data left, both of them marker bytes.
    let item = SharedCache::find_jump_and_sub_destinations(&[0x5b, 0x63, 0x5b, 0x5c]);
    assert_eq!(item.jump_destination.to_vec(), vec![0]);
    assert!(item.sub_entrypoint.is_empty());
    assert_eq!(item.sub_length.find_length(0, &item.sub_entrypoint), 4);
}

#[test]
fn marker_bytes_in_push_data_are_not_code() {
    // PUSH2 5B 5C, then JUMPDEST and BEGINSUB as instructions.
    let item = SharedCache::find_jump_and_sub_destinations(&[0x61, 0x5b, 0x5c, 0x5b, 0x5c]);
    assert_eq!(item.jump_destination.to_vec(), vec![3]);
    assert_eq!(item.sub_entrypoint.to_vec(), vec![4]);
}

#[test]
fn scanning_twice_gives_equal_results() {
    let text = "6800000000000000000c5e005c60115e5d5c5d";
    let first = scan(text);
    let second = scan(text);
    assert_eq!(first.jump_destination.to_vec(), second.jump_destination.to_vec());
    assert_eq!(first.sub_entrypoint.to_vec(), second.sub_entrypoint.to_vec());
    for start in 0..20 {
        assert_eq!(
            first.sub_length.find_length(start, &first.sub_entrypoint),
            second.sub_length.find_length(start, &second.sub_entrypoint)
        );
    }
}

#[test]
fn instruction_decoding() {
    assert!(Instruction::from_u8(0xcc).is_none());
    assert!(Instruction::from_u8(0x0c).is_none());
    assert!(Instruction::from_u8(0x5f).is_none());
    let jump_destination = Instruction::from_u8(0x5b).unwrap();
    assert!(jump_destination.is_jump_destination());
    assert!(!jump_destination.is_subroutine_entry());
    assert_eq!(jump_destination.push_bytes(), None);
    assert_eq!(jump_destination.opcode(), 0x5b);
    let entry = Instruction::from_u8(0x5c).unwrap();
    assert!(entry.is_subroutine_entry());
    assert_eq!(Instruction::from_u8(0x60).unwrap().push_bytes(), Some(1));
    assert_eq!(Instruction::from_u8(0x68).unwrap().push_bytes(), Some(9));
    assert_eq!(Instruction::from_u8(0x7f).unwrap().push_bytes(), Some(32));
    assert_eq!(Instruction::from_u8(0x80).unwrap().push_bytes(), None);
    assert_eq!(Instruction::from_u8(0x00).unwrap().push_bytes(), None);
}

/// A plain walk over the instructions, kept apart from the library: the offsets of
/// the jump markers and of the subroutine markers that are instructions.
fn plain_walk(code: &[u8]) -> (Vec<usize>, Vec<usize>) {
    let mut jumps = Vec::new();
    let mut entries = Vec::new();
    let mut position = 0;
    while position < code.len() {
        let byte = code[position];
        if byte == 0x5b {
            jumps.push(position);
        } else if byte == 0x5c {
            entries.push(position);
        } else if (0x60..=0x7f).contains(&byte) {
            position += (byte - 0x5f) as usize;
        }
        position += 1;
    }
    (jumps, entries)
}

#[test]
fn scan_agrees_with_a_plain_walk_on_many_programs() {
    let mut state: u64 = 0x2545f4914f6cdd1d;
    for round in 0..300usize {
        let len = round % 97;
        let mut code = Vec::with_capacity(len);
        for _ in 0..len {
            state = state.wrapping_mul(6364136223846793005).wrapping_add(1442695040888963407);
            let pick = (state >> 33) % 8;
            let byte = match pick {
                0 => 0x5b,
                1 => 0x5c,
                2 => 0x60 + ((state >> 40) % 32) as u8,
                _ => (state >> 48) as u8,
            };
            code.push(byte);
        }
        let (jumps, entries) = plain_walk(&code);
        let item = SharedCache::find_jump_and_sub_destinations(&code);
        assert_eq!(item.jump_destination.to_vec(), jumps);
        assert_eq!(item.sub_entrypoint.to_vec(), entries);

        // Every stretch, from offset zero or from an entry to the next entry or
        // the end, has its length written where it begins.
        let mut begins = vec![0];
        begins.extend(entries.iter().copied().filter(|entry| *entry != 0));
        for (place, begin) in begins.iter().enumerate() {
            let end = if place + 1 < begins.len() { begins[place + 1] } else { code.len() };
            assert_eq!(item.sub_length.find_length(*begin, &item.sub_entrypoint), end - begin);
        }
    }
}

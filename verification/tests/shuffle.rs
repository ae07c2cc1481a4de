use librcrypt::{
    decode_unit, derive_seed, encode_unit, random_indicies, shuffle_bits, unshuffle_bits,
    DecryptError, Keystream, PermutationTable,
};

fn identity_table() -> PermutationTable {
    PermutationTable::from_draws(&[0u64; 16]).unwrap()
}

fn reversed_table() -> PermutationTable {
    let draws: Vec<u64> = (0..16u64).rev().collect();
    PermutationTable::from_draws(&draws).unwrap()
}

fn mixed_table() -> PermutationTable {
    PermutationTable::from_draws(&[3, 14, 0, 7, 7, 2, 9, 1, 4, 4, 0, 3, 2, 1, 1, 0]).unwrap()
}

fn slots(table: &PermutationTable) -> Vec<u8> {
    (0..16).map(|i| table.target(i)).collect()
}

#[test]
fn fuzz_shuffle() {
    let rng = Keystream::new(&derive_seed("test key alskdjflk".as_bytes()));
    for i in 0..=u16::MAX {
        let mut r1 = rng.clone();
        let mut r2 = rng.clone();
        assert_eq!(i, unshuffle_bits(&mut r2, shuffle_bits(&mut r1, i)))
    }
}

#[test]
fn lib_fuzz_shuffle() {
    let rng = Keystream::new(&derive_seed("test key alskdjflk".as_bytes()));
    for i in 0..=u16::MAX {
        let mut r1 = rng.clone();
        let mut r2 = rng.clone();
        assert_eq!(i, unshuffle_bits(&mut r2, shuffle_bits(&mut r1, i)))
    }
}

#[test]
fn shuffle_moves_the_value() {
    let seed = derive_seed(b"test key alskdjflk");
    let mut moved = 0;
    for i in 1..=200u16 {
        let mut stream = Keystream::new(&seed);
        if shuffle_bits(&mut stream, i) != i {
            moved += 1;
        }
    }
    assert!(moved > 150);
}

#[test]
fn draws_of_zero_give_the_identity() {
    assert_eq!(slots(&identity_table()), (0..16u8).collect::<Vec<u8>>());
}

#[test]
fn draws_of_the_last_entry_give_the_reverse() {
    assert_eq!(slots(&reversed_table()), (0..16u8).rev().collect::<Vec<u8>>());
}

#[test]
fn draws_pick_from_the_shrinking_pool() {
    // pool 0..16; 3 -> 3; 14 -> 15; 0 -> 0; 7 -> 9; 7 -> 10; 2 -> 4; 9 -> 14; 1 -> 2;
    // then from [1,5,6,7,8,11,12,13]: 4 -> 8; 4 -> 11; 0 -> 1; 3 -> 12; 2 -> 7; 1 -> 6;
    // 1 -> 13; 0 -> 5
    assert_eq!(
        slots(&mixed_table()),
        vec![3, 15, 0, 9, 10, 4, 14, 2, 8, 11, 1, 12, 7, 6, 13, 5]
    );
}

#[test]
fn draws_outside_the_pool_give_no_table() {
    assert!(PermutationTable::from_draws(&[16, 0, 0, 0, 0, 0, 0, 0, 0, 0, 0, 0, 0, 0, 0, 0]).is_none());
    assert!(PermutationTable::from_draws(&[0, 0, 0, 0, 0, 0, 0, 0, 0, 0, 0, 0, 0, 0, 0, 1]).is_none());
    assert!(PermutationTable::from_draws(&[0, 15, 0, 0, 0, 0, 0, 0, 0, 0, 0, 0, 0, 0, 0, 0]).is_none());
    assert!(PermutationTable::from_draws(&[0; 15]).is_none());
    assert!(PermutationTable::from_draws(&[0; 17]).is_none());
    assert!(PermutationTable::from_draws(&[]).is_none());
    assert!(PermutationTable::from_draws(&[15, 14, 13, 12, 11, 10, 9, 8, 7, 6, 5, 4, 3, 2, 1, 0]).is_some());
}

#[test]
fn every_table_is_a_bijection() {
    let seed = derive_seed(b"bijection");
    let mut stream = Keystream::new(&seed);
    for _ in 0..500 {
        let table = random_indicies(&mut stream);
        let mut seen = [false; 16];
        for t in slots(&table) {
            assert!(t < 16);
            assert!(!seen[t as usize]);
            seen[t as usize] = true;
        }
        assert!(seen.iter().all(|s| *s));
    }
}

#[test]
fn permute_moves_each_bit_to_its_target() {
    let table = mixed_table();
    for i in 0..16usize {
        let moved = table.permute(1u16 << i);
        assert_eq!(moved, 1u16 << table.target(i));
        assert_eq!(table.unpermute(moved), 1u16 << i);
    }
    assert_eq!(table.permute(0), 0);
    assert_eq!(table.permute(0xffff), 0xffff);
    assert_eq!(reversed_table().permute(0xfe01), 0x807f);
    assert_eq!(identity_table().permute(0xbeef), 0xbeef);
}

#[test]
fn unpermute_inverts_permute_on_every_unit() {
    for table in [identity_table(), reversed_table(), mixed_table()] {
        for v in 0..=u16::MAX {
            assert_eq!(table.unpermute(table.permute(v)), v);
            assert_eq!(table.permute(table.unpermute(v)), v);
        }
    }
}

#[test]
fn unpermute_inverts_permute_under_drawn_tables() {
    let seed = derive_seed(b"drawn tables");
    let mut stream = Keystream::new(&seed);
    for _ in 0..8 {
        let table = random_indicies(&mut stream);
        for v in 0..=u16::MAX {
            assert_eq!(table.unpermute(table.permute(v)), v);
        }
    }
}

#[test]
fn encode_unit_doubles_and_writes_high_half_first() {
    assert_eq!(encode_unit(&identity_table(), 0x0f), [0xf0, 0x0f]);
    assert_eq!(encode_unit(&identity_table(), 0x00), [0xff, 0x00]);
    assert_eq!(encode_unit(&identity_table(), 0xa5), [0x5a, 0xa5]);
    assert_eq!(encode_unit(&reversed_table(), 0x01), [0x80, 0x7f]);
}

#[test]
fn decode_unit_inverts_encode_unit_for_every_byte() {
    for table in [identity_table(), reversed_table(), mixed_table()] {
        for byte in 0..=u8::MAX {
            let pair = encode_unit(&table, byte);
            assert!(matches!(decode_unit(&table, pair), Ok(b) if b == byte));
        }
    }
}

#[test]
fn decode_unit_rejects_halves_that_are_no_complements() {
    assert!(matches!(decode_unit(&identity_table(), [0x00, 0x00]), Err(DecryptError::Corrupt)));
    assert!(matches!(decode_unit(&identity_table(), [0xff, 0x01]), Err(DecryptError::Corrupt)));
    assert!(matches!(decode_unit(&identity_table(), [0xfe, 0x01]), Ok(0x01)));
    assert!(matches!(decode_unit(&reversed_table(), [0x80, 0x7f]), Ok(0x01)));
}

#[test]
fn decode_unit_accepts_exactly_the_256_encoded_pairs() {
    let table = mixed_table();
    let mut accepted = 0u32;
    for w in 0..=u16::MAX {
        let pair = [(w >> 8) as u8, (w & 0xff) as u8];
        if let Ok(byte) = decode_unit(&table, pair) {
            assert_eq!(encode_unit(&table, byte), pair);
            accepted += 1;
        }
    }
    assert_eq!(accepted, 256);
}

#[test]
fn one_flipped_bit_in_a_unit_is_always_corrupt() {
    for table in [identity_table(), reversed_table(), mixed_table()] {
        for byte in 0..=u8::MAX {
            let pair = encode_unit(&table, byte);
            for bit in 0..16 {
                let mut altered = pair;
                altered[bit / 8] ^= 1 << (bit % 8);
                assert!(matches!(decode_unit(&table, altered), Err(DecryptError::Corrupt)));
            }
        }
    }
}

#[test]
fn a_cloned_keystream_draws_the_same() {
    let mut stream = Keystream::new(&derive_seed(b"clone"));
    stream.seek(77);
    for _ in 0..5 {
        stream.next_bounded(16);
    }
    let mut copy = stream.clone();
    for _ in 0..100 {
        assert_eq!(stream.next_bounded(1 << 60), copy.next_bounded(1 << 60));
    }
}

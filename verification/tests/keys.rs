use cache::error::CacheError;
use cache::store::Key;

#[test]
fn id_key_is_written_in_shortest_form() {
    assert_eq!(Key::Id(5).encode().unwrap(), vec![5u8]);
    assert_eq!(Key::Id(127).encode().unwrap(), vec![0x7fu8]);
    assert_eq!(Key::Id(128).encode().unwrap(), vec![0xccu8, 0x80]);
    assert_eq!(Key::Id(255).encode().unwrap(), vec![0xccu8, 0xff]);
    assert_eq!(Key::Id(256).encode().unwrap(), vec![0xcdu8, 0x01, 0x00]);
    assert_eq!(Key::Id(65535).encode().unwrap(), vec![0xcdu8, 0xff, 0xff]);
    assert_eq!(Key::Id(65536).encode().unwrap(), vec![0xceu8, 0x00, 0x01, 0x00, 0x00]);
    assert_eq!(
        Key::Id(615542460151496705).encode().unwrap(),
        vec![0xcfu8, 0x08, 0x8a, 0xd8, 0x9b, 0x31, 0x80, 0x00, 0x01]
    );
}

#[test]
fn pair_key_is_an_array_of_two() {
    assert_eq!(Key::Pair(1, 2).encode().unwrap(), vec![0x92u8, 1, 2]);
    assert_eq!(
        Key::Pair(100, 300).encode().unwrap(),
        vec![0x92u8, 100, 0xcd, 0x01, 0x2c]
    );
}

#[test]
fn key_bytes_match_the_serialiser() {
    for id in [0u64, 1, 127, 128, 255, 256, 65535, 65536, u32::MAX as u64, u32::MAX as u64 + 1, u64::MAX] {
        assert_eq!(Key::Id(id).encode().unwrap(), rmp_serde::to_vec(&id).unwrap());
        assert_eq!(
            Key::Pair(id, 7).encode().unwrap(),
            rmp_serde::to_vec(&(id, 7u64)).unwrap()
        );
    }
}

#[test]
fn keys_round_trip() {
    for key in [
        Key::Id(0),
        Key::Id(127),
        Key::Id(128),
        Key::Id(70000),
        Key::Id(u64::MAX),
        Key::Pair(1, 2),
        Key::Pair(u64::MAX, 0),
        Key::Pair(300, 5_000_000_000),
    ] {
        let bytes = key.encode().unwrap();
        assert_eq!(Key::decode(&bytes), Ok(key));
    }
}

#[test]
fn bytes_that_are_no_key_are_corrupt() {
    assert_eq!(Key::decode(&[]), Err(CacheError::CorruptRecord));
    // a number that fits one byte, written in two
    assert_eq!(Key::decode(&[0xcc, 0x05]), Err(CacheError::CorruptRecord));
    // a byte too many
    assert_eq!(Key::decode(&[0x05, 0x00]), Err(CacheError::CorruptRecord));
    // an array of two with one element
    assert_eq!(Key::decode(&[0x92, 0x01]), Err(CacheError::CorruptRecord));
    // a string marker
    assert_eq!(Key::decode(&[0xa1, 0x61]), Err(CacheError::CorruptRecord));
    // truncated eight-byte number
    assert_eq!(Key::decode(&[0xcf, 1, 2, 3]), Err(CacheError::CorruptRecord));
}

#[test]
fn many_keys_round_trip() {
    let mut n: u64 = 1;
    for _ in 0..2000 {
        n = n.wrapping_mul(6364136223846793005).wrapping_add(1442695040888963407);
        // numbers of every width
        let id = n >> (n % 64);
        let other = n.rotate_left(17) >> ((n >> 8) % 64);
        for key in [Key::Id(id), Key::Pair(id, other)] {
            let bytes = key.encode().unwrap();
            assert_eq!(Key::decode(&bytes), Ok(key));
            assert!(bytes.len() <= 19);
        }
    }
}

#[test]
fn different_keys_have_different_bytes() {
    let keys = [
        Key::Id(1),
        Key::Id(2),
        Key::Id(0x92),
        Key::Id(0x0102),
        Key::Pair(1, 2),
        Key::Pair(2, 1),
        Key::Pair(0, 0x0102),
        Key::Pair(0x92, 1),
    ];
    for (i, a) in keys.iter().enumerate() {
        for (j, b) in keys.iter().enumerate() {
            assert_eq!(a.encode().unwrap() == b.encode().unwrap(), i == j);
        }
    }
}

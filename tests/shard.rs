use meros::codec::CanSerialize;
use meros::digits::decimal_bytes;
use meros::error::GeneralError;
use meros::shard::{split_bytes, Shard, ShardError, ShardID};

#[test]
fn test_to_bytes() {
    let shard = Shard::new(vec![1u8, 10u8], 0).unwrap();
    assert_eq!(shard.size(), 2);

    println!("shard: {:?}", shard);
    shard.to_bytes().unwrap();
}

#[test]
fn test_from_bytes() {
    let serialized = Shard::new(vec![1u8, 10u8], 0).unwrap().to_bytes().unwrap();
    let deserialized = Shard::from_bytes(serialized).unwrap();
    println!("deserialized shard: {:?}", deserialized);
}

#[test]
fn split_two_single_bytes() {
    let shards = split_bytes(&vec![1u8, 10u8], &vec![1usize, 1]).unwrap();
    assert_eq!(shards.len(), 2);
    assert_eq!(shards[0].size(), 1);
    assert_eq!(shards[1].size(), 1);
    assert_eq!(shards[0].data(), &vec![1u8]);
    assert_eq!(shards[1].data(), &vec![10u8]);
    assert_eq!(shards[0].index(), 0);
    assert_eq!(shards[1].index(), 1);
}

#[test]
fn split_sizes_short_of_payload() {
    let r = split_bytes(&vec![1u8, 2, 3, 4, 5], &vec![2usize, 2]);
    assert!(matches!(r, Err(ShardError::InvalidSplitSizes(_))));
}

#[test]
fn split_sizes_beyond_payload() {
    let r = split_bytes(&vec![1u8, 2, 3, 4, 5], &vec![3usize, 3]);
    assert!(matches!(r, Err(ShardError::InvalidSplitSizes(_))));
}

#[test]
fn split_empty_plan_over_payload() {
    let r = split_bytes(&vec![7u8], &vec![]);
    assert!(matches!(r, Err(ShardError::InvalidSplitSizes(_))));
}

#[test]
fn split_empty_payload_empty_plan() {
    let shards = split_bytes(&vec![], &vec![]).unwrap();
    assert_eq!(shards.len(), 0);
}

#[test]
fn split_concatenation_restores_payload() {
    let payload: Vec<u8> = (1u8..=10).collect();
    let shards = split_bytes(&payload, &vec![3usize, 0, 7]).unwrap();
    assert_eq!(shards.len(), 3);
    assert_eq!(shards[1].size(), 0);
    assert_eq!(shards[1].data(), &Vec::<u8>::new());
    let mut joined: Vec<u8> = Vec::new();
    for (i, s) in shards.iter().enumerate() {
        assert_eq!(s.index() as usize, i);
        assert_eq!(s.size(), s.data().len());
        joined.extend_from_slice(s.data());
    }
    assert_eq!(joined, payload);
}

#[test]
fn identity_is_digest_of_payload_and_decimal_time() {
    // The digest of the text "123": an empty payload at time 123.
    let id = ShardID::at_time(&vec![], 123);
    let expected: Vec<u8> = vec![
        0xa6, 0x65, 0xa4, 0x59, 0x20, 0x42, 0x2f, 0x9d, 0x41, 0x7e, 0x48, 0x67, 0xef, 0xdc, 0x4f,
        0xb8, 0xa0, 0x4a, 0x1f, 0x3f, 0xff, 0x1f, 0xa0, 0x7e, 0x99, 0x8e, 0x86, 0xf7, 0xf7, 0xa2,
        0x7a, 0xe3,
    ];
    assert_eq!(id.to_bytes(), expected);
    // The payload "12" at time 3 hashes the same text as "1" at time 23.
    let a = ShardID::at_time(&b"12".to_vec(), 3);
    let b = ShardID::at_time(&b"1".to_vec(), 23);
    assert!(a == b);
}

#[test]
fn identity_same_second_equal() {
    let a = ShardID::at_time(&vec![5u8, 6, 7], 1_700_000_000);
    let b = ShardID::at_time(&vec![5u8, 6, 7], 1_700_000_000);
    assert!(a == b);
    assert_eq!(a.to_bytes().len(), 32);
}

#[test]
fn identity_other_second_differs() {
    let a = ShardID::at_time(&vec![5u8, 6, 7], 1_700_000_000);
    let b = ShardID::at_time(&vec![5u8, 6, 7], 1_700_000_001);
    assert!(!(a == b));
}

#[test]
fn identity_now_matches_at_time() {
    let (id, time) = ShardID::new(&vec![9u8, 9]).unwrap();
    assert!(id == ShardID::at_time(&vec![9u8, 9], time));
}

#[test]
fn shard_equality_ignores_position() {
    let a = Shard::at_time(vec![1u8, 2], 0, 50);
    let b = Shard::at_time(vec![1u8, 2], 4, 50);
    let c = Shard::at_time(vec![1u8, 2], 0, 51);
    assert!(a == b);
    assert!(!(a == c));
}

#[test]
fn shard_from_parts_checks_identity() {
    let id = ShardID::at_time(&vec![1u8, 2], 50).to_bytes();
    assert!(Shard::from_parts(vec![1u8, 2], 2, 50, 0, id.clone()).is_some());
    assert!(Shard::from_parts(vec![1u8, 2], 3, 50, 0, id.clone()).is_none());
    assert!(Shard::from_parts(vec![1u8, 3], 2, 50, 0, id.clone()).is_none());
    assert!(Shard::from_parts(vec![1u8, 2], 2, 51, 0, id).is_none());
}

#[test]
fn decimal_text() {
    assert_eq!(decimal_bytes(0), b"0".to_vec());
    assert_eq!(decimal_bytes(1234567), b"1234567".to_vec());
    assert_eq!(decimal_bytes(u128::MAX), u128::MAX.to_string().into_bytes());
}

#[test]
fn general_error_message() {
    let e = GeneralError::new("bad sizes");
    assert_eq!(e.message(), "bad sizes".to_string());
}

use meros::codec::{CanSerialize, Compressable};
use meros::error::CodecError;
use meros::shard::{Shard, ShardID};

#[test]
fn shard_round_trip() {
    let s = Shard::at_time(vec![1u8, 10], 3, 1_700_000_000);
    let back = Shard::from_bytes(s.to_bytes().unwrap()).unwrap();
    assert!(back == s);
    assert_eq!(back.index(), 3);
    assert_eq!(back.timestamp(), 1_700_000_000);
}

#[test]
fn shard_round_trip_empty_data() {
    let s = Shard::at_time(vec![], 0, 0);
    let back = Shard::from_bytes(s.to_bytes().unwrap()).unwrap();
    assert!(back == s);
}

#[test]
fn shard_encoding_layout() {
    let s = Shard::at_time(vec![1u8, 10], 3, 258);
    let b = s.to_bytes().unwrap();
    assert_eq!(b.len(), 8 + 2 + 8 + 16 + 4 + 8 + 32);
    assert_eq!(&b[0..8], &[2u8, 0, 0, 0, 0, 0, 0, 0]);
    assert_eq!(&b[8..10], &[1u8, 10]);
    assert_eq!(&b[10..18], &[2u8, 0, 0, 0, 0, 0, 0, 0]);
    assert_eq!(&b[18..20], &[2u8, 1]);
    assert_eq!(&b[20..34], &[0u8; 14]);
    assert_eq!(&b[34..38], &[3u8, 0, 0, 0]);
    assert_eq!(&b[38..46], &[32u8, 0, 0, 0, 0, 0, 0, 0]);
    assert_eq!(b[46..].to_vec(), ShardID::at_time(&vec![1u8, 10], 258).to_bytes());
}

#[test]
fn decode_rejects_trailing_bytes() {
    let mut b = Shard::at_time(vec![1u8, 10], 0, 7).to_bytes().unwrap();
    b.push(0);
    assert_eq!(Shard::from_bytes(b).unwrap_err(), CodecError::DecodingError);
}

#[test]
fn decode_rejects_short_input() {
    let mut b = Shard::at_time(vec![1u8, 10], 0, 7).to_bytes().unwrap();
    b.pop();
    assert_eq!(Shard::from_bytes(b).unwrap_err(), CodecError::DecodingError);
    assert_eq!(Shard::from_bytes(vec![]).unwrap_err(), CodecError::DecodingError);
}

#[test]
fn decode_rejects_altered_data() {
    let mut b = Shard::at_time(vec![1u8, 10], 0, 7).to_bytes().unwrap();
    b[8] = 2;
    assert_eq!(Shard::from_bytes(b).unwrap_err(), CodecError::DecodingError);
}

#[test]
fn decode_rejects_wrong_size() {
    let mut b = Shard::at_time(vec![1u8, 10], 0, 7).to_bytes().unwrap();
    b[10] = 3;
    assert_eq!(Shard::from_bytes(b).unwrap_err(), CodecError::DecodingError);
}

#[test]
fn shard_id_compress_round_trip() {
    let id = ShardID::at_time(&vec![3u8, 4], 99);
    let packed = id.compress();
    assert_eq!(packed, id.to_bytes());
    let back = ShardID::decompress(packed);
    assert!(back == id);
}

#[test]
fn equal_shards_encode_equally() {
    let a = Shard::at_time(vec![1u8, 10], 0, 42);
    let b = Shard::at_time(vec![1u8, 10], 0, 42);
    assert_eq!(a.to_bytes().unwrap(), b.to_bytes().unwrap());
}

//! The byte encoding of shards, and the serialization and compression
//! capabilities with their round-trip laws.
use crate::error::CodecError;
use crate::hash::HASH_LEN;
use crate::shard::{Shard, ShardID, ShardView};
use bincode::Options;
use vstd::prelude::*;

verus! {

/// `256` to the power `n`.
pub open spec fn pow256(n: nat) -> nat
    decreases n,
{
    if n == 0 {
        1
    } else {
        256 * pow256((n - 1) as nat)
    }
}

/// The `n` low bytes of `x`, least significant first.
pub open spec fn le_bytes(x: nat, n: nat) -> Seq<u8>
    decreases n,
{
    if n == 0 {
        Seq::empty()
    } else {
        seq![(x % 256) as u8] + le_bytes(x / 256, (n - 1) as nat)
    }
}

/// The number that bytes read as, least significant first.
pub open spec fn le_value(s: Seq<u8>) -> nat
    decreases s.len(),
{
    if s.len() == 0 {
        0
    } else {
        s[0] as nat + 256 * le_value(s.drop_first())
    }
}

/// Bytes written least significant first read back as the number written.
pub proof fn lemma_le_round_trip(x: nat, n: nat)
    requires
        x < pow256(n),
    ensures
        le_bytes(x, n).len() == n,
        le_value(le_bytes(x, n)) == x,
    decreases n,
{
    if n > 0 {
        let p = pow256((n - 1) as nat);
        assert(x / 256 < p) by (nonlinear_arith)
            requires
                x < 256 * p,
        ;
        lemma_le_round_trip(x / 256, (n - 1) as nat);
        let s = le_bytes(x, n);
        assert(s.drop_first() =~= le_bytes(x / 256, (n - 1) as nat));
    }
}

proof fn lemma_pow256_widths()
    ensures
        pow256(4) == 0x1_0000_0000,
        pow256(8) == 0x1_0000_0000_0000_0000,
        pow256(16) == 0x1_0000_0000_0000_0000_0000_0000_0000_0000,
{
    reveal_with_fuel(pow256, 17);
}

/// The encoding of a shard's fields, in order: the data with its length as
/// eight bytes before it, the size as eight bytes, the timestamp as sixteen,
/// the position as four, and the identity with its length as eight bytes
/// before it. Every number is written least significant byte first.
pub open spec fn fields_encoding(data: Seq<u8>, size: u64, timestamp: u128, index: u32, id: Seq<u8>) -> Seq<u8> {
    le_bytes(data.len(), 8) + (data + (le_bytes(size as nat, 8) + (le_bytes(timestamp as nat, 16) + (
    le_bytes(index as nat, 4) + (le_bytes(id.len(), 8) + id)))))
}

/// Whether bytes are exactly the encoding of some field values.
pub open spec fn is_fields_encoding(b: Seq<u8>) -> bool {
    exists|data: Seq<u8>, size: u64, timestamp: u128, index: u32, id: Seq<u8>|
        data.len() <= u64::MAX && id.len() <= u64::MAX && b == #[trigger] fields_encoding(
            data,
            size,
            timestamp,
            index,
            id,
        )
}

/// Relies on `bincode::serialize`, which writes a tuple field after field
/// with fixed-width little-endian integers, a `u64` length before each
/// vector, and no trailing bytes. With no size limit, its only failures are
/// a sequence without a length and an error raised by a field's own
/// serializer, neither of which byte vectors and integers produce.
#[verifier::external_body]
fn encode_fields(data: &Vec<u8>, size: u64, timestamp: u128, index: u32, id: &Vec<u8>) -> (r: Result<Vec<u8>, bincode::Error>)
    ensures
        r is Ok,
        r matches Ok(b) ==> b@ == fields_encoding(data@, size, timestamp, index, id@),
{
    bincode::serialize(&(data, size, timestamp, index, id))
}

/// Relies on bincode's `Options::deserialize` with fixed-width integers and
/// trailing bytes rejected: it succeeds exactly on the bytes that
/// `bincode::serialize` writes for such a tuple, and returns the values
/// written.
#[verifier::external_body]
fn decode_fields(bytes: &Vec<u8>) -> (r: Result<(Vec<u8>, u64, u128, u32, Vec<u8>), bincode::Error>)
    ensures
        r matches Ok(t) ==> bytes@ == fields_encoding(t.0@, t.1, t.2, t.3, t.4@),
        r is Ok <==> is_fields_encoding(bytes@),
{
    bincode::DefaultOptions::new().with_fixint_encoding().reject_trailing_bytes().deserialize(
        bytes.as_slice(),
    )
}

#[verifier::external_type_specification]
#[verifier::external_body]
pub struct ExErrorKind(bincode::ErrorKind);

/// Two equal concatenations whose first parts have the same length have
/// equal parts.
proof fn lemma_split_eq(x1: Seq<u8>, r1: Seq<u8>, x2: Seq<u8>, r2: Seq<u8>)
    requires
        x1.len() == x2.len(),
        x1 + r1 == x2 + r2,
    ensures
        x1 == x2,
        r1 == r2,
{
    assert(x1 =~= (x1 + r1).subrange(0, x1.len() as int));
    assert(x2 =~= (x2 + r2).subrange(0, x2.len() as int));
    assert(r1 =~= (x1 + r1).subrange(x1.len() as int, (x1 + r1).len() as int));
    assert(r2 =~= (x2 + r2).subrange(x2.len() as int, (x2 + r2).len() as int));
}

proof fn lemma_le_eq(x: nat, y: nat, n: nat, r1: Seq<u8>, r2: Seq<u8>)
    requires
        x < pow256(n),
        y < pow256(n),
        le_bytes(x, n) + r1 == le_bytes(y, n) + r2,
    ensures
        x == y,
        r1 == r2,
{
    lemma_le_round_trip(x, n);
    lemma_le_round_trip(y, n);
    lemma_split_eq(le_bytes(x, n), r1, le_bytes(y, n), r2);
}

/// Equal encodings come from equal field values.
pub proof fn lemma_fields_injective(
    d1: Seq<u8>,
    s1: u64,
    t1: u128,
    i1: u32,
    id1: Seq<u8>,
    d2: Seq<u8>,
    s2: u64,
    t2: u128,
    i2: u32,
    id2: Seq<u8>,
)
    requires
        d1.len() <= u64::MAX,
        d2.len() <= u64::MAX,
        id1.len() <= u64::MAX,
        id2.len() <= u64::MAX,
        fields_encoding(d1, s1, t1, i1, id1) == fields_encoding(d2, s2, t2, i2, id2),
    ensures
        d1 == d2,
        s1 == s2,
        t1 == t2,
        i1 == i2,
        id1 == id2,
{
    lemma_pow256_widths();
    let tail1 = le_bytes(s1 as nat, 8) + (le_bytes(t1 as nat, 16) + (le_bytes(i1 as nat, 4) + (
    le_bytes(id1.len(), 8) + id1)));
    let tail2 = le_bytes(s2 as nat, 8) + (le_bytes(t2 as nat, 16) + (le_bytes(i2 as nat, 4) + (
    le_bytes(id2.len(), 8) + id2)));
    lemma_le_eq(d1.len(), d2.len(), 8, d1 + tail1, d2 + tail2);
    lemma_split_eq(d1, tail1, d2, tail2);
    let tail1 = le_bytes(t1 as nat, 16) + (le_bytes(i1 as nat, 4) + (le_bytes(id1.len(), 8) + id1));
    let tail2 = le_bytes(t2 as nat, 16) + (le_bytes(i2 as nat, 4) + (le_bytes(id2.len(), 8) + id2));
    lemma_le_eq(s1 as nat, s2 as nat, 8, tail1, tail2);
    let tail1 = le_bytes(i1 as nat, 4) + (le_bytes(id1.len(), 8) + id1);
    let tail2 = le_bytes(i2 as nat, 4) + (le_bytes(id2.len(), 8) + id2);
    lemma_le_eq(t1 as nat, t2 as nat, 16, tail1, tail2);
    let tail1 = le_bytes(id1.len(), 8) + id1;
    let tail2 = le_bytes(id2.len(), 8) + id2;
    lemma_le_eq(i1 as nat, i2 as nat, 4, tail1, tail2);
    lemma_le_eq(id1.len(), id2.len(), 8, id1, id2);
}

/// The encoding of a shard.
pub open spec fn encode_shard(v: ShardView) -> Seq<u8> {
    fields_encoding(v.data, v.size as u64, v.timestamp, v.index, v.id)
}

/// The well-formed shard that bytes encode, if there is one.
pub open spec fn decode_shard(b: Seq<u8>) -> Option<ShardView> {
    if exists|v: ShardView| v.wf() && encode_shard(v) == b {
        Some(choose|v: ShardView| v.wf() && encode_shard(v) == b)
    } else {
        None
    }
}

/// Distinct well-formed shards have distinct encodings.
pub proof fn lemma_shard_encoding_injective(a: ShardView, b: ShardView)
    requires
        a.wf(),
        b.wf(),
        encode_shard(a) == encode_shard(b),
    ensures
        a == b,
{
    lemma_fields_injective(
        a.data,
        a.size as u64,
        a.timestamp,
        a.index,
        a.id,
        b.data,
        b.size as u64,
        b.timestamp,
        b.index,
        b.id,
    );
}

/// Decoding the encoding of a well-formed shard gives that shard back.
pub proof fn lemma_shard_round_trip(v: ShardView)
    requires
        v.wf(),
    ensures
        decode_shard(encode_shard(v)) == Some(v),
{
    let b = encode_shard(v);
    assert(v.wf() && encode_shard(v) == b);
    let c = choose|c: ShardView| c.wf() && encode_shard(c) == b;
    lemma_shard_encoding_injective(c, v);
}

/// A value with a reversible byte encoding.
pub trait CanSerialize: Sized + View {
    /// Whether a value is one that the encoding restores.
    spec fn valid(v: Self::V) -> bool;

    /// The bytes that a value encodes to.
    spec fn encoding(v: Self::V) -> Seq<u8>;

    /// The valid value that bytes decode to, if any.
    spec fn decoding(b: Seq<u8>) -> Option<Self::V>;

    /// Decoding the encoding of a valid value gives the value back.
    proof fn lemma_decoding_encoding(v: Self::V)
        requires
            Self::valid(v),
        ensures
            Self::decoding(Self::encoding(v)) == Some(v),
    ;

    /// The encoding of this value; fails with `EncodingError` only when the
    /// encoder cannot write it, which it always can for a valid value.
    fn to_bytes(&self) -> (r: Result<Vec<u8>, CodecError>)
        ensures
            Self::valid(self@) ==> r is Ok,
            match r {
                Ok(b) => b@ == Self::encoding(self@),
                Err(e) => e == CodecError::EncodingError,
            },
    ;

    /// The value that `bytes` encode; fails with `DecodingError` exactly when
    /// they encode none.
    fn from_bytes(bytes: Vec<u8>) -> (r: Result<Self, CodecError>)
        ensures
            match r {
                Ok(v) => Self::decoding(bytes@) == Some(v@) && Self::valid(v@),
                Err(e) => Self::decoding(bytes@) is None && e == CodecError::DecodingError,
            },
    ;
}

/// For every valid value of a serializable type, decoding what it encodes to
/// gives the value back.
pub proof fn lemma_serialize_round_trip<T: CanSerialize>(v: T::V)
    requires
        T::valid(v),
    ensures
        T::decoding(T::encoding(v)) == Some(v),
{
    T::lemma_decoding_encoding(v);
}

impl CanSerialize for Shard {
    open spec fn valid(v: ShardView) -> bool {
        v.wf()
    }

    open spec fn encoding(v: ShardView) -> Seq<u8> {
        encode_shard(v)
    }

    open spec fn decoding(b: Seq<u8>) -> Option<ShardView> {
        decode_shard(b)
    }

    proof fn lemma_decoding_encoding(v: ShardView) {
        lemma_shard_round_trip(v);
    }

    fn to_bytes(&self) -> (r: Result<Vec<u8>, CodecError>)
        ensures
            r is Ok,
    {
        let id = self.id().to_bytes();
        match encode_fields(self.data(), self.size() as u64, self.timestamp(), self.index(), &id) {
            Ok(b) => Ok(b),
            Err(_) => Err(CodecError::EncodingError),
        }
    }

    fn from_bytes(bytes: Vec<u8>) -> (r: Result<Shard, CodecError>) {
        match decode_fields(&bytes) {
            Err(_) => {
                proof {
                    if exists|v: ShardView| v.wf() && encode_shard(v) == bytes@ {
                        let v = choose|v: ShardView| v.wf() && encode_shard(v) == bytes@;
                        assert(fields_encoding(v.data, v.size as u64, v.timestamp, v.index, v.id)
                            == bytes@);
                    }
                }
                Err(CodecError::DecodingError)
            },
            Ok((data, size, timestamp, index, id)) => {
                let ghost t = (data@, size, timestamp, index, id@);
                let data_len = data.len();
                let id_len = id.len();
                proof {
                    if exists|v: ShardView| v.wf() && encode_shard(v) == bytes@ {
                        let v = choose|v: ShardView| v.wf() && encode_shard(v) == bytes@;
                        lemma_fields_injective(
                            v.data,
                            v.size as u64,
                            v.timestamp,
                            v.index,
                            v.id,
                            t.0,
                            t.1,
                            t.2,
                            t.3,
                            t.4,
                        );
                    }
                }
                if size > usize::MAX as u64 {
                    return Err(CodecError::DecodingError);
                }
                match Shard::from_parts(data, size as usize, timestamp, index, id) {
                    Some(s) => {
                        proof {
                            lemma_shard_round_trip(s@);
                        }
                        Ok(s)
                    },
                    None => Err(CodecError::DecodingError),
                }
            },
        }
    }
}

/// A value with a reversible compressed form.
pub trait Compressable: Sized + View {
    /// Whether a value is one that compression restores.
    spec fn compressible(v: Self::V) -> bool;

    /// The compressed form of a value.
    spec fn compressed(v: Self::V) -> Seq<u8>;

    /// Distinct compressible values have distinct compressed forms.
    proof fn lemma_compressed_injective(a: Self::V, b: Self::V)
        requires
            Self::compressible(a),
            Self::compressible(b),
            Self::compressed(a) == Self::compressed(b),
        ensures
            a == b,
    ;

    fn compress(&self) -> (r: Vec<u8>)
        requires
            Self::compressible(self@),
        ensures
            r@ == Self::compressed(self@),
    ;

    fn decompress(bytes: Vec<u8>) -> (r: Self)
        requires
            exists|v: Self::V| Self::compressible(v) && Self::compressed(v) == bytes@,
        ensures
            Self::compressible(r@),
            Self::compressed(r@) == bytes@,
    ;
}

/// For every compressible value, decompressing its compressed form gives a
/// value equal to it.
pub proof fn lemma_compress_round_trip<T: Compressable>(v: T::V, r: T::V)
    requires
        T::compressible(v),
        T::compressible(r),
        T::compressed(r) == T::compressed(v),
    ensures
        r == v,
{
    T::lemma_compressed_injective(r, v);
}

/// A digest has no redundancy to remove: its compressed form is its bytes.
impl Compressable for ShardID {
    open spec fn compressible(v: Seq<u8>) -> bool {
        v.len() == HASH_LEN
    }

    open spec fn compressed(v: Seq<u8>) -> Seq<u8> {
        v
    }

    proof fn lemma_compressed_injective(a: Seq<u8>, b: Seq<u8>) {
    }

    fn compress(&self) -> (r: Vec<u8>) {
        self.to_bytes()
    }

    fn decompress(bytes: Vec<u8>) -> (r: ShardID) {
        ShardID::from_bytes(bytes)
    }
}

} // verus!

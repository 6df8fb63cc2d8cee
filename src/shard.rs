//! Shards: content-addressed slices of a payload, and the partition of a
//! payload into shards.
use crate::digits::{decimal, decimal_bytes, lemma_decimal_injective};
use crate::error::GeneralError;
use crate::hash::{sha256_of, HASH_LEN};
use vstd::prelude::*;

verus! {

/// All of the errors that a `Shard` method can report.
#[derive(Debug)]
pub enum ShardError {
    /// The system clock could not be read as a time after the epoch.
    TimestampError,
    /// The split sizes do not add up to the payload's length.
    InvalidSplitSizes(GeneralError),
}

/// Relies on `std::time::SystemTime::now`, read as whole seconds since the
/// Unix epoch; `None` when the clock stands before the epoch. Nothing is known
/// of the value read.
#[verifier::external_body]
fn unix_seconds() -> (r: Option<u64>) {
    std::time::SystemTime::now().duration_since(std::time::UNIX_EPOCH).ok().map(|d| d.as_secs())
}

/// The identity of a payload created at `time`: the digest of the payload
/// followed by the decimal text of the time.
pub open spec fn identity_of(data: Seq<u8>, time: nat) -> Seq<u8> {
    sha256_of(data + decimal(time))
}

/// Two identities of the same payload taken in the same whole second are
/// equal; taken in different seconds, they are digests of different byte
/// sequences, so they differ unless the hash function collides.
pub proof fn lemma_identity_by_second(data: Seq<u8>, t1: u128, t2: u128, a: ShardID, b: ShardID)
    requires
        a@ == identity_of(data, t1 as nat),
        b@ == identity_of(data, t2 as nat),
    ensures
        t1 == t2 ==> a@ == b@,
        t1 != t2 ==> data + decimal(t1 as nat) != data + decimal(t2 as nat),
{
    if t1 != t2 {
        lemma_decimal_injective(t1 as nat, t2 as nat);
        let x = data + decimal(t1 as nat);
        let y = data + decimal(t2 as nat);
        if x == y {
            assert(decimal(t1 as nat) =~= x.subrange(data.len() as int, x.len() as int));
            assert(decimal(t2 as nat) =~= y.subrange(data.len() as int, y.len() as int));
        }
    }
}

/// The identification of a shard on the network.
#[derive(Debug)]
pub struct ShardID {
    id: crate::hash::Hash,
}

impl View for ShardID {
    type V = Seq<u8>;

    closed spec fn view(&self) -> Seq<u8> {
        self.id@
    }
}

impl ShardID {
    /// The identity of `data`, taken at the current time in whole seconds.
    /// Returns the identity with the time used.
    pub fn new(data: &Vec<u8>) -> (r: Result<(Self, u128), ShardError>)
        ensures
            match r {
                Ok((id, time)) => id@ == identity_of(data@, time as nat) && id@.len() == HASH_LEN
                    && time <= u64::MAX,
                Err(e) => e is TimestampError,
            },
    {
        match unix_seconds() {
            Some(secs) => {
                let time = secs as u128;
                Ok((Self::at_time(data, time), time))
            },
            None => Err(ShardError::TimestampError),
        }
    }

    /// The identity of `data` created at `time`.
    pub fn at_time(data: &Vec<u8>, time: u128) -> (r: Self)
        ensures
            r@ == identity_of(data@, time as nat),
            r@.len() == HASH_LEN,
    {
        let mut buf = data.clone();
        let mut digits = decimal_bytes(time);
        buf.append(&mut digits);
        ShardID { id: crate::hash::Hash::of(&buf) }
    }

    /// An identity read back from its digest bytes.
    pub fn from_bytes(bytes: Vec<u8>) -> (r: Self)
        ensures
            r@ == bytes@,
    {
        ShardID { id: crate::hash::Hash::from_bytes(bytes) }
    }

    /// The digest bytes of this identity.
    pub fn to_bytes(&self) -> (r: Vec<u8>)
        ensures
            r@ == self@,
    {
        self.id.to_bytes()
    }
}

impl PartialEq for ShardID {
    fn eq(&self, other: &Self) -> (r: bool) {
        self.id == other.id
    }
}

impl vstd::std_specs::cmp::PartialEqSpecImpl for ShardID {
    open spec fn obeys_eq_spec() -> bool {
        true
    }

    open spec fn eq_spec(&self, other: &ShardID) -> bool {
        self@ == other@
    }
}

/// What a shard holds.
pub struct ShardView {
    pub data: Seq<u8>,
    pub size: usize,
    pub timestamp: u128,
    pub index: u32,
    pub id: Seq<u8>,
}

impl ShardView {
    /// The size matches the data, and the identity is that of the data at
    /// the shard's timestamp.
    pub open spec fn wf(self) -> bool {
        &&& self.size == self.data.len()
        &&& self.id == identity_of(self.data, self.timestamp as nat)
        &&& self.id.len() == HASH_LEN
    }
}

/// The unit of storage and transfer: a slice of a payload with its identity.
#[derive(Debug)]
pub struct Shard {
    data: Vec<u8>,
    size: usize,
    timestamp: u128,
    index: u32,
    id: ShardID,
}

impl View for Shard {
    type V = ShardView;

    closed spec fn view(&self) -> ShardView {
        ShardView {
            data: self.data@,
            size: self.size,
            timestamp: self.timestamp,
            index: self.index,
            id: self.id@,
        }
    }
}

impl Shard {
    /// A shard of `data` at position `index`, identified at the current time.
    pub fn new(data: Vec<u8>, index: u32) -> (r: Result<Shard, ShardError>)
        ensures
            match r {
                Ok(s) => s@.wf() && s@.data == data@ && s@.index == index && s@.timestamp
                    <= u64::MAX,
                Err(e) => e is TimestampError,
            },
    {
        let (id, timestamp) = ShardID::new(&data)?;
        Ok(Shard { size: data.len(), data, timestamp, index, id })
    }

    /// A shard of `data` at position `index`, created at `timestamp`.
    pub fn at_time(data: Vec<u8>, index: u32, timestamp: u128) -> (r: Shard)
        ensures
            r@.wf(),
            r@.data == data@,
            r@.index == index,
            r@.timestamp == timestamp,
    {
        let id = ShardID::at_time(&data, timestamp);
        Shard { size: data.len(), data, timestamp, index, id }
    }

    /// Builds a shard from its parts, or `None` when they do not form a
    /// well-formed shard.
    pub fn from_parts(data: Vec<u8>, size: usize, timestamp: u128, index: u32, id: Vec<u8>) -> (r:
        Option<Shard>)
        ensures
            match r {
                Some(s) => s@ == (ShardView { data: data@, size, timestamp, index, id: id@ }),
                None => !(ShardView { data: data@, size, timestamp, index, id: id@ }).wf(),
            },
            r is Some <==> (ShardView { data: data@, size, timestamp, index, id: id@ }).wf(),
    {
        if size != data.len() {
            return None;
        }
        let expected = ShardID::at_time(&data, timestamp);
        let id = ShardID::from_bytes(id);
        if expected == id {
            Some(Shard { data, size, timestamp, index, id })
        } else {
            None
        }
    }

    pub fn data(&self) -> (r: &Vec<u8>)
        ensures
            r@ == self@.data,
    {
        &self.data
    }

    pub fn size(&self) -> (r: usize)
        ensures
            r == self@.size,
    {
        self.size
    }

    pub fn timestamp(&self) -> (r: u128)
        ensures
            r == self@.timestamp,
    {
        self.timestamp
    }

    pub fn index(&self) -> (r: u32)
        ensures
            r == self@.index,
    {
        self.index
    }

    pub fn id(&self) -> (r: &ShardID)
        ensures
            r@ == self@.id,
    {
        &self.id
    }
}

impl PartialEq for Shard {
    fn eq(&self, other: &Self) -> (r: bool) {
        bytes_equal_sizes(self, other) && self.timestamp == other.timestamp && self.id == other.id
    }
}

/// Whether two shards hold the same data and size.
fn bytes_equal_sizes(a: &Shard, b: &Shard) -> (r: bool)
    ensures
        r == (a@.data == b@.data && a@.size == b@.size),
{
    crate::hash::bytes_equal(&a.data, &b.data) && a.size == b.size
}

impl vstd::std_specs::cmp::PartialEqSpecImpl for Shard {
    open spec fn obeys_eq_spec() -> bool {
        true
    }

    /// Shards are equal when data, size, timestamp and identity match; the
    /// position is not compared.
    open spec fn eq_spec(&self, other: &Shard) -> bool {
        &&& self@.data == other@.data
        &&& self@.size == other@.size
        &&& self@.timestamp == other@.timestamp
        &&& self@.id == other@.id
    }
}

/// The sum of a sequence of sizes.
pub open spec fn total(sizes: Seq<usize>) -> int
    decreases sizes.len(),
{
    if sizes.len() == 0 {
        0
    } else {
        total(sizes.drop_last()) + sizes.last()
    }
}

/// Where the slice of entry `i` of a partition plan starts: the sum of the
/// sizes before it.
pub open spec fn offset(sizes: Seq<usize>, i: int) -> int {
    total(sizes.take(i))
}

/// The data of a sequence of shards, concatenated in order.
pub open spec fn joined(shards: Seq<ShardView>) -> Seq<u8>
    decreases shards.len(),
{
    if shards.len() == 0 {
        Seq::empty()
    } else {
        joined(shards.drop_last()) + shards.last().data
    }
}

/// What a sequence of shards holds.
pub open spec fn views(shards: Seq<Shard>) -> Seq<ShardView> {
    shards.map_values(|s: Shard| s@)
}

/// Each prefix of a plan sums to at most the next longer one.
proof fn lemma_offset_step(sizes: Seq<usize>, i: int)
    requires
        0 <= i < sizes.len(),
    ensures
        offset(sizes, i + 1) == offset(sizes, i) + sizes[i],
{
    assert(sizes.take(i + 1).drop_last() =~= sizes.take(i));
}

/// The sum of a prefix of a plan is at most the sum of the whole plan.
proof fn lemma_offset_bounded(sizes: Seq<usize>, i: int)
    requires
        0 <= i <= sizes.len(),
    ensures
        0 <= offset(sizes, i) <= total(sizes),
    decreases sizes.len() - i,
{
    lemma_total_nonneg(sizes.take(i));
    if i == sizes.len() {
        assert(sizes.take(i) =~= sizes);
        lemma_total_nonneg(sizes);
    } else {
        lemma_offset_step(sizes, i);
        lemma_offset_bounded(sizes, i + 1);
    }
}

proof fn lemma_total_nonneg(sizes: Seq<usize>)
    ensures
        total(sizes) >= 0,
    decreases sizes.len(),
{
    if sizes.len() > 0 {
        lemma_total_nonneg(sizes.drop_last());
    }
}

/// Splits `bytes` into shards of the given sizes, in order: shard `i` holds
/// the `sizes[i]` bytes that follow those of the shards before it and has
/// position `i`. Fails with `InvalidSplitSizes`, producing no shard, exactly
/// when the sizes do not add up to the length of `bytes`.
pub fn split_bytes(bytes: &Vec<u8>, sizes: &Vec<usize>) -> (r: Result<Vec<Shard>, ShardError>)
    requires
        sizes@.len() <= u32::MAX as nat + 1,
    ensures
        r matches Err(ShardError::InvalidSplitSizes(_)) <==> total(sizes@) != bytes@.len(),
        r matches Err(e) ==> e is InvalidSplitSizes || e is TimestampError,
        r matches Err(ShardError::TimestampError) ==> sizes@.len() > 0,
        r matches Ok(shards) ==> {
            &&& shards@.len() == sizes@.len()
            &&& joined(views(shards@)) == bytes@
            &&& forall|i: int|
                0 <= i < shards@.len() ==> {
                    &&& (#[trigger] shards@[i])@.wf()
                    &&& shards@[i]@.index == i
                    &&& shards@[i]@.data == bytes@.subrange(
                        offset(sizes@, i),
                        offset(sizes@, i) + sizes@[i],
                    )
                }
        },
{
    // Check the plan against the payload before any shard is made.
    let mut sum: usize = 0;
    let mut k: usize = 0;
    while k < sizes.len()
        invariant
            k <= sizes@.len(),
            sum == offset(sizes@, k as int),
            sum <= bytes@.len(),
        decreases sizes@.len() - k,
    {
        proof {
            lemma_offset_step(sizes@, k as int);
        }
        if sizes[k] > bytes.len() - sum {
            proof {
                lemma_offset_bounded(sizes@, k + 1);
            }
            return Err(ShardError::InvalidSplitSizes(GeneralError::new("invalid vector of byte split sizes")));
        }
        sum = sum + sizes[k];
        k = k + 1;
    }
    assert(sizes@.take(sizes@.len() as int) =~= sizes@);
    if sum != bytes.len() {
        return Err(ShardError::InvalidSplitSizes(GeneralError::new("invalid vector of byte split sizes")));
    }
    let mut shards: Vec<Shard> = Vec::new();
    let mut pos: usize = 0;
    let mut i: usize = 0;
    while i < sizes.len()
        invariant
            i <= sizes@.len(),
            sizes@.len() <= u32::MAX as nat + 1,
            total(sizes@) == bytes@.len(),
            pos == offset(sizes@, i as int),
            shards@.len() == i,
            joined(views(shards@)) == bytes@.subrange(0, pos as int),
            forall|j: int|
                0 <= j < i ==> {
                    &&& (#[trigger] shards@[j])@.wf()
                    &&& shards@[j]@.index == j
                    &&& shards@[j]@.data == bytes@.subrange(
                        offset(sizes@, j),
                        offset(sizes@, j) + sizes@[j],
                    )
                },
        decreases sizes@.len() - i,
    {
        proof {
            lemma_offset_step(sizes@, i as int);
            lemma_offset_bounded(sizes@, i + 1);
        }
        let size = sizes[i];
        let len = bytes.len();
        assert(pos + size <= len);
        let mut chunk: Vec<u8> = Vec::new();
        let mut n: usize = 0;
        while n < size
            invariant
                n <= size,
                pos + size <= len,
                len == bytes@.len(),
                chunk@ == bytes@.subrange(pos as int, pos + n),
            decreases size - n,
        {
            chunk.push(bytes[pos + n]);
            assert(chunk@ =~= bytes@.subrange(pos as int, pos + n + 1));
            n = n + 1;
        }
        let shard = Shard::new(chunk, i as u32)?;
        let ghost before = shards@;
        shards.push(shard);
        proof {
            assert(views(shards@).drop_last() =~= views(before));
            assert(bytes@.subrange(0, pos + size) =~= bytes@.subrange(0, pos as int)
                + bytes@.subrange(pos as int, pos + size));
        }
        pos = pos + size;
        i = i + 1;
    }
    assert(bytes@.subrange(0, pos as int) =~= bytes@);
    Ok(shards)
}

} // verus!

//! The client: a backlog of pending put and get operations, drained last in
//! first out, and the quorum rules that decide each operation's outcome from
//! what the peers answered.
use crate::shard::{Shard, ShardView};
use vstd::prelude::*;

verus! {

/// Parameters for a client operation on the network.
#[derive(Debug)]
pub struct OperationConfig {
    /// Output location for a get file request on the disk.
    pub output_file: String,
    /// Minimum number of distinct peers that the operation must reach to be valid.
    pub min_nodes: u16,
    /// Should the output be automatically decompressed.
    pub decompress: bool,
    /// Should the output be automatically decrypted.
    pub decrypt: bool,
}

/// The identifier of a file on the network.
#[derive(Debug, Clone, Copy, PartialEq, Eq, Structural)]
pub struct FileID {
    pub value: u64,
}

/// What the network knows of a file: its identifier and its partition plan.
#[derive(Debug)]
pub struct FileMetadata {
    pub id: FileID,
    /// The sizes of the file's shards, in order.
    pub plan: Vec<usize>,
}

/// An operation that a client on the network can perform.
#[derive(Debug)]
pub enum Operation {
    /// Store a file on the network.
    PutFile { file_metadata: FileMetadata, file_bytes: Vec<u8>, config: OperationConfig },
    /// Fetch a file's shards from the network and reassemble it.
    GetFile { file_id: FileID, config: OperationConfig },
}

/// The order in which a backlog is executed: the most recently enqueued
/// operation first.
pub open spec fn execution_order(q: Seq<Operation>) -> Seq<Operation> {
    Seq::new(q.len(), |i: int| q[q.len() - 1 - i])
}

/// A participant that issues operations but hosts no shards.
pub struct Client {
    pending_ops: Vec<Operation>,
    peer_id: Vec<u8>,
}

impl Client {
    /// The pending operations, oldest first.
    pub closed spec fn pending(&self) -> Seq<Operation> {
        self.pending_ops@
    }

    /// The client's network identifier.
    pub closed spec fn peer(&self) -> Seq<u8> {
        self.peer_id@
    }

    /// A client with the given network identifier and no pending operation.
    pub fn new(peer_id: Vec<u8>) -> (r: Client)
        ensures
            r.pending() == Seq::<Operation>::empty(),
            r.peer() == peer_id@,
    {
        Client { pending_ops: Vec::new(), peer_id }
    }

    pub fn peer_id(&self) -> (r: &Vec<u8>)
        ensures
            r@ == self.peer(),
    {
        &self.peer_id
    }

    /// The number of pending operations.
    pub fn pending_count(&self) -> (r: usize)
        ensures
            r == self.pending().len(),
    {
        self.pending_ops.len()
    }

    /// Enqueues a request to fetch a file.
    pub fn get_file(&mut self, file_id: FileID, config: OperationConfig)
        ensures
            final(self).pending() == old(self).pending().push(Operation::GetFile { file_id, config }),
            final(self).peer() == old(self).peer(),
    {
        self.pending_ops.push(Operation::GetFile { file_id, config });
    }

    /// Enqueues a request to store a file.
    pub fn put_file(&mut self, file: FileMetadata, file_bytes: Vec<u8>, config: OperationConfig)
        ensures
            final(self).pending() == old(self).pending().push(
                Operation::PutFile { file_metadata: file, file_bytes, config },
            ),
            final(self).peer() == old(self).peer(),
    {
        self.pending_ops.push(Operation::PutFile { file_metadata: file, file_bytes, config });
    }

    /// Takes the operation to execute next: the most recently enqueued one.
    pub fn next_operation(&mut self) -> (r: Option<Operation>)
        ensures
            old(self).pending().len() == 0 ==> r is None && final(self).pending() == old(
                self,
            ).pending(),
            old(self).pending().len() > 0 ==> r == Some(old(self).pending().last())
                && final(self).pending() == old(self).pending().drop_last(),
            final(self).peer() == old(self).peer(),
    {
        self.pending_ops.pop()
    }

    /// Takes all pending operations, in the order they are to be executed.
    pub fn drain(&mut self) -> (r: Vec<Operation>)
        ensures
            r@ == execution_order(old(self).pending()),
            final(self).pending() == Seq::<Operation>::empty(),
            final(self).peer() == old(self).peer(),
    {
        let mut out: Vec<Operation> = Vec::new();
        let ghost q = self.pending_ops@;
        while self.pending_ops.len() > 0
            invariant
                self.pending_ops@ == q.take(q.len() - out@.len()),
                out@.len() <= q.len(),
                out@ == execution_order(q).take(out@.len() as int),
                self.peer_id == old(self).peer_id,
            decreases self.pending_ops@.len(),
        {
            let op = self.pending_ops.pop().unwrap();
            out.push(op);
            assert(out@ =~= execution_order(q).take(out@.len() as int));
            assert(self.pending_ops@ =~= q.take(q.len() - out@.len()));
        }
        assert(out@ =~= execution_order(q));
        out
    }
}

/// Operations drain last in first out: after `a` and then `b` are enqueued
/// on any backlog, `b` executes first and `a` second.
pub proof fn lemma_last_in_first_out(q: Seq<Operation>, a: Operation, b: Operation)
    ensures
        execution_order(q.push(a).push(b))[0] == b,
        execution_order(q.push(a).push(b))[1] == a,
        execution_order(q.push(a).push(b)).subrange(2, q.len() + 2int) == execution_order(q),
{
    assert(execution_order(q.push(a).push(b)).subrange(2, q.len() + 2int) =~= execution_order(q));
}

/// Why an operation failed at the network.
#[derive(Debug, PartialEq, Eq, Structural)]
pub enum DispatchError {
    /// Fewer distinct peers than the operation requires took part.
    QuorumNotMet,
    /// No peer returned one of the file's shards.
    MissingShard,
}

/// The number of distinct peers in a sequence: the positions whose peer does
/// not occur before them.
pub open spec fn distinct_count(s: Seq<u64>) -> nat
    decreases s.len(),
{
    if s.len() == 0 {
        0
    } else {
        distinct_count(s.drop_last()) + if s.drop_last().contains(s.last()) {
            0nat
        } else {
            1nat
        }
    }
}

proof fn lemma_distinct_count_bounded(s: Seq<u64>)
    ensures
        distinct_count(s) <= s.len(),
    decreases s.len(),
{
    if s.len() > 0 {
        lemma_distinct_count_bounded(s.drop_last());
    }
}

/// The number of distinct peers among `peers`.
pub fn count_distinct(peers: &Vec<u64>) -> (r: usize)
    ensures
        r == distinct_count(peers@),
{
    let mut count: usize = 0;
    let mut i: usize = 0;
    while i < peers.len()
        invariant
            i <= peers@.len(),
            count == distinct_count(peers@.take(i as int)),
        decreases peers@.len() - i,
    {
        let mut seen = false;
        let mut j: usize = 0;
        while j < i
            invariant
                j <= i < peers@.len(),
                seen == exists|k: int| 0 <= k < j && peers@[k] == peers@[i as int],
            decreases i - j,
        {
            if peers[j] == peers[i] {
                seen = true;
            }
            j = j + 1;
        }
        let ghost pre = peers@.take(i as int);
        proof {
            assert(peers@.take(i + 1).drop_last() =~= pre);
            assert(peers@.take(i + 1).last() == peers@[i as int]);
            if seen {
                let k = choose|k: int| 0 <= k < i && peers@[k] == peers@[i as int];
                assert(pre[k] == peers@[i as int]);
            }
            lemma_distinct_count_bounded(pre);
        }
        if !seen {
            count = count + 1;
        }
        i = i + 1;
    }
    assert(peers@.take(peers@.len() as int) =~= peers@);
    count
}

/// The outcome of storing a file's shards: each shard must be acknowledged
/// by at least `min_nodes` distinct peers. `acks[i]` lists the peers that
/// acknowledged shard `i` before the deadline.
pub fn put_outcome(acks: &Vec<Vec<u64>>, min_nodes: u16) -> (r: Result<(), DispatchError>)
    ensures
        r is Ok <==> forall|i: int| 0 <= i < acks@.len() ==> distinct_count(#[trigger] acks@[i]@) >= min_nodes,
        r matches Err(e) ==> e == DispatchError::QuorumNotMet,
{
    let mut i: usize = 0;
    while i < acks.len()
        invariant
            i <= acks@.len(),
            forall|k: int| 0 <= k < i ==> distinct_count(#[trigger] acks@[k]@) >= min_nodes,
        decreases acks@.len() - i,
    {
        if count_distinct(&acks[i]) < min_nodes as usize {
            return Err(DispatchError::QuorumNotMet);
        }
        i = i + 1;
    }
    Ok(())
}

/// A shard that a peer returned.
#[derive(Debug)]
pub struct FetchResponse {
    pub peer: u64,
    pub shard: Shard,
}

/// The peers that sent the responses for shards `0..n`, in order; a
/// response for any other position is not one of this file's shards.
pub open spec fn responders(rs: Seq<FetchResponse>, n: nat) -> Seq<u64>
    decreases rs.len(),
{
    if rs.len() == 0 {
        Seq::empty()
    } else if rs.last().shard@.index < n {
        responders(rs.drop_last(), n).push(rs.last().peer)
    } else {
        responders(rs.drop_last(), n)
    }
}

/// The first shard among the responses that has position `i`.
pub open spec fn first_for(rs: Seq<FetchResponse>, i: int) -> Option<ShardView>
    decreases rs.len(),
{
    if rs.len() == 0 {
        None
    } else if rs[0].shard@.index == i {
        Some(rs[0].shard@)
    } else {
        first_for(rs.drop_first(), i)
    }
}

/// The data of shards `0..n`, each taken from the first response for it,
/// concatenated in order; `None` when one of them has no response.
pub open spec fn reassembled(rs: Seq<FetchResponse>, n: nat) -> Option<Seq<u8>>
    decreases n,
{
    if n == 0 {
        Some(Seq::empty())
    } else {
        match (reassembled(rs, (n - 1) as nat), first_for(rs, n - 1)) {
            (Some(p), Some(v)) => Some(p + v.data),
            _ => None,
        }
    }
}

/// The first response for position `i`, as an index into `rs`.
fn find_first(rs: &Vec<FetchResponse>, i: usize) -> (r: Option<usize>)
    ensures
        match r {
            Some(k) => k < rs@.len() && first_for(rs@, i as int) == Some(rs@[k as int].shard@),
            None => first_for(rs@, i as int) is None,
        },
{
    let mut k: usize = 0;
    assert(rs@.subrange(0, rs@.len() as int) =~= rs@);
    while k < rs.len()
        invariant
            k <= rs@.len(),
            first_for(rs@, i as int) == first_for(rs@.subrange(k as int, rs@.len() as int), i as int),
        decreases rs@.len() - k,
    {
        let ghost rest = rs@.subrange(k as int, rs@.len() as int);
        assert(rest.drop_first() =~= rs@.subrange(k + 1, rs@.len() as int));
        if rs[k].shard.index() as u64 == i as u64 {
            return Some(k);
        }
        k = k + 1;
    }
    None
}

/// The outcome of fetching a file of `shard_count` shards: the responses for
/// its shards must come from at least `min_nodes` distinct peers, and the file is the
/// data of the first response for each shard, concatenated in order.
pub fn get_outcome(shard_count: usize, responses: &Vec<FetchResponse>, min_nodes: u16) -> (r: Result<Vec<u8>, DispatchError>)
    ensures
        distinct_count(responders(responses@, shard_count as nat)) < min_nodes ==> r == Err::<Vec<u8>, DispatchError>(DispatchError::QuorumNotMet),
        distinct_count(responders(responses@, shard_count as nat)) >= min_nodes ==> match reassembled(responses@, shard_count as nat) {
            Some(b) => r matches Ok(v) && v@ == b,
            None => r == Err::<Vec<u8>, DispatchError>(DispatchError::MissingShard),
        },
{
    let mut peers: Vec<u64> = Vec::new();
    let mut k: usize = 0;
    while k < responses.len()
        invariant
            k <= responses@.len(),
            peers@ == responders(responses@.take(k as int), shard_count as nat),
        decreases responses@.len() - k,
    {
        assert(responses@.take(k + 1).drop_last() =~= responses@.take(k as int));
        if (responses[k].shard.index() as u64) < (shard_count as u64) {
            peers.push(responses[k].peer);
        }
        k = k + 1;
    }
    assert(responses@.take(responses@.len() as int) =~= responses@);
    if count_distinct(&peers) < min_nodes as usize {
        return Err(DispatchError::QuorumNotMet);
    }
    let mut out: Vec<u8> = Vec::new();
    let mut i: usize = 0;
    while i < shard_count
        invariant
            i <= shard_count,
            distinct_count(responders(responses@, shard_count as nat)) >= min_nodes,
            reassembled(responses@, i as nat) == Some(out@),
        decreases shard_count - i,
    {
        match find_first(responses, i) {
            Some(k) => {
                let mut part = responses[k].shard.data().clone();
                out.append(&mut part);
            },
            None => {
                proof {
                    lemma_missing_stays_missing(responses@, (i + 1) as nat, shard_count as nat);
                }
                return Err(DispatchError::MissingShard);
            },
        }
        i = i + 1;
    }
    Ok(out)
}

/// Once a prefix of the shards cannot be reassembled, no longer prefix can.
proof fn lemma_missing_stays_missing(rs: Seq<FetchResponse>, m: nat, n: nat)
    requires
        m <= n,
        reassembled(rs, m) is None,
    ensures
        reassembled(rs, n) is None,
    decreases n - m,
{
    if m < n {
        lemma_missing_stays_missing(rs, m + 1, n);
    }
}

} // verus!

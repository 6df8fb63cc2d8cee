use meros::client::{
    count_distinct, get_outcome, put_outcome, Client, DispatchError, FetchResponse, FileID,
    FileMetadata, Operation, OperationConfig,
};
use meros::shard::{split_bytes, Shard};

fn config(min_nodes: u16) -> OperationConfig {
    OperationConfig {
        output_file: "out.bin".to_string(),
        min_nodes,
        decompress: false,
        decrypt: false,
    }
}

#[test]
fn drain_runs_last_enqueued_first() {
    let mut c = Client::new(vec![1u8, 2, 3]);
    c.get_file(FileID { value: 1 }, config(1));
    c.put_file(FileMetadata { id: FileID { value: 2 }, plan: vec![1] }, vec![9u8], config(1));
    assert_eq!(c.pending_count(), 2);
    let ops = c.drain();
    assert_eq!(c.pending_count(), 0);
    assert_eq!(ops.len(), 2);
    match &ops[0] {
        Operation::PutFile { file_metadata, file_bytes, .. } => {
            assert_eq!(file_metadata.id, FileID { value: 2 });
            assert_eq!(file_bytes, &vec![9u8]);
        }
        _ => panic!("put must run first"),
    }
    match &ops[1] {
        Operation::GetFile { file_id, .. } => assert_eq!(*file_id, FileID { value: 1 }),
        _ => panic!("get must run second"),
    }
    assert_eq!(c.peer_id(), &vec![1u8, 2, 3]);
}

#[test]
fn next_operation_pops_newest() {
    let mut c = Client::new(vec![]);
    assert!(c.next_operation().is_none());
    c.get_file(FileID { value: 1 }, config(1));
    c.get_file(FileID { value: 2 }, config(1));
    match c.next_operation() {
        Some(Operation::GetFile { file_id, .. }) => assert_eq!(file_id.value, 2),
        _ => panic!("expected the second get"),
    }
    assert_eq!(c.pending_count(), 1);
}

#[test]
fn distinct_peers_counted_once() {
    assert_eq!(count_distinct(&vec![1u64, 2, 1, 3, 3]), 3);
    assert_eq!(count_distinct(&vec![]), 0);
}

#[test]
fn put_quorum_not_met() {
    // Five peers were asked; only peers 2 and 4 acknowledged.
    let acks = vec![vec![2u64, 4]];
    assert_eq!(put_outcome(&acks, 3), Err(DispatchError::QuorumNotMet));
}

#[test]
fn put_quorum_needed_for_every_shard() {
    assert_eq!(put_outcome(&vec![vec![1u64, 2, 3], vec![1, 2, 3, 4]], 3), Ok(()));
    assert_eq!(put_outcome(&vec![vec![1u64, 2, 3], vec![1, 1, 2]], 3), Err(DispatchError::QuorumNotMet));
}

fn two_shard_responses(payload: &Vec<u8>) -> Vec<FetchResponse> {
    let shards = split_bytes(payload, &vec![2usize, 3]).unwrap();
    let mut responses = Vec::new();
    for (peer, s) in [(7u64, 1usize), (8, 0), (9, 1)] {
        let sent = &shards[s];
        responses.push(FetchResponse {
            peer,
            shard: Shard::at_time(sent.data().clone(), sent.index(), sent.timestamp()),
        });
    }
    responses
}

#[test]
fn get_reassembles_from_three_peers() {
    let payload = vec![1u8, 2, 3, 4, 5];
    let responses = two_shard_responses(&payload);
    assert_eq!(get_outcome(2, &responses, 2), Ok(payload));
}

#[test]
fn get_quorum_not_met() {
    let payload = vec![1u8, 2, 3, 4, 5];
    let responses = two_shard_responses(&payload);
    assert_eq!(get_outcome(2, &responses, 4), Err(DispatchError::QuorumNotMet));
}

#[test]
fn get_missing_shard() {
    let payload = vec![1u8, 2, 3, 4, 5];
    let responses = two_shard_responses(&payload);
    assert_eq!(get_outcome(3, &responses, 2), Err(DispatchError::MissingShard));
}

#[test]
fn get_takes_first_response_per_shard() {
    let responses = vec![
        FetchResponse { peer: 1, shard: Shard::at_time(vec![4u8], 0, 1) },
        FetchResponse { peer: 2, shard: Shard::at_time(vec![5u8], 0, 1) },
    ];
    assert_eq!(get_outcome(1, &responses, 1), Ok(vec![4u8]));
}

#[test]
fn get_ignores_responses_for_other_positions() {
    // Peer 3 only answered with a shard at position 5, which is not one of
    // this file's shards, so it does not count toward the quorum.
    let responses = vec![
        FetchResponse { peer: 1, shard: Shard::at_time(vec![4u8], 0, 1) },
        FetchResponse { peer: 3, shard: Shard::at_time(vec![6u8], 5, 1) },
    ];
    assert_eq!(get_outcome(1, &responses, 2), Err(DispatchError::QuorumNotMet));
    assert_eq!(get_outcome(1, &responses, 1), Ok(vec![4u8]));
}

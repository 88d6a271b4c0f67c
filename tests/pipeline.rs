use sailfish_node::committee::PublicKey;
use sailfish_node::envelope::decode_batch;
use sailfish_node::pipeline::{
    after_read, after_wait, batch_contents, build_record, worker_store_path, AfterRead,
    BatchContents, Certificate, Digest, Header, NoVoteCert, OutputLog, TimeoutCert,
};
use sailfish_node::store::PendingReads;

fn envelope(tag: u32, txs: Vec<Vec<u8>>) -> Vec<u8> {
    bincode::serialize(&(tag, txs)).unwrap()
}

fn header(round: u64, payload: Vec<(Digest, u32)>) -> Header {
    Header {
        author: PublicKey([1; 32]),
        round,
        id: Digest([2; 32]),
        payload,
        parents: vec![Digest([6; 32])],
        signature: vec![0xaa, 0xbb, 0xcc],
        timeout_cert: TimeoutCert { round: 4, timeouts: vec![(PublicKey([9; 32]), vec![0xff])] },
        no_vote_cert: NoVoteCert { round: 5, no_votes: vec![] },
    }
}

const B64_ONES: &str = "AQEBAQEBAQEBAQEBAQEBAQEBAQEBAQEBAQEBAQEBAQE=";
const B64_TWOS: &str = "AgICAgICAgICAgICAgICAgICAgICAgICAgICAgICAgI=";
const B64_THREES: &str = "AwMDAwMDAwMDAwMDAwMDAwMDAwMDAwMDAwMDAwMDAwM=";
const B64_FOURS: &str = "BAQEBAQEBAQEBAQEBAQEBAQEBAQEBAQEBAQEBAQEBAQ=";
const B64_FIVES: &str = "BQUFBQUFBQUFBQUFBQUFBQUFBQUFBQUFBQUFBQUFBQU=";
const B64_SIXES: &str = "BgYGBgYGBgYGBgYGBgYGBgYGBgYGBgYGBgYGBgYGBgY=";
const B64_NINES: &str = "CQkJCQkJCQkJCQkJCQkJCQkJCQkJCQkJCQkJCQkJCQk=";

#[test]
fn worker_store_path_appends_the_worker_id() {
    assert_eq!(worker_store_path("/tmp/s", 0), "/tmp/s-0");
    assert_eq!(worker_store_path("db", 17), "db-17");
    assert_eq!(worker_store_path("", 4294967295), "-4294967295");
}

#[test]
fn batch_envelope_decodes_its_transactions() {
    let bytes = envelope(0, vec![vec![0xde, 0xad], vec![1]]);
    assert_eq!(decode_batch(&bytes), Some(vec![vec![0xde, 0xad], vec![1]]));
    assert_eq!(decode_batch(&envelope(0, vec![])), Some(vec![]));
    assert_eq!(decode_batch(&envelope(0, vec![vec![]])), Some(vec![vec![]]));
}

#[test]
fn other_variants_and_truncated_messages_are_not_batches() {
    assert_eq!(decode_batch(&envelope(1, vec![vec![1, 2]])), None);
    let bytes = envelope(0, vec![vec![0xde, 0xad], vec![1]]);
    assert_eq!(decode_batch(&bytes[..bytes.len() - 1]), None);
    assert_eq!(decode_batch(&bytes[..11]), None);
    assert_eq!(decode_batch(&[]), None);
}

#[test]
fn trailing_bytes_after_a_batch_are_ignored() {
    let mut bytes = envelope(0, vec![vec![7]]);
    bytes.push(0x55);
    assert_eq!(decode_batch(&bytes), Some(vec![vec![7]]));
}

#[test]
fn batch_contents_cover_the_three_outcomes() {
    let fetched = Some(envelope(0, vec![vec![0xde, 0xad], vec![0x01, 0xa0]]));
    assert_eq!(
        batch_contents(&fetched),
        BatchContents::Transactions(vec!["dead".to_string(), "01a0".to_string()])
    );
    assert_eq!(batch_contents(&Some(envelope(1, vec![]))), BatchContents::Invalid);
    assert_eq!(batch_contents(&Some(vec![1, 2, 3])), BatchContents::Invalid);
    assert_eq!(batch_contents(&None), BatchContents::Missing);
}

#[test]
fn record_renders_every_field() {
    let h = header(
        3,
        vec![(Digest([3; 32]), 0), (Digest([4; 32]), 1), (Digest([5; 32]), 0)],
    );
    let fetched = vec![Some(envelope(0, vec![vec![0xde, 0xad], vec![1]])), None, Some(envelope(1, vec![]))];
    let r = build_record(&h, &fetched);
    assert_eq!(r.author, B64_ONES);
    assert_eq!(r.round, 3);
    assert_eq!(r.id, B64_TWOS);
    assert_eq!(
        r.payload,
        vec![(B64_THREES.to_string(), 0), (B64_FOURS.to_string(), 1), (B64_FIVES.to_string(), 0)]
    );
    assert_eq!(r.transactions.len(), 3);
    assert_eq!(r.transactions[0].0, B64_THREES);
    assert_eq!(
        r.transactions[0].1,
        BatchContents::Transactions(vec!["dead".to_string(), "01".to_string()])
    );
    assert_eq!(r.transactions[1], (B64_FOURS.to_string(), BatchContents::Missing));
    assert_eq!(r.transactions[2], (B64_FIVES.to_string(), BatchContents::Invalid));
    assert_eq!(r.parents, vec![B64_SIXES.to_string()]);
    assert_eq!(r.signature, "qrvM");
    assert_eq!(r.timeout_cert.round, 4);
    assert_eq!(r.timeout_cert.signers, vec![(B64_NINES.to_string(), "/w==".to_string())]);
    assert_eq!(r.no_vote_cert.round, 5);
    assert!(r.no_vote_cert.signers.is_empty());
}

#[test]
fn log_keeps_arrival_order() {
    let mut log = OutputLog::new();
    for round in [7u64, 2, 9] {
        let cert = Certificate { header: header(round, vec![(Digest([3; 32]), 0)]) };
        let r = log.push_certificate(&cert, &vec![None]);
        assert_eq!(r.round, round);
    }
    let rounds: Vec<u64> = log.records().iter().map(|r| r.round).collect();
    assert_eq!(rounds, vec![7, 2, 9]);
    // The same input gives the same records.
    let mut again = OutputLog::new();
    for round in [7u64, 2, 9] {
        let cert = Certificate { header: header(round, vec![(Digest([3; 32]), 0)]) };
        again.push_certificate(&cert, &vec![None]);
    }
    assert_eq!(log.records(), again.records());
}

#[test]
fn read_outcomes_decide_the_next_move() {
    assert_eq!(
        match after_read(Ok::<Option<Vec<u8>>, ()>(Some(vec![1]))) {
            AfterRead::Fetched(v) => v,
            _ => panic!("a hit is used"),
        },
        vec![1]
    );
    assert!(matches!(after_read(Ok::<Option<Vec<u8>>, ()>(None)), AfterRead::AwaitWrite));
    assert!(matches!(after_read(Err::<Option<Vec<u8>>, &str>("io")), AfterRead::GiveUp));
    assert_eq!(after_wait(Ok::<Vec<u8>, ()>(vec![2])), Some(vec![2]));
    assert_eq!(after_wait(Err::<Vec<u8>, ()>(())), None);
}

#[test]
fn pipeline_missing_then_present() {
    // The certificate names digest d of worker 0 before the worker wrote it.
    let d = Digest([3; 32]);
    let batch = envelope(0, vec![vec![0xca, 0xfe]]);
    let mut waiting: PendingReads<u32> = PendingReads::new();
    // The point read misses, so the pipeline waits for the write.
    assert!(matches!(after_read(Ok::<Option<Vec<u8>>, ()>(None)), AfterRead::AwaitWrite));
    assert!(waiting.on_notify(d.0.to_vec(), 1, Ok::<Option<Vec<u8>>, ()>(None)).is_none());
    // The worker writes the batch; the store releases the waiter with the value.
    let released = waiting.on_write(&d.0, &Ok::<(), ()>(()));
    assert_eq!(released, vec![1]);
    let fetched = after_wait(Ok::<Vec<u8>, ()>(batch.clone()));
    let mut log = OutputLog::new();
    let cert = Certificate { header: header(1, vec![(d, 0)]) };
    let r = log.push_certificate(&cert, &vec![fetched]);
    assert_eq!(r.transactions[0].1, BatchContents::Transactions(vec!["cafe".to_string()]));
}

use auditor::batcher::{Batcher, HashSubmission, BATCH_LIMIT, FLUSH_INTERVAL_MS};
use auditor::config::SigstoreConfig;
use auditor::json::JsonValue;
use auditor::log_root::{parse_log_root, proof_from_answer, queued_index, root_from_answer, LogError, SignedRoot};
use auditor::pipeline::{event_record, Action, Commit, CommitError, Event, Stage};
use auditor::signer::Signer;

fn submission(n: u8) -> HashSubmission {
    HashSubmission { hash: vec![n; 32], metadata: b"{}".to_vec() }
}

fn signer() -> Signer {
    Signer::new(&SigstoreConfig { fulcio_url: String::new(), rekor_url: String::new() })
}

fn root(size: i64) -> SignedRoot {
    SignedRoot { root_hash: vec![2u8; 32], tree_size: size }
}

/// Runs a commit to its end, answering each action from the given log.
fn run(s: &Signer, hash: Vec<u8>, index: i64, fail_at: Option<Stage>) -> (Commit, Action) {
    let (mut c, mut action) = Commit::start(hash, Some(JsonValue::Null));
    loop {
        let event = match &action {
            Action::QueueLeaf { .. } => {
                if fail_at == Some(Stage::Queue) {
                    Event::Queued(Err(LogError::Unavailable))
                } else {
                    Event::Queued(Ok(index))
                }
            }
            Action::FetchRoot => Event::RootFetched(Ok(root(index + 1))),
            Action::FetchProof { .. } => {
                if fail_at == Some(Stage::Proof) {
                    Event::ProofFetched(Err(LogError::NoProof))
                } else {
                    Event::ProofFetched(Ok(vec![vec![4u8; 32]]))
                }
            }
            Action::Store { .. } => {
                if fail_at == Some(Stage::Store) {
                    Event::Stored(Err(CommitError::StoreFailed))
                } else {
                    Event::Stored(Ok(()))
                }
            }
            Action::Publish { .. } => {
                if fail_at == Some(Stage::Publish) {
                    Event::Published(Err(CommitError::PublishTimeout))
                } else {
                    Event::Published(Ok(()))
                }
            }
            Action::Reply { .. } | Action::Abandon(_) => return (c, action),
        };
        action = c.step(s, event);
    }
}

#[test]
fn batch_boundary_scenario() {
    let mut b = Batcher::new(0);
    let mut flushes: Vec<(usize, u64)> = Vec::new();
    for i in 0..250u64 {
        let now = i / 30;
        if let Some(batch) = b.on_submission(submission(i as u8), now) {
            flushes.push((batch.len(), now));
        }
    }
    assert_eq!(b.len(), 50);
    let mut t = 10;
    while b.len() > 0 {
        if let Some(batch) = b.on_tick(t) {
            flushes.push((batch.len(), t));
        }
        t += 10;
    }
    assert_eq!(flushes, vec![(100, 3), (100, 6), (50, 110)]);
    assert!(b.on_tick(t + 1000).is_none());
}

#[test]
fn batch_flushes_on_hundredth_item_in_order() {
    assert_eq!(BATCH_LIMIT, 100);
    assert_eq!(FLUSH_INTERVAL_MS, 100);
    let mut b = Batcher::new(0);
    for i in 0..99u8 {
        assert!(b.on_submission(submission(i), 1).is_none());
    }
    let batch = b.on_submission(submission(99), 2).unwrap();
    assert_eq!(batch.len(), 100);
    for (i, s) in batch.iter().enumerate() {
        assert_eq!(s.hash, vec![i as u8; 32]);
    }
    assert_eq!(b.len(), 0);
}

#[test]
fn slow_arrivals_flush_within_interval() {
    let mut b = Batcher::new(0);
    assert!(b.on_tick(500).is_none());
    assert!(b.on_submission(submission(1), 505).is_none());
    // The interval since the last flush (at 0) has long passed.
    let batch = b.on_tick(510).unwrap();
    assert_eq!(batch.len(), 1);
    assert!(b.on_submission(submission(2), 520).is_none());
    for t in [530u64, 560, 600] {
        assert!(b.on_tick(t).is_none());
    }
    let batch = b.on_tick(610).unwrap();
    assert_eq!(batch.len(), 1);
    assert!(b.on_tick(1000).is_none());
}

#[test]
fn log_root_parsing() {
    let mut bytes = vec![0u8, 1];
    bytes.extend_from_slice(&5i64.to_be_bytes());
    bytes.push(3);
    bytes.extend_from_slice(&[7, 8, 9, 10]);
    let r = parse_log_root(&bytes).ok().unwrap();
    assert_eq!(r.tree_size, 5);
    assert_eq!(r.root_hash, vec![7, 8, 9]);
    assert!(matches!(parse_log_root(&bytes[..10]), Err(LogError::Malformed)));
    assert!(matches!(parse_log_root(&bytes[..13]), Err(LogError::Malformed)));
    let empty_hash = [0u8, 0, 0, 0, 0, 0, 0, 0, 1, 0, 0];
    let r = parse_log_root(&empty_hash).ok().unwrap();
    assert_eq!(r.tree_size, 256);
    assert!(r.root_hash.is_empty());
    assert!(matches!(root_from_answer(None), Err(LogError::Malformed)));
    assert_eq!(root_from_answer(Some(&bytes)).ok().unwrap().tree_size, 5);
}

#[test]
fn log_answers() {
    assert_eq!(queued_index(Some(Some(4))), Ok(4));
    assert_eq!(queued_index(Some(None)), Err(LogError::Malformed));
    assert_eq!(queued_index(None), Err(LogError::Rejected));
    assert_eq!(proof_from_answer(None), Err(LogError::NoProof));
    assert_eq!(proof_from_answer(Some(vec![vec![1]])), Ok(vec![vec![1]]));
}

#[test]
fn event_record_scenario() {
    let (key, value) = event_record(&[0xde, 0xad], b"{}");
    assert_eq!(key, b"dead".to_vec());
    assert_eq!(value, b"dead:{}".to_vec());
}

#[test]
fn commit_runs_every_step() {
    let s = signer();
    let (c, action) = run(&s, vec![1u8; 32], 3, None);
    assert_eq!(c.stage, Stage::Done);
    match action {
        Action::Reply { receipt, leaf_index } => {
            assert_eq!(leaf_index, 3);
            assert_eq!(receipt, c.receipt);
            assert!(String::from_utf8(receipt).unwrap().contains("\"leaf_index\":3"));
        }
        _ => panic!("expected a reply"),
    }
}

#[test]
fn commit_waits_for_covering_root() {
    let s = signer();
    let (mut c, _) = Commit::start(vec![1u8; 32], None);
    assert!(matches!(c.step(&s, Event::Queued(Ok(5))), Action::FetchRoot));
    assert!(matches!(c.step(&s, Event::RootFetched(Ok(root(5)))), Action::FetchRoot));
    assert_eq!(c.stage, Stage::Root);
    match c.step(&s, Event::RootFetched(Ok(root(6)))) {
        Action::FetchProof { leaf_index, tree_size } => {
            assert_eq!((leaf_index, tree_size), (5, 6));
        }
        _ => panic!("expected a proof request"),
    }
    let a = c.step(&s, Event::ProofFetched(Ok(vec![])));
    assert!(matches!(a, Action::Abandon(CommitError::BadMetadata)));
    assert_eq!(c.stage, Stage::Failed);
}

#[test]
fn failure_stays_with_its_submission() {
    let s = signer();
    let mut finished = Vec::new();
    for (k, fail) in [None, Some(Stage::Proof), None, Some(Stage::Publish), None].into_iter().enumerate() {
        let (c, action) = run(&s, vec![k as u8; 32], k as i64, fail);
        finished.push((c.stage, matches!(action, Action::Reply { .. })));
    }
    assert_eq!(
        finished,
        vec![
            (Stage::Done, true),
            (Stage::Failed, false),
            (Stage::Done, true),
            (Stage::Failed, false),
            (Stage::Done, true),
        ]
    );
    let (_, a) = run(&s, vec![0u8; 32], 0, Some(Stage::Queue));
    assert!(matches!(a, Action::Abandon(CommitError::Log(LogError::Unavailable))));
    let (_, a) = run(&s, vec![0u8; 32], 0, Some(Stage::Store));
    assert!(matches!(a, Action::Abandon(CommitError::StoreFailed)));
}

#[test]
fn duplicate_hashes_commit_separately() {
    let s = signer();
    let (first, a) = run(&s, vec![7u8; 32], 10, None);
    let (second, b) = run(&s, vec![7u8; 32], 11, None);
    assert_eq!(first.leaf_index, 10);
    assert_eq!(second.leaf_index, 11);
    assert!(matches!(a, Action::Reply { leaf_index: 10, .. }));
    assert!(matches!(b, Action::Reply { leaf_index: 11, .. }));
}

use std::collections::BTreeMap;
use storage_chain_index::bitswap::{
    BitswapClient, BitswapError, BitswapMessage, BitswapReply, Block,
};
use storage_chain_index::content_map::ContentMap;
use storage_chain_index::indexed_transactions::{
    HashingAlgorithm, IndexedTransactionInfo, IndexedTransactionMeta,
};
use storage_chain_index::indexer::{
    Indexer, IndexerReply, IndexerStage, GAP_SYNC_POLL_INTERVAL_SECS,
};
use storage_chain_index::peers::{
    PeerFetch, PeerStage, BITSWAP_PER_PEER_TIMEOUT_SECS, MAX_PEERS_PER_HASH,
};
use storage_chain_index::resolve::{ResolvePending, ResolveReply, ResolveStage};
use storage_chain_index::sweep::{
    gap_sync_complete, runtime_supports_indexing, sweep_window, CommitSweep, SweepReply,
    SweepStage, SweepWindow, SyncStatus,
};

type Hash = [u8; 32];

fn info(hash: u8) -> IndexedTransactionInfo {
    IndexedTransactionInfo {
        content_hash: [hash; 32],
        size: 100 + hash as u32,
        hashing: HashingAlgorithm::Blake2b256,
        cid_codec: 0x55,
    }
}

fn unsupported(hash: u8) -> IndexedTransactionInfo {
    IndexedTransactionInfo { hashing: HashingAlgorithm::Sha2_256, ..info(hash) }
}

fn meta(hash: u8) -> IndexedTransactionMeta {
    IndexedTransactionMeta { content_hash: [hash; 32], size: 100 + hash as u32 }
}

/// What a sweep can find out of a block.
#[derive(Clone, Default)]
struct Facts {
    hash: Option<Hash>,
    meta: Option<Vec<IndexedTransactionInfo>>,
    body: Option<bool>,
    missing: Option<Vec<Hash>>,
}

fn reply_to(stage: &SweepStage, chain: &BTreeMap<u64, Facts>) -> SweepReply {
    let block = |number: &u64| chain.get(number).cloned().unwrap_or_default();
    match stage {
        SweepStage::Hash { number } => SweepReply::Hash(block(number).hash),
        SweepStage::Meta { number, .. } => SweepReply::Meta(block(number).meta),
        SweepStage::Body { number, .. } => SweepReply::Body(block(number).body),
        SweepStage::Commit { number, .. } => SweepReply::Committed(block(number).missing),
        SweepStage::Done => panic!("nothing is asked"),
    }
}

/// Runs a sweep to its end, and collects the indexes that it commits.
fn sweep(
    start: u64,
    finalized: u64,
    chain: &BTreeMap<u64, Facts>,
) -> (ContentMap<u32>, ContentMap<IndexedTransactionInfo>, Vec<Vec<IndexedTransactionMeta>>) {
    let mut sweep = CommitSweep::new(start, finalized);
    let mut committed = vec![];
    while *sweep.stage() != SweepStage::Done {
        if let SweepStage::Commit { meta, .. } = sweep.stage() {
            committed.push(meta.clone());
        }
        let reply = reply_to(sweep.stage(), chain);
        assert!(sweep.can_take(&reply));
        sweep.take(reply);
    }
    let (pending, known) = sweep.into_parts();
    (pending, known, committed)
}

#[test]
fn runtime_without_the_api_is_not_indexed() {
    assert!(runtime_supports_indexing(Some(true)));
    assert!(!runtime_supports_indexing(Some(false)));
    assert!(!runtime_supports_indexing(None));
}

#[test]
fn gap_sync_is_complete_when_idle_without_warp_sync() {
    assert!(gap_sync_complete(Some(SyncStatus { idle: true, warp_sync: false })));
    assert!(!gap_sync_complete(Some(SyncStatus { idle: true, warp_sync: true })));
    assert!(!gap_sync_complete(Some(SyncStatus { idle: false, warp_sync: false })));
    assert!(!gap_sync_complete(Some(SyncStatus { idle: false, warp_sync: true })));
    assert!(gap_sync_complete(None));
}

#[test]
fn window_reaches_back_over_the_longer_span() {
    let window = |retention_period, start, finalized| SweepWindow {
        retention_period,
        start,
        finalized,
    };
    assert_eq!(sweep_window(Some(1000), Some(100), 256), window(100, 744, 1000));
    assert_eq!(sweep_window(Some(1000), Some(300), 256), window(300, 700, 1000));
    assert_eq!(sweep_window(Some(1000), None, 256), window(256, 744, 1000));
    assert_eq!(sweep_window(Some(100), Some(300), 256), window(300, 0, 100));
    assert_eq!(sweep_window(None, Some(300), 256), window(300, 0, 0));
    assert_eq!(sweep_window(Some(9), Some(0), 0), window(0, 9, 9));
    assert_eq!(sweep_window(Some(5), Some(u64::MAX), 1), window(u64::MAX, 0, 5));
}

#[test]
fn sweep_asks_for_one_block_after_the_other() {
    let mut sweep = CommitSweep::new(3, 4);
    assert_eq!(*sweep.stage(), SweepStage::Hash { number: 3 });
    sweep.take(SweepReply::Hash(Some([9; 32])));
    assert_eq!(
        *sweep.stage(),
        SweepStage::Meta { number: 3, block: [9; 32], runtime_number: 3 },
    );
    sweep.take(SweepReply::Meta(Some(vec![info(1), unsupported(2)])));
    assert_eq!(
        *sweep.stage(),
        SweepStage::Body { number: 3, block: [9; 32], supported: vec![info(1)] },
    );
    sweep.take(SweepReply::Body(Some(true)));
    assert_eq!(
        *sweep.stage(),
        SweepStage::Commit { number: 3, block: [9; 32], meta: vec![meta(1)] },
    );
    sweep.take(SweepReply::Committed(Some(vec![[1; 32]])));
    assert_eq!(*sweep.stage(), SweepStage::Hash { number: 4 });
    sweep.take(SweepReply::Hash(None));
    assert_eq!(*sweep.stage(), SweepStage::Done);
    let (pending, known) = sweep.into_parts();
    assert_eq!(pending.get(&[1; 32]), Some(1));
    assert_eq!(pending.len(), 1);
    assert_eq!(known.get(&[1; 32]), Some(info(1)));
    assert_eq!(known.get(&[2; 32]), None);
}

#[test]
fn sweep_asks_the_runtime_with_the_low_bits() {
    let mut sweep = CommitSweep::new(0x5_0000_0007, u64::MAX);
    sweep.take(SweepReply::Hash(Some([1; 32])));
    assert_eq!(
        *sweep.stage(),
        SweepStage::Meta { number: 0x5_0000_0007, block: [1; 32], runtime_number: 7 },
    );
}

#[test]
fn sweep_ends_at_the_largest_number() {
    let mut sweep = CommitSweep::new(u64::MAX, u64::MAX);
    sweep.take(SweepReply::Hash(None));
    assert_eq!(*sweep.stage(), SweepStage::Done);
    assert_eq!(*CommitSweep::new(5, 4).stage(), SweepStage::Done);
}

#[test]
fn sweep_ignores_what_it_does_not_wait_for() {
    let mut sweep = CommitSweep::new(1, 2);
    sweep.take(SweepReply::Body(Some(false)));
    sweep.take(SweepReply::Committed(Some(vec![[1; 32]])));
    assert_eq!(*sweep.stage(), SweepStage::Hash { number: 1 });
}

#[test]
fn sweep_skips_what_cannot_be_found_out() {
    let good = Facts {
        hash: Some([1; 32]),
        meta: Some(vec![info(1)]),
        body: Some(true),
        missing: Some(vec![[1; 32]]),
    };
    let mut chain = BTreeMap::new();
    chain.insert(0, Facts { hash: None, ..good.clone() });
    chain.insert(1, Facts { meta: None, ..good.clone() });
    chain.insert(2, Facts { meta: Some(vec![]), ..good.clone() });
    chain.insert(3, Facts { body: None, ..good.clone() });
    chain.insert(4, Facts { missing: None, ..good.clone() });
    chain.insert(5, Facts { meta: Some(vec![unsupported(1)]), ..good.clone() });
    let (pending, known, committed) = sweep(0, 5, &chain);
    assert_eq!(pending.len(), 0);
    assert_eq!(known.get(&[1; 32]), Some(info(1)));
    assert_eq!(committed, vec![vec![meta(1)]]);
}

#[test]
fn sweep_defers_all_entries_of_a_block_without_body() {
    let mut chain = BTreeMap::new();
    chain.insert(
        7,
        Facts {
            hash: Some([7; 32]),
            meta: Some(vec![info(1), unsupported(3), info(1), info(2)]),
            body: Some(false),
            missing: None,
        },
    );
    let (pending, _, committed) = sweep(7, 7, &chain);
    assert_eq!(pending.get(&[1; 32]), Some(2));
    assert_eq!(pending.get(&[2; 32]), Some(1));
    assert_eq!(pending.get(&[3; 32]), None);
    assert!(committed.is_empty());
}

#[test]
fn sweep_commits_its_blocks_in_ascending_order() {
    let good = |hash: u8| Facts {
        hash: Some([hash; 32]),
        meta: Some(vec![info(hash), unsupported(99), info(hash + 1)]),
        body: Some(true),
        missing: Some(vec![]),
    };
    let chain = BTreeMap::from([
        (9, good(9)),
        (2, good(2)),
        (4, Facts { body: Some(false), ..good(4) }),
        (5, Facts { missing: None, ..good(5) }),
        (6, Facts { meta: Some(vec![unsupported(1)]), ..good(6) }),
        (7, Facts { hash: None, ..good(7) }),
        (12, good(12)),
    ]);
    let mut sweep = CommitSweep::new(1, 10);
    let mut commits = vec![];
    while *sweep.stage() != SweepStage::Done {
        if let SweepStage::Commit { number, block, meta } = sweep.stage() {
            commits.push((*number, *block, meta.clone()));
        }
        let reply = reply_to(sweep.stage(), &chain);
        sweep.take(reply);
    }
    assert_eq!(
        commits,
        vec![
            (2, [2; 32], vec![meta(2), meta(3)]),
            (5, [5; 32], vec![meta(5), meta(6)]),
            (9, [9; 32], vec![meta(9), meta(10)]),
        ],
    );
}

#[test]
fn sweep_notes_the_first_entry_of_a_hash() {
    let block = |size| Facts {
        hash: Some([1; 32]),
        meta: Some(vec![IndexedTransactionInfo { size, ..info(1) }]),
        body: Some(true),
        missing: Some(vec![]),
    };
    let chain = BTreeMap::from([(1, block(10)), (2, block(20))]);
    let (_, known, _) = sweep(1, 2, &chain);
    assert_eq!(known.get(&[1; 32]).unwrap().size, 10);
    assert_eq!(known.len(), 1);
}

#[test]
fn sweep_takes_small_counts() {
    let mut sweep = CommitSweep::new(0, 0);
    sweep.take(SweepReply::Hash(Some([1; 32])));
    sweep.take(SweepReply::Meta(Some(vec![info(1)])));
    assert!(sweep.can_take(&SweepReply::Body(Some(false))));
    assert!(sweep.can_take(&SweepReply::Committed(Some(vec![[1; 32]]))));
}

fn pending(pairs: &[(u8, u32)]) -> ContentMap<u32> {
    let mut map = ContentMap::new();
    for (hash, count) in pairs {
        map.insert([*hash; 32], *count);
    }
    map
}

fn known(hashes: &[u8]) -> ContentMap<IndexedTransactionInfo> {
    let mut map = ContentMap::new();
    for hash in hashes {
        map.insert([*hash; 32], info(*hash));
    }
    map
}

#[test]
fn resolve_bumps_what_the_database_holds() {
    let mut work = ResolvePending::new(pending(&[(1, 3)]), known(&[]));
    assert_eq!(*work.stage(), ResolveStage::Lookup { hash: [1; 32], count: 3 });
    work.take(ResolveReply::Held(Some(true)));
    assert_eq!(*work.stage(), ResolveStage::Bump { hash: [1; 32], count: 3 });
    work.take(ResolveReply::Written);
    assert_eq!(*work.stage(), ResolveStage::Done);
}

#[test]
fn resolve_stores_what_a_peer_has() {
    for held in [Some(false), None] {
        let mut work = ResolvePending::new(pending(&[(1, 3)]), known(&[1]));
        work.take(ResolveReply::Held(held));
        assert_eq!(*work.stage(), ResolveStage::Fetch { hash: [1; 32], count: 3 });
        work.take(ResolveReply::Fetched(Some(vec![4, 5])));
        assert_eq!(
            *work.stage(),
            ResolveStage::Store { hash: [1; 32], data: vec![4, 5], count: 3 },
        );
        work.take(ResolveReply::Written);
        assert_eq!(*work.stage(), ResolveStage::Done);
    }
}

#[test]
fn resolve_passes_over_what_it_cannot_resolve() {
    let mut infos = known(&[1]);
    infos.insert([2; 32], unsupported(2));
    let mut work = ResolvePending::new(pending(&[(0, 0), (1, 1), (9, 0), (2, 1), (3, 1)]), infos);
    assert_eq!(*work.stage(), ResolveStage::Lookup { hash: [1; 32], count: 1 });
    work.take(ResolveReply::Held(Some(false)));
    work.take(ResolveReply::Fetched(None));
    assert_eq!(*work.stage(), ResolveStage::Lookup { hash: [2; 32], count: 1 });
    work.take(ResolveReply::Held(Some(false)));
    assert_eq!(*work.stage(), ResolveStage::Lookup { hash: [3; 32], count: 1 });
    work.take(ResolveReply::Written);
    assert_eq!(*work.stage(), ResolveStage::Lookup { hash: [3; 32], count: 1 });
    work.take(ResolveReply::Held(Some(false)));
    assert_eq!(*work.stage(), ResolveStage::Done);
    work.take(ResolveReply::Held(Some(true)));
    assert_eq!(*work.stage(), ResolveStage::Done);
}

#[test]
fn resolve_of_nothing_is_done() {
    assert_eq!(*ResolvePending::new(pending(&[]), known(&[])).stage(), ResolveStage::Done);
    assert_eq!(*ResolvePending::new(pending(&[(1, 0)]), known(&[1])).stage(), ResolveStage::Done);
    assert_eq!(ResolvePending::new(pending(&[]), known(&[])).pending_len(), 0);
    assert_eq!(ResolvePending::new(pending(&[(1, 3), (2, 1)]), known(&[])).pending_len(), 2);
}

#[test]
fn peers_are_asked_until_one_has_the_data() {
    let mut fetch = PeerFetch::new(Some(20));
    let answers = [
        Some(Ok(None)),
        Some(Err(BitswapError::HashMismatch)),
        Some(Err(BitswapError::DecodeError("bad".to_string()))),
        None,
    ];
    for (i, answer) in answers.into_iter().enumerate() {
        assert_eq!(*fetch.stage(), PeerStage::Ask(i));
        fetch.take(answer);
    }
    assert_eq!(*fetch.stage(), PeerStage::Ask(4));
    fetch.take(Some(Ok(Some(vec![1]))));
    assert_eq!(*fetch.stage(), PeerStage::Finished(Some(vec![1])));
    fetch.take(Some(Ok(Some(vec![2]))));
    assert_eq!(fetch.into_data(), Some(vec![1]));
}

#[test]
fn at_most_eight_peers_are_asked() {
    assert_eq!(MAX_PEERS_PER_HASH, 8);
    assert_eq!(BITSWAP_PER_PEER_TIMEOUT_SECS, 5);
    for (peers, asked) in [(Some(20), 8), (Some(8), 8), (Some(3), 3), (Some(0), 0), (None, 0)] {
        let mut fetch = PeerFetch::new(peers);
        let mut count = 0;
        while let PeerStage::Ask(at) = *fetch.stage() {
            assert_eq!(at, count);
            fetch.take(None);
            count += 1;
        }
        assert_eq!(count, asked);
        assert_eq!(fetch.into_data(), None);
    }
}

#[test]
fn an_unfinished_fetch_has_no_data() {
    assert_eq!(PeerFetch::new(Some(1)).into_data(), None);
}

#[test]
fn data_from_peers_has_the_wanted_hash() {
    let digits = "256c83b297114d201b30179f3f0ef0cace9783622da5974326b436178aeef610";
    let mut hash = [0; 32];
    for i in 0..32 {
        hash[i] = u8::from_str_radix(&digits[2 * i..2 * i + 2], 16).unwrap();
    }
    let sends = |data: &[u8]| {
        BitswapReply::Response(BitswapMessage {
            wantlist: None,
            blocks: vec![],
            payload: vec![Block {
                prefix: vec![0x01, 0x55, 0xa0, 0xe4, 0x02, 0x20],
                data: data.to_vec(),
            }],
            block_presences: vec![],
            pending_bytes: 0,
        })
    };
    let client = BitswapClient::new();
    let mut fetch = PeerFetch::new(Some(4));
    fetch.take(Some(client.fetch(hash, BitswapReply::Failed("no".to_string()))));
    fetch.take(Some(client.fetch(hash, sends(b"something else"))));
    fetch.take(Some(client.fetch(hash, sends(b"hello world"))));
    assert_eq!(*fetch.stage(), PeerStage::Finished(Some(b"hello world".to_vec())));
    assert_eq!(fetch.into_data(), Some(b"hello world".to_vec()));
}

/// A database that counts references, and the indexes that it keeps.
#[derive(Default)]
struct Counters {
    counts: BTreeMap<Hash, u64>,
    indexed: BTreeMap<Hash, u64>,
}

/// Runs the whole task on a chain, with every hash in `peers` at hand.
fn run(chain: &BTreeMap<u64, Facts>, finalized: u64, peers: &[u8]) -> Counters {
    let mut database = Counters::default();
    let mut task = Indexer::new(1000);
    loop {
        let reply = match task.stage() {
            IndexerStage::Sync => {
                IndexerReply::Sync(Some(SyncStatus { idle: true, warp_sync: false }))
            },
            IndexerStage::Head => IndexerReply::Head {
                finalized_number: Some(finalized),
                retention_period: None,
            },
            IndexerStage::Sweep(sweep) => {
                let reply = reply_to(sweep.stage(), chain);
                if let (SweepStage::Commit { meta, .. }, SweepReply::Committed(Some(missing))) =
                    (sweep.stage(), &reply)
                {
                    for entry in meta {
                        *database.indexed.entry(entry.content_hash).or_default() += 1;
                        *database.counts.entry(entry.content_hash).or_default() += 1;
                    }
                    for hash in missing {
                        *database.counts.get_mut(hash).unwrap() -= 1;
                    }
                }
                IndexerReply::Sweep(reply)
            },
            IndexerStage::Resolve(work) => IndexerReply::Resolve(match work.stage() {
                ResolveStage::Lookup { hash, .. } => ResolveReply::Held(Some(
                    database.counts.get(hash).copied().unwrap_or(0) > 0,
                )),
                ResolveStage::Fetch { hash, .. } => ResolveReply::Fetched(
                    if peers.contains(&hash[0]) { Some(hash.to_vec()) } else { None },
                ),
                ResolveStage::Bump { hash, count } => {
                    *database.counts.entry(*hash).or_default() += *count as u64;
                    ResolveReply::Written
                },
                ResolveStage::Store { hash, data, count } => {
                    assert_eq!(data, &hash.to_vec());
                    *database.counts.entry(*hash).or_default() += *count as u64;
                    ResolveReply::Written
                },
                ResolveStage::Done => panic!("nothing is to be done"),
            }),
            IndexerStage::Done => return database,
        };
        assert!(task.can_take(&reply));
        task.take(reply);
    }
}

#[test]
fn counters_match_the_index_after_the_task() {
    let block = |meta: &[u8], missing: &[u8]| Facts {
        hash: Some([1; 32]),
        meta: Some(meta.iter().map(|hash| info(*hash)).collect()),
        body: Some(true),
        missing: Some(missing.iter().map(|hash| [*hash; 32]).collect()),
    };
    let chain = BTreeMap::from([
        (2, block(&[1, 2, 1], &[1])),
        (3, block(&[2, 3, 3], &[2, 3, 3])),
        (5, block(&[4], &[])),
    ]);
    let database = run(&chain, 6, &[3]);
    assert_eq!(database.counts, database.indexed);
    assert_eq!(database.counts.get(&[1; 32]), Some(&2));
    assert_eq!(database.counts.get(&[2; 32]), Some(&2));
    assert_eq!(database.counts.get(&[3; 32]), Some(&2));
    assert_eq!(database.counts.get(&[4; 32]), Some(&1));
}

#[test]
fn blocks_without_bodies_are_counted_too() {
    let chain = BTreeMap::from([
        (
            1,
            Facts {
                hash: Some([1; 32]),
                meta: Some(vec![info(1), info(1), info(2)]),
                body: Some(false),
                missing: None,
            },
        ),
        (
            2,
            Facts {
                hash: Some([2; 32]),
                meta: Some(vec![info(1)]),
                body: Some(true),
                missing: Some(vec![]),
            },
        ),
    ]);
    let database = run(&chain, 2, &[]);
    assert_eq!(database.counts.get(&[1; 32]), Some(&3));
    assert_eq!(database.indexed.get(&[1; 32]), Some(&1));
    assert_eq!(database.counts.get(&[2; 32]), None);
}

#[test]
fn the_task_waits_for_the_sync() {
    assert_eq!(GAP_SYNC_POLL_INTERVAL_SECS, 1);
    let mut task = Indexer::new(10);
    task.take(IndexerReply::Sync(Some(SyncStatus { idle: false, warp_sync: true })));
    assert!(matches!(task.stage(), IndexerStage::Sync));
    task.take(IndexerReply::Head { finalized_number: None, retention_period: None });
    assert!(matches!(task.stage(), IndexerStage::Sync));
    task.take(IndexerReply::Sync(None));
    assert!(matches!(task.stage(), IndexerStage::Head));
    task.take(IndexerReply::Head { finalized_number: Some(50), retention_period: Some(3) });
    match task.stage() {
        IndexerStage::Sweep(sweep) => {
            assert_eq!(*sweep.stage(), SweepStage::Hash { number: 40 });
        },
        _ => panic!("no sweep"),
    }
    for _ in 40..=50 {
        task.take(IndexerReply::Sweep(SweepReply::Hash(None)));
    }
    assert!(matches!(task.stage(), IndexerStage::Done));
}

use parity_scale_codec::{Compact, Encode};
use std::collections::BTreeMap;
use storage_chain_index::integrity::{opening, IntegrityCheck, IntegrityReport};
use storage_chain_index::lookup::{number_index_key, BODY, BODY_INDEX, KEY_LOOKUP, TRANSACTION};

const DATA: &[u8] = b"hello world";
const DATA_HASH: &str = "256c83b297114d201b30179f3f0ef0cace9783622da5974326b436178aeef610";
const STORE: &[u8] = &[100 << 2, 0];
const RENEW: &[u8] = &[1 << 2, 0];

type Database = BTreeMap<(u32, Vec<u8>), Vec<u8>>;

fn data_hash() -> [u8; 32] {
    let mut hash = [0; 32];
    for i in 0..32 {
        hash[i] = u8::from_str_radix(&DATA_HASH[2 * i..2 * i + 2], 16).unwrap();
    }
    hash
}

fn indexed(hash: [u8; 32], header: &[u8]) -> Vec<u8> {
    (0u8, hash, header.to_vec()).encode()
}

fn full() -> Vec<u8> {
    (1u8, vec![1u8, 2]).encode()
}

fn add_block(db: &mut Database, n: u32, body: bool, index: Option<&[Vec<u8>]>) {
    let mut key = number_index_key(n).to_vec();
    key.push(0xee);
    db.insert((KEY_LOOKUP, number_index_key(n).to_vec()), key.clone());
    if body {
        db.insert((BODY, key.clone()), vec![1]);
    }
    if let Some(entries) = index {
        let mut raw = Compact(entries.len() as u32).encode();
        for entry in entries {
            raw.extend(entry);
        }
        db.insert((BODY_INDEX, key), raw);
    }
}

fn check(db: &Database, best: u32) -> IntegrityReport {
    let mut check = IntegrityCheck::new(best);
    while let Some(question) = check.question() {
        let answer = db.get(&question).cloned();
        assert!(check.can_take(&answer));
        check.take(answer);
    }
    check.report().clone()
}

#[test]
fn empty_database_passes() {
    let report = check(&Database::new(), 3);
    assert!(report.passed());
    assert_eq!(report, IntegrityReport::new());
}

#[test]
fn sound_database_passes() {
    let mut db = Database::new();
    add_block(&mut db, 0, true, None);
    add_block(&mut db, 1, false, Some(&[full(), indexed(data_hash(), STORE)]));
    add_block(&mut db, 3, true, Some(&[indexed(data_hash(), RENEW), full()]));
    add_block(&mut db, 4, false, Some(&[indexed([7; 32], STORE)]));
    db.insert((TRANSACTION, data_hash().to_vec()), DATA.to_vec());
    let report = check(&db, 3);
    assert!(report.passed());
    assert_eq!(report.blocks_checked, 3);
    assert_eq!(report.blocks_with_body, 2);
    assert_eq!(report.blocks_with_index, 2);
    assert_eq!(report.indexed_total, 2);
    assert_eq!(report.stores, 1);
    assert_eq!(report.renews, 1);
    assert_eq!(report.missing_tx, 0);
    assert_eq!(
        report.lines(),
        vec![
            "Summary:",
            "  Blocks scanned:     3",
            "  Blocks with BODY:   2",
            "  Blocks with INDEX:  2",
            "  Indexed extrinsics: 2 (1 store, 1 renew)",
            "  Missing tx data:    0",
            "",
            "✓ All indexed transaction hashes are present in TRANSACTION column",
        ],
    );
}

#[test]
fn missing_data_is_reported() {
    let mut db = Database::new();
    add_block(&mut db, 2, false, Some(&[full(), indexed([0xab; 32], STORE)]));
    add_block(&mut db, 12, false, Some(&[indexed([0xcd; 32], RENEW)]));
    let report = check(&db, 12);
    assert!(!report.passed());
    assert_eq!(report.missing_tx, 2);
    let first = format!(
        "Block #2 ext[1] STORE: TRANSACTION data MISSING for hash 0x{}",
        "ab".repeat(32),
    );
    let second = format!(
        "Block #12 ext[0] RENEW: TRANSACTION data MISSING for hash 0x{}",
        "cd".repeat(32),
    );
    assert_eq!(report.errors, vec![first.clone(), second.clone()]);
    let lines = report.lines();
    assert_eq!(lines[7], "✗ Found 2 error(s):");
    assert_eq!(lines[8], format!("  {first}"));
    assert_eq!(lines[9], format!("  {second}"));
    assert_eq!(lines.len(), 10);
}

#[test]
fn stored_data_must_have_its_hash() {
    let mut db = Database::new();
    add_block(&mut db, 0, false, Some(&[indexed([7; 32], STORE), indexed([7; 32], RENEW)]));
    db.insert((TRANSACTION, vec![7; 32]), DATA.to_vec());
    let report = check(&db, 0);
    assert_eq!(report.missing_tx, 0);
    assert_eq!(
        report.errors,
        vec![format!(
            "Block #0 ext[0] STORE: hash mismatch! expected 0x{}, got 0x{DATA_HASH}",
            "07".repeat(32),
        )],
    );
}

#[test]
fn unreadable_index_is_reported() {
    let mut db = Database::new();
    add_block(&mut db, 5, false, Some(&[vec![9]]));
    let report = check(&db, 5);
    assert_eq!(report.blocks_with_index, 1);
    assert_eq!(report.indexed_total, 0);
    assert_eq!(
        report.errors,
        vec![
            "Block #5: failed to decode BODY_INDEX: \
             Could not decode `DbExtrinsic`, variant doesn't exist"
        ],
    );
}

#[test]
fn questions_come_in_order() {
    let mut check = IntegrityCheck::new(1);
    assert_eq!(check.question(), Some((KEY_LOOKUP, vec![0, 0, 0, 0])));
    check.take(Some(vec![5]));
    assert_eq!(check.question(), Some((BODY, vec![5])));
    check.take(None);
    assert_eq!(check.question(), Some((BODY_INDEX, vec![5])));
    check.take(Some([vec![1 << 2], indexed([3; 32], STORE)].concat()));
    assert_eq!(check.question(), Some((TRANSACTION, vec![3; 32])));
    check.take(None);
    assert_eq!(check.question(), Some((KEY_LOOKUP, vec![0, 0, 0, 1])));
    check.take(None);
    assert_eq!(check.question(), None);
    assert_eq!(check.report().missing_tx, 1);
}

#[test]
fn recording_takes_the_digest_as_it_is() {
    let mut report = IntegrityReport::new();
    report.record_entry(3, 4, &[1; 32], STORE, Some([1; 32]));
    assert!(report.passed());
    report.record_entry(3, 5, &[1; 32], STORE, Some([2; 32]));
    assert_eq!(
        report.errors,
        vec![format!(
            "Block #3 ext[5] STORE: hash mismatch! expected 0x{}, got 0x{}",
            "01".repeat(32),
            "02".repeat(32),
        )],
    );
    report.record_unreadable(6, "why");
    assert_eq!(report.errors[1], "Block #6: failed to decode BODY_INDEX: why");
}

#[test]
fn small_counts_fit() {
    let check = IntegrityCheck::new(0);
    assert!(check.can_take(&None));
    assert!(check.can_take(&Some(vec![])));
}

#[test]
fn a_check_opens_with_its_range() {
    assert_eq!(opening(17), vec!["Checking blocks 0..=17", ""]);
}

use parity_scale_codec::{Compact, Encode};
use storage_chain_index::inspect::{
    block_row, describe_block, get_best_block_number, has_body, head_line, inspect_block,
    parse_range, print_block, print_meta, table_header, transaction_keys, BestBlock, BlockRange,
    BlockRecord, ChainHead,
};

const HEADER_HASH: &str = "59db3b4195d9a2c0548cfca147c4b6f652eca77b50e58f47f7774ce965aacf58";

fn header() -> Vec<u8> {
    let mut header: Vec<u8> = (0..32).collect();
    header.push(42 << 2);
    header.extend([0; 64]);
    header
}

fn indexed(hash: u8, header: &[u8]) -> Vec<u8> {
    (0u8, [hash; 32], header.to_vec()).encode()
}

fn full() -> Vec<u8> {
    (1u8, vec![1u8, 2]).encode()
}

fn index(entries: &[Vec<u8>]) -> Option<Vec<u8>> {
    let mut raw = Compact(entries.len() as u32).encode();
    for entry in entries {
        raw.extend(entry);
    }
    Some(raw)
}

fn record() -> BlockRecord {
    BlockRecord {
        lookup_key: vec![0, 0, 0, 9, 0xab],
        header: None,
        body: false,
        body_index: None,
    }
}

fn head(lookup_key: Option<Vec<u8>>, header: Option<Vec<u8>>) -> ChainHead {
    ChainHead { lookup_key, header }
}

fn range(text: &str, best: u32) -> BlockRange {
    parse_range(&Some(text.to_string()), best)
}

fn plain_range(from: u32, to: u32) -> BlockRange {
    BlockRange { from, to, warning: None }
}

#[test]
fn meta_of_a_whole_chain() {
    assert_eq!(
        print_meta(
            &Some(vec![0xab, 0xcd]),
            &head(Some(vec![1]), Some(header())),
            &head(Some(vec![0x0f, 0xf0]), None),
        ),
        vec![
            "Genesis hash:    0xabcd".to_string(),
            format!("Best block:      #42 (0x{HEADER_HASH})"),
            "Finalized block: <header missing, key=0x0ff0>".to_string(),
        ],
    );
}

#[test]
fn meta_of_no_chain() {
    assert_eq!(
        print_meta(&None, &head(None, None), &head(None, Some(header()))),
        vec![
            "Genesis hash:    <missing>",
            "Best block:      <meta missing>",
            "Finalized block: <meta missing>",
        ],
    );
}

#[test]
fn head_line_prints_number_and_hash() {
    assert_eq!(
        head_line("Best: ", &Some(vec![]), Some((7, "aa".to_string()))),
        "Best: #7 (0xaa)",
    );
}

#[test]
fn best_block_number_comes_from_the_header() {
    assert_eq!(
        get_best_block_number(&head(Some(vec![0, 0, 0, 9]), Some(header()))),
        BestBlock { number: 42, warning: None },
    );
}

#[test]
fn best_block_number_comes_with_a_warning() {
    let warned = |number, warning: &str| BestBlock { number, warning: Some(warning.to_string()) };
    assert_eq!(
        get_best_block_number(&head(Some(vec![0, 0, 1, 9, 3]), None)),
        warned(265, "WARNING: best block header missing, using number from lookup key"),
    );
    assert_eq!(
        get_best_block_number(&head(Some(vec![1]), None)),
        warned(0, "WARNING: best block meta exists but header and key are unreadable"),
    );
    assert_eq!(
        get_best_block_number(&head(None, None)),
        warned(0, "WARNING: no best block meta found, scanning only genesis"),
    );
}

#[test]
fn range_of_two_numbers() {
    assert_eq!(range("150..200", 999), plain_range(150, 200));
    assert_eq!(range("0..0", 9), plain_range(0, 0));
    assert_eq!(range("4294967295..4294967295", 9), plain_range(u32::MAX, u32::MAX));
}

#[test]
fn range_with_open_ends() {
    assert_eq!(range("..200", 999), plain_range(0, 200));
    assert_eq!(range("150..", 999), plain_range(150, 999));
    assert_eq!(range("..", 999), plain_range(0, 999));
    assert_eq!(range("x..y", 999), plain_range(0, 999));
    assert_eq!(range("5...7", 999), plain_range(5, 999));
    assert_eq!(range("5..4294967296", 999), plain_range(5, 999));
}

#[test]
fn range_that_is_none() {
    for text in ["", "7", "1.2", "1..2..3", "....", "ü"] {
        assert_eq!(
            range(text, 999),
            BlockRange {
                from: 0,
                to: 999,
                warning: Some(format!("Invalid range format '{text}', expected FROM..TO")),
            },
        );
    }
    assert_eq!(parse_range(&None, 999), plain_range(0, 999));
}

#[test]
fn table_starts_with_its_columns() {
    let lines = table_header();
    assert_eq!(
        lines[0],
        format!(
            "{:>7}  {:>66}  {:>6}  {:>6}  {:>10}  {:>8}",
            "Block", "Hash", "Header", "Body", "BodyIndex", "IndexTx",
        ),
    );
    assert_eq!(lines[1], "-".repeat(114));
    assert_eq!(lines.len(), 2);
}

#[test]
fn row_of_an_indexed_block() {
    let block = BlockRecord {
        header: Some(header()),
        body_index: index(&[full(), indexed(1, &[0]), indexed(2, &[0])]),
        ..record()
    };
    assert_eq!(
        print_block(9, &Some(block), false),
        Some(format!(
            "{:>7}  {:>66}  {:>6}  {:>6}  {:>10}  {:>8}",
            "9",
            format!("0x{HEADER_HASH}"),
            "yes",
            "index",
            "3",
            "2",
        )),
    );
}

#[test]
fn row_of_a_plain_block() {
    let block = BlockRecord { body: true, ..record() };
    assert_eq!(
        print_block(123, &Some(block), false),
        Some(format!(
            "{:>7}  {:>66}  {:>6}  {:>6}  {:>10}  {:>8}",
            "123", "0xab", "MISS", "plain", "-", "0",
        )),
    );
}

#[test]
fn row_of_a_broken_block() {
    let block = BlockRecord {
        lookup_key: vec![0, 0, 0, 9],
        body_index: Some(vec![1 << 2, 7]),
        ..record()
    };
    assert_eq!(
        print_block(9, &Some(block), false),
        Some(format!(
            "{:>7}  {:>66}  {:>6}  {:>6}  {:>10}  {:>8}",
            "9", "missing", "MISS", "index", "err", "err",
        )),
    );
}

#[test]
fn row_without_a_body_is_shown_on_demand() {
    assert_eq!(print_block(9, &Some(record()), false), None);
    assert_eq!(
        print_block(9, &Some(record()), true),
        Some(format!(
            "{:>7}  {:>66}  {:>6}  {:>6}  {:>10}  {:>8}",
            "9", "0xab", "MISS", "MISS", "-", "-",
        )),
    );
    assert_eq!(print_block(9, &None, true), None);
}

#[test]
fn body_in_either_form() {
    assert!(!has_body(&record()));
    assert!(has_body(&BlockRecord { body: true, ..record() }));
    assert!(has_body(&BlockRecord { body_index: Some(vec![]), ..record() }));
}

#[test]
fn row_takes_its_hash_as_it_is() {
    let row = block_row(1, "here", &record());
    assert!(row.contains("  here  "));
}

#[test]
fn keys_of_the_listed_extrinsics() {
    let block = BlockRecord {
        body_index: index(&[full(), indexed(4, &[0])]),
        ..record()
    };
    assert_eq!(transaction_keys(&Some(block)), vec![None, Some([4; 32])]);
    assert!(transaction_keys(&None).is_empty());
    assert!(transaction_keys(&Some(record())).is_empty());
    assert!(
        transaction_keys(&Some(BlockRecord { body_index: Some(vec![]), ..record() })).is_empty()
    );
}

#[test]
fn details_of_an_indexed_block() {
    let block = BlockRecord {
        header: Some(header()),
        body_index: index(&[
            full(),
            indexed(0x0a, &[9 << 2, 0]),
            indexed(0x0b, &[1 << 2, 0, 0]),
            indexed(0x0c, &[]),
        ]),
        ..record()
    };
    assert_eq!(
        inspect_block(9, &Some(block), &[None, Some(123), None, Some(0)]),
        vec![
            "Block #9".to_string(),
            format!("  Hash:   0x{HEADER_HASH}"),
            "  Header: present".to_string(),
            "  Body:   indexed (stored as BODY_INDEX column)".to_string(),
            "  Extrinsics: 4 total".to_string(),
            "".to_string(),
            "  [0] FULL (not indexed)".to_string(),
            "  [1] STORE".to_string(),
            format!("       content_hash: 0x{}", "0a".repeat(32)),
            "       header_len:   2 bytes".to_string(),
            "       tx_data:      123 bytes".to_string(),
            "  [2] RENEW".to_string(),
            format!("       content_hash: 0x{}", "0b".repeat(32)),
            "       header_len:   3 bytes".to_string(),
            "       tx_data:      0 bytes (MISSING)".to_string(),
            "  [3] UNKNOWN".to_string(),
            format!("       content_hash: 0x{}", "0c".repeat(32)),
            "       header_len:   0 bytes".to_string(),
            "       tx_data:      0 bytes".to_string(),
        ],
    );
}

#[test]
fn details_of_a_pruned_block() {
    let block = BlockRecord { lookup_key: vec![], ..record() };
    assert_eq!(
        inspect_block(9, &Some(block), &[]),
        vec!["Block #9", "  Hash:   ?", "  Header: MISSING", "  Body:   MISSING (pruned)"],
    );
}

#[test]
fn details_of_a_block_that_is_not_there() {
    assert_eq!(inspect_block(9, &None, &[]), vec!["Block #9: no lookup key found"]);
}

#[test]
fn details_of_a_block_with_both_bodies() {
    let block = BlockRecord { body: true, body_index: index(&[full()]), ..record() };
    assert_eq!(
        describe_block(9, "0x1", &block, &[None]),
        vec![
            "Block #9",
            "  Hash:   0x1",
            "  Header: MISSING",
            "  Body:   plain (stored as BODY column)",
            "  Extrinsics: 1 total",
            "",
            "  [0] FULL (not indexed)",
        ],
    );
}

#[test]
fn details_of_an_unreadable_index() {
    let block = BlockRecord { body_index: Some(vec![]), ..record() };
    assert_eq!(
        inspect_block(9, &Some(block), &[])[4],
        "  Error decoding BODY_INDEX: Not enough data to fill buffer",
    );
}

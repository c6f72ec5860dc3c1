//! What is printed of a database: the state of the chain, a table of blocks,
//! and single blocks in detail.

use crate::body_index::{
    body_index_decoded, body_length, decode_body_index, entry_views, extrinsic_body_length,
    is_store, stores_data, DbExtrinsic, DbExtrinsicView,
};
use crate::bytes::ContentHash;
use crate::hashing::database_hash;
use crate::lookup::{
    decode_header_number_hash, hash_from_lookup_key, header_number, key_hash_text, key_number,
    number_from_lookup_key,
};
use crate::text::{
    decimal, decimal_text, hex, hex_text, is_decimal_digit, number_reads_back, pad_left,
    pad_text, parse_u32, parsed_u32, push_line, texts,
};
use vstd::array::array_as_slice;
use vstd::prelude::*;

verus! {

/// What the database holds of a block that the chain is known by: the lookup
/// key, and the header that is kept under it.
#[derive(Clone, Debug, PartialEq, Eq)]
pub struct ChainHead {
    pub lookup_key: Option<Vec<u8>>,
    pub header: Option<Vec<u8>>,
}

/// What the database holds of a block under its lookup key.
#[derive(Clone, Debug, PartialEq, Eq)]
pub struct BlockRecord {
    pub lookup_key: Vec<u8>,
    pub header: Option<Vec<u8>>,
    /// Whether there is a body that is kept as it is.
    pub body: bool,
    /// The body as an index.
    pub body_index: Option<Vec<u8>>,
}

/// What is printed of the number and the hash of a head; `None` where the
/// header is missing.
pub open spec fn head_text(
    label: Seq<char>,
    lookup_key: Option<Seq<u8>>,
    summary: Option<(u32, Seq<char>)>,
) -> Seq<char> {
    label + match (lookup_key, summary) {
        (None, _) => "<meta missing>"@,
        (Some(key), None) => "<header missing, key=0x"@ + hex_text(key) + ">"@,
        (Some(_), Some((number, hash))) => "#"@ + decimal_text(number as nat) + " (0x"@ + hash
            + ")"@,
    }
}

/// What bytes that may not be there say.
pub open spec fn bytes_view(bytes: Option<Vec<u8>>) -> Option<Seq<u8>> {
    match bytes {
        Some(bytes) => Some(bytes@),
        None => None,
    }
}

/// The number and the printed hash in a header that may not be there.
pub open spec fn summary_of(header: Option<Vec<u8>>) -> Option<(u32, Seq<char>)> {
    match header {
        Some(bytes) => Some((header_number(bytes@), hex_text(database_hash(bytes@)))),
        None => None,
    }
}

/// The line for a head of the chain.
pub fn head_line(
    label: &str,
    lookup_key: &Option<Vec<u8>>,
    summary: Option<(u32, String)>,
) -> (line: String)
    ensures
        line@ == head_text(
            label@,
            bytes_view(*lookup_key),
            match summary {
                Some((number, hash)) => Some((number, hash@)),
                None => None,
            },
        ),
{
    let mut line = label.to_owned();
    match (lookup_key, summary) {
        (None, _) => {
            line.append("<meta missing>");
        },
        (Some(key), None) => {
            let mut words = "<header missing, key=0x".to_owned();
            words.append(hex(key.as_slice()).as_str());
            words.append(">");
            line.append(words.as_str());
        },
        (Some(_), Some((number, hash))) => {
            let mut words = "#".to_owned();
            words.append(decimal(number as u64).as_str());
            words.append(" (0x");
            words.append(hash.as_str());
            words.append(")");
            line.append(words.as_str());
        },
    }
    line
}

fn header_line(label: &str, head: &ChainHead) -> (line: String)
    ensures
        line@ == head_text(label@, bytes_view(head.lookup_key), summary_of(head.header)),
{
    let summary: Option<(u32, String)> = match &head.header {
        Some(bytes) => Some(decode_header_number_hash(bytes.as_slice())),
        None => None,
    };
    head_line(label, &head.lookup_key, summary)
}

/// The lines for the state of the chain.
pub open spec fn meta_lines(
    genesis: Option<Vec<u8>>,
    best: ChainHead,
    finalized: ChainHead,
) -> Seq<Seq<char>> {
    seq![
        "Genesis hash:    "@ + match genesis {
            Some(hash) => "0x"@ + hex_text(hash@),
            None => "<missing>"@,
        },
        head_text("Best block:      "@, bytes_view(best.lookup_key), summary_of(best.header)),
        head_text(
            "Finalized block: "@,
            bytes_view(finalized.lookup_key),
            summary_of(finalized.header),
        ),
    ]
}

/// The lines for the state of the chain: its first block, its best block and
/// its last finalized block.
pub fn print_meta(
    genesis: &Option<Vec<u8>>,
    best: &ChainHead,
    finalized: &ChainHead,
) -> (lines: Vec<String>)
    ensures
        texts(lines@) == meta_lines(*genesis, *best, *finalized),
{
    let mut lines: Vec<String> = Vec::new();
    let mut first = "Genesis hash:    ".to_owned();
    match genesis {
        Some(hash) => {
            let mut words = "0x".to_owned();
            words.append(hex(hash.as_slice()).as_str());
            first.append(words.as_str());
        },
        None => {
            first.append("<missing>");
        },
    }
    push_line(&mut lines, first);
    push_line(&mut lines, header_line("Best block:      ", best));
    push_line(&mut lines, header_line("Finalized block: ", finalized));
    lines
}

/// A number, with a warning where it is not what it should be.
#[derive(Clone, Debug, PartialEq, Eq)]
pub struct BestBlock {
    pub number: u32,
    pub warning: Option<String>,
}

/// The number of the best block, and the warning that goes with it. It is that
/// in the header; where the header is missing, that in the lookup key; else
/// zero.
pub open spec fn best_number(
    lookup_key: Option<Seq<u8>>,
    header: Option<Seq<u8>>,
) -> (u32, Option<Seq<char>>) {
    match (lookup_key, header) {
        (None, _) => (0, Some("WARNING: no best block meta found, scanning only genesis"@)),
        (Some(_), Some(bytes)) => (header_number(bytes), None),
        (Some(key), None) => match key_number(key) {
            Some(number) => (
                number,
                Some("WARNING: best block header missing, using number from lookup key"@),
            ),
            None => (
                0,
                Some("WARNING: best block meta exists but header and key are unreadable"@),
            ),
        },
    }
}

/// The number of the best block.
pub fn get_best_block_number(best: &ChainHead) -> (found: BestBlock)
    ensures
        ({
            let (number, warning) = best_number(
                bytes_view(best.lookup_key),
                bytes_view(best.header),
            );
            &&& found.number == number
            &&& match warning {
                Some(words) => found.warning matches Some(text) && text@ == words,
                None => found.warning is None,
            }
        }),
{
    match (&best.lookup_key, &best.header) {
        (None, _) => BestBlock {
            number: 0,
            warning: Some("WARNING: no best block meta found, scanning only genesis".to_owned()),
        },
        (Some(_), Some(header)) => {
            let (number, _): (u32, String) = decode_header_number_hash(header.as_slice());
            BestBlock { number, warning: None }
        },
        (Some(key), None) => match number_from_lookup_key(key.as_slice()) {
            Some(number) => BestBlock {
                number,
                warning: Some(
                    "WARNING: best block header missing, using number from lookup key".to_owned(),
                ),
            },
            None => BestBlock {
                number: 0,
                warning: Some(
                    "WARNING: best block meta exists but header and key are unreadable".to_owned(),
                ),
            },
        },
    }
}

/// The first position from `at` on where two dots stand in `text`.
pub open spec fn dots_from(text: Seq<char>, at: nat) -> Option<nat>
    decreases text.len() - at,
{
    if at + 2 > text.len() {
        None
    } else if text[at as int] == '.' && text[(at + 1) as int] == '.' {
        Some(at)
    } else {
        dots_from(text, at + 1)
    }
}

/// What stands in front of the two dots in `text`, and what stands behind them,
/// if two dots stand in it once.
pub open spec fn range_parts(text: Seq<char>) -> Option<(Seq<char>, Seq<char>)> {
    match dots_from(text, 0) {
        Some(at) => match dots_from(text, at + 2) {
            Some(_) => None,
            None => Some((text.take(at as int), text.skip((at + 2) as int))),
        },
        None => None,
    }
}

/// The first and the last block of a range.
pub open spec fn range_of(text: Option<Seq<char>>, best: u32) -> (u32, u32) {
    match text {
        Some(typed) => match range_parts(typed) {
            Some((from, to)) => (
                match parsed_u32(from) {
                    Some(number) => number,
                    None => 0,
                },
                match parsed_u32(to) {
                    Some(number) => number,
                    None => best,
                },
            ),
            None => (0, best),
        },
        None => (0, best),
    }
}

/// The words for a range that is none.
pub open spec fn bad_range_text(text: Seq<char>) -> Seq<char> {
    "Invalid range format '"@ + text + "', expected FROM..TO"@
}

/// The warning that goes with what was typed, if it is no range.
pub open spec fn range_warning(text: Option<Seq<char>>) -> Option<Seq<char>> {
    match text {
        Some(typed) => if range_parts(typed) is Some {
            None
        } else {
            Some(bad_range_text(typed))
        },
        None => None,
    }
}

/// A range of blocks, with a warning where it is not what was typed.
#[derive(Clone, Debug, PartialEq, Eq)]
pub struct BlockRange {
    pub from: u32,
    pub to: u32,
    pub warning: Option<String>,
}

fn find_dots(text: &str, start: usize) -> (found: Option<usize>)
    requires
        start <= text@.len(),
    ensures
        match dots_from(text@, start as nat) {
            Some(at) => found == Some(at as usize) && at + 2 <= text@.len() && at <= usize::MAX,
            None => found is None,
        },
{
    let size: usize = text.unicode_len();
    let mut at: usize = start;
    while size - at >= 2
        invariant
            start <= at <= size,
            size == text@.len(),
            dots_from(text@, start as nat) == dots_from(text@, at as nat),
        decreases size - at,
    {
        if text.get_char(at) == '.' && text.get_char(at + 1) == '.' {
            return Some(at);
        }
        at += 1;
    }
    None
}

/// The range that a user typed: two numbers with two dots between them. Where
/// the first cannot be read it is zero; where the last cannot be read it is
/// `best`. Everything else is the range of all blocks.
pub fn parse_range(range: &Option<String>, best: u32) -> (parsed: BlockRange)
    ensures
        ({
            let typed: Option<Seq<char>> = match range {
                Some(text) => Some(text@),
                None => None,
            };
            &&& (parsed.from, parsed.to) == range_of(typed, best)
            &&& match range_warning(typed) {
                Some(warning) => parsed.warning matches Some(words) && words@ == warning,
                None => parsed.warning is None,
            }
        }),
{
    let text: &str = match range {
        Some(text) => text.as_str(),
        None => {
            return BlockRange { from: 0, to: best, warning: None };
        },
    };
    let size: usize = text.unicode_len();
    match find_dots(text, 0) {
        Some(at) => match find_dots(text, at + 2) {
            None => {
                let from: Option<u32> = parse_u32(text.substring_char(0, at));
                let to: Option<u32> = parse_u32(text.substring_char(at + 2, size));
                assert(text@.subrange(0, at as int) =~= text@.take(at as int));
                assert(text@.subrange(at + 2, size as int) =~= text@.skip(at + 2));
                return BlockRange {
                    from: match from {
                        Some(number) => number,
                        None => 0,
                    },
                    to: match to {
                        Some(number) => number,
                        None => best,
                    },
                    warning: None,
                };
            },
            Some(_) => {},
        },
        None => {},
    }
    let mut words = "Invalid range format '".to_owned();
    words.append(text);
    words.append("', expected FROM..TO");
    BlockRange { from: 0, to: best, warning: Some(words) }
}

/// Whether there is a body, in either form.
pub open spec fn body_present(record: BlockRecord) -> bool {
    record.body || record.body_index is Some
}

/// Whether there is a body, in either form.
pub fn has_body(record: &BlockRecord) -> (has: bool)
    ensures
        has == body_present(*record),
{
    record.body || record.body_index.is_some()
}

/// The hash of a block as it is printed: that of its header; where the header is
/// missing, that in its lookup key; else `otherwise`.
pub open spec fn block_hash_text(record: BlockRecord, otherwise: Seq<char>) -> Seq<char> {
    match record.header {
        Some(header) => "0x"@ + hex_text(database_hash(header@)),
        None => match key_hash_text(record.lookup_key@) {
            Some(text) => text,
            None => otherwise,
        },
    }
}

fn printed_hash(record: &BlockRecord, otherwise: &str) -> (text: String)
    ensures
        text@ == block_hash_text(*record, otherwise@),
{
    match &record.header {
        Some(header) => {
            let (_, hash): (u32, String) = decode_header_number_hash(header.as_slice());
            let mut text = "0x".to_owned();
            text.append(hash.as_str());
            text
        },
        None => match hash_from_lookup_key(record.lookup_key.as_slice()) {
            Some(text) => text,
            None => otherwise.to_owned(),
        },
    }
}

/// How many of `entries` are indexed.
pub open spec fn indexed_count(entries: Seq<DbExtrinsicView>) -> nat
    decreases entries.len(),
{
    if entries.len() == 0 {
        0
    } else {
        indexed_count(entries.drop_last()) + if entries.last() is Indexed {
            1nat
        } else {
            0
        }
    }
}

/// What the table says of the index of a block: how many extrinsics there are,
/// and how many of them are indexed.
pub open spec fn index_cells(record: BlockRecord) -> (Seq<char>, Seq<char>) {
    match record.body_index {
        Some(raw) => match body_index_decoded(raw@) {
            Ok(entries) => (decimal_text(entries.len()), decimal_text(indexed_count(entries))),
            Err(_) => ("err"@, "err"@),
        },
        None => if record.body {
            ("-"@, "0"@)
        } else {
            ("-"@, "-"@)
        },
    }
}

/// One line of the table.
pub open spec fn row_text(
    block: Seq<char>,
    hash: Seq<char>,
    header: Seq<char>,
    body: Seq<char>,
    index: Seq<char>,
    indexed: Seq<char>,
) -> Seq<char> {
    pad_text(block, 7) + "  "@ + pad_text(hash, 66) + "  "@ + pad_text(header, 6) + "  "@
        + pad_text(body, 6) + "  "@ + pad_text(index, 10) + "  "@ + pad_text(indexed, 8)
}

/// The line of the table for a block whose hash is printed as `hash`.
pub open spec fn block_row_text(n: u32, hash: Seq<char>, record: BlockRecord) -> Seq<char> {
    row_text(
        decimal_text(n as nat),
        hash,
        if record.header is Some {
            "yes"@
        } else {
            "MISS"@
        },
        if record.body {
            "plain"@
        } else if record.body_index is Some {
            "index"@
        } else {
            "MISS"@
        },
        index_cells(record).0,
        index_cells(record).1,
    )
}

fn row(block: &str, hash: &str, header: &str, body: &str, index: &str, indexed: &str) -> (line:
    String)
    ensures
        line@ == row_text(block@, hash@, header@, body@, index@, indexed@),
{
    let mut line: String = pad_left(block, 7);
    line.append("  ");
    line.append(pad_left(hash, 66).as_str());
    line.append("  ");
    line.append(pad_left(header, 6).as_str());
    line.append("  ");
    line.append(pad_left(body, 6).as_str());
    line.append("  ");
    line.append(pad_left(index, 10).as_str());
    line.append("  ");
    line.append(pad_left(indexed, 8).as_str());
    line
}

/// The two lines above the table.
pub open spec fn table_lines() -> Seq<Seq<char>> {
    seq![
        row_text("Block"@, "Hash"@, "Header"@, "Body"@, "BodyIndex"@, "IndexTx"@),
        Seq::new(114, |i: int| '-'),
    ]
}

/// The two lines above the table: the names of its columns and a rule.
pub fn table_header() -> (lines: Vec<String>)
    ensures
        texts(lines@) == table_lines(),
{
    let mut lines: Vec<String> = Vec::new();
    push_line(&mut lines, row("Block", "Hash", "Header", "Body", "BodyIndex", "IndexTx"));
    let mut rule = String::new();
    let mut i: usize = 0;
    proof {
        reveal_strlit("-");
    }
    while i < 114
        invariant
            i <= 114,
            rule@ == Seq::new(i as nat, |k: int| '-'),
        decreases 114 - i,
    {
        proof {
            reveal_strlit("-");
        }
        rule.append("-");
        i += 1;
        assert(rule@ =~= Seq::new(i as nat, |k: int| '-'));
    }
    push_line(&mut lines, rule);
    lines
}

fn count_indexed(entries: &[DbExtrinsic]) -> (count: usize)
    ensures
        count == indexed_count(entry_views(entries@)),
{
    let ghost views = entry_views(entries@);
    let mut count: usize = 0;
    let mut i: usize = 0;
    assert(views.take(0) =~= Seq::empty());
    while i < entries.len()
        invariant
            i <= entries@.len(),
            count <= i,
            views == entry_views(entries@),
            count == indexed_count(views.take(i as int)),
        decreases entries@.len() - i,
    {
        assert(views.take(i + 1).drop_last() =~= views.take(i as int));
        assert(views.take(i + 1).last() == entries@[i as int]@);
        match &entries[i] {
            DbExtrinsic::Indexed { .. } => {
                count += 1;
            },
            DbExtrinsic::Full(_) => {},
        }
        i += 1;
    }
    assert(views.take(i as int) =~= views);
    count
}

/// The line of the table for a block whose hash is printed as `hash`.
pub fn block_row(n: u32, hash: &str, record: &BlockRecord) -> (line: String)
    ensures
        line@ == block_row_text(n, hash@, *record),
{
    let header: &str = if record.header.is_some() {
        "yes"
    } else {
        "MISS"
    };
    let body: &str = if record.body {
        "plain"
    } else if record.body_index.is_some() {
        "index"
    } else {
        "MISS"
    };
    let (index, indexed): (String, String) = match &record.body_index {
        Some(raw) => match decode_body_index(raw.as_slice()) {
            Ok(entries) => (
                decimal(entries.len() as u64),
                decimal(count_indexed(entries.as_slice()) as u64),
            ),
            Err(_) => ("err".to_owned(), "err".to_owned()),
        },
        None => if record.body {
            ("-".to_owned(), "0".to_owned())
        } else {
            ("-".to_owned(), "-".to_owned())
        },
    };
    row(decimal(n as u64).as_str(), hash, header, body, index.as_str(), indexed.as_str())
}

/// The line of the table for block `n`, if it gets one.
pub open spec fn block_line(n: u32, record: Option<BlockRecord>, show_header_only: bool) -> Option<
    Seq<char>,
> {
    match record {
        Some(record) => if show_header_only || body_present(record) {
            Some(block_row_text(n, block_hash_text(record, "missing"@), record))
        } else {
            None
        },
        None => None,
    }
}

/// The line of the table for block `n`, if it gets one: `record` is `None` where
/// the block has no lookup key, and a block without a body is left out unless
/// `show_header_only` is set.
pub fn print_block(n: u32, record: &Option<BlockRecord>, show_header_only: bool) -> (line: Option<
    String,
>)
    ensures
        match block_line(n, *record, show_header_only) {
            Some(row) => line matches Some(text) && text@ == row,
            None => line is None,
        },
{
    match record {
        Some(record) => {
            if !show_header_only && !has_body(record) {
                return None;
            }
            Some(block_row(n, printed_hash(record, "missing").as_str(), record))
        },
        None => None,
    }
}

/// The extrinsics that are listed when a block is printed in detail.
pub open spec fn listed_entries(record: Option<BlockRecord>) -> Seq<DbExtrinsicView> {
    match record {
        Some(record) => match record.body_index {
            Some(raw) => match body_index_decoded(raw@) {
                Ok(entries) => entries,
                Err(_) => Seq::empty(),
            },
            None => Seq::empty(),
        },
        None => Seq::empty(),
    }
}

/// Whether `key` is the hash under which the data of an extrinsic is kept: one
/// that is kept as it is has none.
pub open spec fn is_key_of(key: Option<ContentHash>, entry: DbExtrinsicView) -> bool {
    match entry {
        DbExtrinsicView::Indexed { hash, .. } => key matches Some(kept) && kept@ == hash,
        DbExtrinsicView::Full(_) => key is None,
    }
}

/// Under which hash the data of each listed extrinsic is kept, for those whose
/// data is kept on its own.
pub fn transaction_keys(record: &Option<BlockRecord>) -> (keys: Vec<Option<ContentHash>>)
    ensures
        keys@.len() == listed_entries(*record).len(),
        forall|i: int|
            0 <= i < keys@.len() ==> is_key_of(#[trigger] keys@[i], listed_entries(*record)[i]),
{
    let mut keys: Vec<Option<ContentHash>> = Vec::new();
    if let Some(record) = record {
        if let Some(raw) = &record.body_index {
            if let Ok(entries) = decode_body_index(raw.as_slice()) {
                let ghost views = entry_views(entries@);
                let mut i: usize = 0;
                while i < entries.len()
                    invariant
                        i <= entries@.len(),
                        keys@.len() == i,
                        views == entry_views(entries@),
                        forall|k: int| 0 <= k < i ==> is_key_of(#[trigger] keys@[k], views[k]),
                    decreases entries@.len() - i,
                {
                    match &entries[i] {
                        DbExtrinsic::Indexed { hash, .. } => keys.push(Some(*hash)),
                        DbExtrinsic::Full(_) => keys.push(None),
                    }
                    i += 1;
                }
            }
        }
    }
    keys
}

/// The words for the kind of an extrinsic from its header.
pub open spec fn header_kind_text(header: Seq<u8>) -> Seq<char> {
    if body_length(header) is None {
        "UNKNOWN"@
    } else if stores_data(header) {
        "STORE"@
    } else {
        "RENEW"@
    }
}

/// The lines for the extrinsic at position `at`; `data` is the length of the
/// data that is kept under its hash, if there is any.
pub open spec fn entry_lines(at: nat, entry: DbExtrinsicView, data: Option<usize>) -> Seq<
    Seq<char>,
> {
    match entry {
        DbExtrinsicView::Indexed { hash, header } => seq![
            "  ["@ + decimal_text(at) + "] "@ + header_kind_text(header),
            "       content_hash: 0x"@ + hex_text(hash),
            "       header_len:   "@ + decimal_text(header.len()) + " bytes"@,
            match data {
                Some(size) => "       tx_data:      "@ + decimal_text(size as nat) + " bytes"@,
                None => "       tx_data:      "@ + decimal_text(0) + " bytes (MISSING)"@,
            },
        ],
        DbExtrinsicView::Full(_) => seq![
            "  ["@ + decimal_text(at) + "] FULL (not indexed)"@,
        ],
    }
}

/// The lines for the first `count` extrinsics of a block.
pub open spec fn all_entry_lines(
    entries: Seq<DbExtrinsicView>,
    data: Seq<Option<usize>>,
    count: nat,
) -> Seq<Seq<char>>
    decreases count,
{
    if count == 0 {
        Seq::empty()
    } else {
        let last = (count - 1) as nat;
        all_entry_lines(entries, data, last) + entry_lines(
            last,
            entries[last as int],
            data[last as int],
        )
    }
}

/// The lines for a block in detail, whose hash is printed as `hash`.
pub open spec fn block_lines(
    n: u32,
    hash: Seq<char>,
    record: BlockRecord,
    data: Seq<Option<usize>>,
) -> Seq<Seq<char>> {
    seq![
        "Block #"@ + decimal_text(n as nat),
        "  Hash:   "@ + hash,
        "  Header: "@ + if record.header is Some {
            "present"@
        } else {
            "MISSING"@
        },
        if record.body {
            "  Body:   plain (stored as BODY column)"@
        } else if record.body_index is Some {
            "  Body:   indexed (stored as BODY_INDEX column)"@
        } else {
            "  Body:   MISSING (pruned)"@
        },
    ] + match record.body_index {
        Some(raw) => match body_index_decoded(raw@) {
            Ok(entries) => seq![
                "  Extrinsics: "@ + decimal_text(entries.len()) + " total"@,
                ""@,
            ] + all_entry_lines(entries, data, entries.len()),
            Err(cause) => seq!["  Error decoding BODY_INDEX: "@ + cause],
        },
        None => Seq::empty(),
    }
}

fn push_entry(lines: &mut Vec<String>, at: usize, entry: &DbExtrinsic, data: Option<usize>)
    ensures
        texts(final(lines)@) == texts(old(lines)@) + entry_lines(at as nat, entry@, data),
{
    let mut first = "  [".to_owned();
    first.append(decimal(at as u64).as_str());
    match entry {
        DbExtrinsic::Indexed { hash, header } => {
            first.append("] ");
            match extrinsic_body_length(header.as_slice()) {
                None => first.append("UNKNOWN"),
                Some(_) => {
                    if is_store(header.as_slice()) {
                        first.append("STORE");
                    } else {
                        first.append("RENEW");
                    }
                },
            }
            push_line(lines, first);
            let mut content = "       content_hash: 0x".to_owned();
            content.append(hex(array_as_slice(hash)).as_str());
            push_line(lines, content);
            let mut front = "       header_len:   ".to_owned();
            front.append(decimal(header.len() as u64).as_str());
            front.append(" bytes");
            push_line(lines, front);
            let mut kept = "       tx_data:      ".to_owned();
            match data {
                Some(size) => {
                    kept.append(decimal(size as u64).as_str());
                    kept.append(" bytes");
                },
                None => {
                    kept.append(decimal(0).as_str());
                    kept.append(" bytes (MISSING)");
                },
            }
            push_line(lines, kept);
        },
        DbExtrinsic::Full(_) => {
            first.append("] FULL (not indexed)");
            push_line(lines, first);
        },
    }
}

/// The lines for a block in detail, whose hash is printed as `hash`; `data`
/// holds, for each listed extrinsic, the length of the data that is kept under
/// its hash.
pub fn describe_block(n: u32, hash: &str, record: &BlockRecord, data: &[Option<usize>]) -> (lines:
    Vec<String>)
    requires
        data@.len() == listed_entries(Some(*record)).len(),
    ensures
        texts(lines@) == block_lines(n, hash@, *record, data@),
{
    let mut lines: Vec<String> = Vec::new();
    let mut title = "Block #".to_owned();
    title.append(decimal(n as u64).as_str());
    push_line(&mut lines, title);
    let mut known = "  Hash:   ".to_owned();
    known.append(hash);
    push_line(&mut lines, known);
    let mut header = "  Header: ".to_owned();
    if record.header.is_some() {
        header.append("present");
    } else {
        header.append("MISSING");
    }
    push_line(&mut lines, header);
    if record.body {
        push_line(&mut lines, "  Body:   plain (stored as BODY column)".to_owned());
    } else if record.body_index.is_some() {
        push_line(&mut lines, "  Body:   indexed (stored as BODY_INDEX column)".to_owned());
    } else {
        push_line(&mut lines, "  Body:   MISSING (pruned)".to_owned());
    }
    if let Some(raw) = &record.body_index {
        match decode_body_index(raw.as_slice()) {
            Ok(entries) => {
                let mut total = "  Extrinsics: ".to_owned();
                total.append(decimal(entries.len() as u64).as_str());
                total.append(" total");
                push_line(&mut lines, total);
                push_line(&mut lines, "".to_owned());
                let ghost views = entry_views(entries@);
                let ghost opened = texts(lines@);
                let mut i: usize = 0;
                while i < entries.len()
                    invariant
                        i <= entries@.len(),
                        views == entry_views(entries@),
                        data@.len() == entries@.len(),
                        texts(lines@) == opened + all_entry_lines(views, data@, i as nat),
                    decreases entries@.len() - i,
                {
                    push_entry(&mut lines, i, &entries[i], data[i]);
                    assert(views[i as int] == entries@[i as int]@);
                    i += 1;
                }
            },
            Err(cause) => {
                let mut failed = "  Error decoding BODY_INDEX: ".to_owned();
                failed.append(cause.as_str());
                push_line(&mut lines, failed);
            },
        }
    }
    lines
}

/// The lines for block `n` in detail.
pub open spec fn inspect_lines(
    n: u32,
    record: Option<BlockRecord>,
    data: Seq<Option<usize>>,
) -> Seq<Seq<char>> {
    match record {
        Some(record) => block_lines(n, block_hash_text(record, "?"@), record, data),
        None => seq!["Block #"@ + decimal_text(n as nat) + ": no lookup key found"@],
    }
}

/// The lines for block `n` in detail; `record` is `None` where the block has no
/// lookup key, and `data` holds, for each listed extrinsic, the length of the
/// data that is kept under its hash.
pub fn inspect_block(n: u32, record: &Option<BlockRecord>, data: &[Option<usize>]) -> (lines: Vec<
    String,
>)
    requires
        data@.len() == listed_entries(*record).len(),
    ensures
        texts(lines@) == inspect_lines(n, *record, data@),
{
    match record {
        Some(record) => describe_block(n, printed_hash(record, "?").as_str(), record, data),
        None => {
            let mut line = "Block #".to_owned();
            line.append(decimal(n as u64).as_str());
            line.append(": no lookup key found");
            let mut lines: Vec<String> = Vec::new();
            push_line(&mut lines, line);
            lines
        },
    }
}

proof fn lemma_no_dots(text: Seq<char>, at: nat)
    requires
        forall|i: int| at <= i < text.len() ==> #[trigger] text[i] != '.',
    ensures
        dots_from(text, at) is None,
    decreases text.len() - at,
{
    if at + 2 <= text.len() {
        lemma_no_dots(text, at + 1);
    }
}

proof fn lemma_dots_at(text: Seq<char>, at: nat, dots: nat)
    requires
        at <= dots,
        dots + 2 <= text.len(),
        forall|i: int| at <= i < dots ==> #[trigger] text[i] != '.',
        text[dots as int] == '.',
        text[(dots + 1) as int] == '.',
    ensures
        dots_from(text, at) == Some(dots),
    decreases dots - at,
{
    if at < dots {
        lemma_dots_at(text, at + 1, dots);
    }
}

/// A range that is typed as two numbers with two dots between them is that of
/// those two numbers.
pub proof fn range_reads_back(from: u32, to: u32, best: u32)
    ensures
        range_of(
            Some(decimal_text(from as nat) + ".."@ + decimal_text(to as nat)),
            best,
        ) == (from, to),
{
    reveal_strlit("..");
    number_reads_back(from);
    number_reads_back(to);
    let first = decimal_text(from as nat);
    let last = decimal_text(to as nat);
    let text = first + ".."@ + last;
    assert forall|i: int| 0 <= i < first.len() implies #[trigger] text[i] != '.' by {
        assert(is_decimal_digit(first[i]));
    }
    assert forall|i: int| first.len() + 2 <= i < text.len() implies #[trigger] text[i] != '.' by {
        assert(is_decimal_digit(last[i - first.len() - 2]));
    }
    lemma_dots_at(text, 0, first.len());
    lemma_no_dots(text, first.len() + 2);
    assert(text.take(first.len() as int) =~= first);
    assert(text.skip((first.len() + 2) as int) =~= last);
}

} // verus!

//! What each line that is printed of a database depends on.

use crate::body_index::{body_index_decoded, store_is_cut_short, DbExtrinsicView};
use crate::bytes::ContentHash;
use crate::hashing::database_hash;
use crate::inspect::{
    all_entry_lines, bad_range_text, best_number, block_hash_text, block_line, block_lines,
    block_row_text, body_present, bytes_view, dots_from, entry_lines, head_text, index_cells,
    indexed_count, inspect_lines, is_key_of, listed_entries, meta_lines, range_of, range_parts,
    range_warning, row_text, summary_of, table_lines, BlockRecord, ChainHead,
};
use crate::lookup::{
    header_number, header_number_stands_behind_the_parent, number_key, number_key_reads_back,
};
use crate::scale::{compact_decoded, compact_encoded};
use crate::text::{decimal_text, hex_text, pad_text, padding_is_blanks_in_front, parsed_u32};
use vstd::prelude::*;

verus! {

/// The words behind the name of a head: its number and the hash of its header;
/// where the header is missing, its lookup key; where that is missing, so much.
pub proof fn head_line_gives_number_and_hash(
    label: Seq<char>,
    key: Seq<u8>,
    number: u32,
    hash: Seq<char>,
    summary: Option<(u32, Seq<char>)>,
)
    ensures
        head_text(label, Some(key), Some((number, hash))) == label + ("#"@ + decimal_text(
            number as nat,
        ) + " (0x"@ + hash + ")"@),
        head_text(label, Some(key), None) == label + ("<header missing, key=0x"@ + hex_text(key)
            + ">"@),
        head_text(label, None, summary) == label + "<meta missing>"@,
{
}

/// Whether a line is the one for a head under a name: with a lookup key and a
/// header it gives the number in that header and the hash of that header.
pub open spec fn line_of_head(line: Seq<char>, label: Seq<char>, head: ChainHead) -> bool {
    match (head.lookup_key, head.header) {
        (Some(_), Some(header)) => line == label + ("#"@ + decimal_text(
            header_number(header@) as nat,
        ) + " (0x"@ + hex_text(database_hash(header@)) + ")"@),
        (Some(key), None) => line == label + ("<header missing, key=0x"@ + hex_text(key@) + ">"@),
        (None, _) => line == label + "<meta missing>"@,
    }
}

/// The state of the chain takes three lines: the first depends on the hash of the
/// first block alone, the second on the best head alone, and the third on the
/// finalized head alone.
pub proof fn each_line_of_the_state_has_its_own_source(
    genesis: Option<Vec<u8>>,
    best: ChainHead,
    finalized: ChainHead,
)
    ensures
        ({
            let lines = meta_lines(genesis, best, finalized);
            &&& lines.len() == 3
            &&& genesis matches Some(hash) ==> lines[0] == "Genesis hash:    "@ + ("0x"@
                + hex_text(hash@))
            &&& genesis is None ==> lines[0] == "Genesis hash:    "@ + "<missing>"@
            &&& line_of_head(lines[1], "Best block:      "@, best)
            &&& line_of_head(lines[2], "Finalized block: "@, finalized)
        }),
{
}

/// A finalized head with a lookup key and a header that gives `n` behind the hash
/// of its parent is printed with `n` and the hash of that header, whatever the
/// best head is; and so is the best head, whatever the finalized one is.
pub proof fn heads_are_printed_with_their_own_number(
    genesis: Option<Vec<u8>>,
    head: ChainHead,
    other: ChainHead,
    parent: Seq<u8>,
    n: u32,
    rest: Seq<u8>,
)
    requires
        parent.len() == 32,
        head.lookup_key is Some,
        head.header matches Some(header) && header@ == parent + compact_encoded(n) + rest,
    ensures
        ({
            let words = "#"@ + decimal_text(n as nat) + " (0x"@ + hex_text(
                database_hash(parent + compact_encoded(n) + rest),
            ) + ")"@;
            &&& meta_lines(genesis, other, head)[2] == "Finalized block: "@ + words
            &&& meta_lines(genesis, head, other)[1] == "Best block:      "@ + words
        }),
{
    header_number_stands_behind_the_parent(parent, n, rest);
}

/// What is known of a head goes by its header alone.
pub proof fn summary_goes_by_the_header(header: Option<Vec<u8>>)
    ensures
        header is None ==> summary_of(header) is None,
        header matches Some(bytes) ==> (summary_of(header) matches Some(summary) && summary.0
            == header_number(bytes@) && summary.1 == hex_text(database_hash(bytes@))),
        bytes_view(header) is None <==> header is None,
        header matches Some(bytes) ==> bytes_view(header) == Some(bytes@),
{
}

/// The best block is the one in the header, without a warning. Without a header
/// it is the one in the lookup key, and without either it is the first, each with
/// a warning of its own.
pub proof fn best_block_comes_from_header_then_key(
    key: Seq<u8>,
    header: Seq<u8>,
    n: u32,
    any: Option<Seq<u8>>,
)
    ensures
        best_number(Some(key), Some(header)) == (header_number(header), None::<Seq<char>>),
        best_number(Some(number_key(n) + key), None) == (
            n,
            Some("WARNING: best block header missing, using number from lookup key"@),
        ),
        key.len() < 4 ==> best_number(Some(key), None) == (
            0u32,
            Some("WARNING: best block meta exists but header and key are unreadable"@),
        ),
        best_number(None, any) == (
            0u32,
            Some("WARNING: no best block meta found, scanning only genesis"@),
        ),
{
    number_key_reads_back(n, key);
}

/// Whether nowhere in a text two dots stand side by side.
pub open spec fn no_two_dots(text: Seq<char>) -> bool {
    forall|i: int|
        0 <= i < text.len() - 1 ==> !(#[trigger] text[i] == '.' && text[i + 1] == '.')
}

proof fn lemma_no_two_dots(text: Seq<char>, at: nat)
    requires
        forall|i: int|
            at <= i < text.len() - 1 ==> !(#[trigger] text[i] == '.' && text[i + 1] == '.'),
    ensures
        dots_from(text, at) is None,
    decreases text.len() - at,
{
    if at + 2 <= text.len() {
        assert(!(text[at as int] == '.' && text[at as int + 1] == '.'));
        lemma_no_two_dots(text, at + 1);
    }
}

proof fn lemma_two_dots(text: Seq<char>, at: nat, dots: nat)
    requires
        at <= dots,
        dots + 2 <= text.len(),
        text[dots as int] == '.',
        text[(dots + 1) as int] == '.',
    ensures
        dots_from(text, at) is Some,
        (forall|i: int|
            at <= i < dots ==> !(#[trigger] text[i] == '.' && text[i + 1] == '.')) ==> dots_from(
            text,
            at,
        ) == Some(dots),
    decreases dots - at,
{
    if at < dots {
        lemma_two_dots(text, at + 1, dots);
        if forall|i: int|
            at <= i < dots ==> !(#[trigger] text[i] == '.' && text[i + 1] == '.') {
            assert(!(text[at as int] == '.' && text[at as int + 1] == '.'));
        }
    }
}

/// A range is cut at its first two dots. It is one exactly if no other two dots
/// stand behind them.
pub proof fn range_is_cut_at_its_two_dots(from: Seq<char>, to: Seq<char>)
    requires
        no_two_dots(from),
        from.len() > 0 ==> from.last() != '.',
    ensures
        no_two_dots(to) ==> range_parts(from + seq!['.', '.'] + to) == Some((from, to)),
        !no_two_dots(to) ==> range_parts(from + seq!['.', '.'] + to) is None,
        range_parts(from) is None,
{
    let text = from + seq!['.', '.'] + to;
    let cut = from.len();
    assert forall|i: int| 0 <= i < cut implies !(#[trigger] text[i] == '.' && text[i + 1]
        == '.') by {
        assert(text[i] == from[i]);
        if i + 1 < cut {
            assert(text[i + 1] == from[i + 1]);
            assert(!(from[i] == '.' && from[i + 1] == '.'));
        } else {
            assert(from[i] == from.last());
        }
    }
    lemma_two_dots(text, 0, cut);
    assert(text.take(cut as int) =~= from);
    assert(text.skip((cut + 2) as int) =~= to);
    if no_two_dots(to) {
        assert forall|i: int| cut + 2 <= i < text.len() - 1 implies !(#[trigger] text[i] == '.'
            && text[i + 1] == '.') by {
            let k = i - cut - 2;
            assert(text[i] == to[k] && text[i + 1] == to[k + 1]);
            assert(!(to[k] == '.' && to[k + 1] == '.'));
        }
        lemma_no_two_dots(text, cut + 2);
    } else {
        let k = choose|k: int|
            0 <= k < to.len() - 1 && #[trigger] to[k] == '.' && to[k + 1] == '.';
        let dots = (cut + 2 + k) as nat;
        assert(text[dots as int] == to[k] && text[(dots + 1) as int] == to[k + 1]);
        lemma_two_dots(text, cut + 2, dots);
    }
    lemma_no_two_dots(from, 0);
}

/// The first number of a range is zero where it cannot be read, the last that of
/// the best block. What is no range, and no range at all, is all blocks up to the
/// best one.
pub proof fn open_ends_of_a_range(text: Seq<char>, best: u32)
    ensures
        range_of(None, best) == (0u32, best),
        range_parts(text) is None ==> range_of(Some(text), best) == (0u32, best),
        range_parts(text) matches Some((from, to)) ==> {
            let range = range_of(Some(text), best);
            &&& parsed_u32(from) matches Some(number) ==> range.0 == number
            &&& parsed_u32(from) is None ==> range.0 == 0
            &&& parsed_u32(to) matches Some(number) ==> range.1 == number
            &&& parsed_u32(to) is None ==> range.1 == best
        },
        bad_range_text(text) == "Invalid range format '"@ + text + "', expected FROM..TO"@,
{
}

/// A block has a body if it is kept as it is or as an index.
pub proof fn body_is_kept_in_either_form(record: BlockRecord)
    ensures
        body_present(record) <==> record.body || record.body_index is Some,
{
}

/// The hash of a block is that of its header where there is one; else it is all
/// that stands behind the number in its lookup key; and else the word for that.
pub proof fn block_hash_comes_from_header_then_key(record: BlockRecord, otherwise: Seq<char>)
    ensures
        record.header matches Some(header) ==> block_hash_text(record, otherwise) == "0x"@
            + hex_text(database_hash(header@)),
        record.header is None && record.lookup_key@.len() > 4 ==> block_hash_text(
            record,
            otherwise,
        ) == "0x"@ + hex_text(record.lookup_key@.skip(4)),
        record.header is None && record.lookup_key@.len() <= 4 ==> block_hash_text(
            record,
            otherwise,
        ) == otherwise,
{
}

/// The indexed extrinsics of two lists add up, and each counts once.
pub proof fn indexed_extrinsics_add_up(
    first: Seq<DbExtrinsicView>,
    second: Seq<DbExtrinsicView>,
    entry: DbExtrinsicView,
)
    ensures
        indexed_count(first + second) == indexed_count(first) + indexed_count(second),
        entry is Indexed ==> indexed_count(seq![entry]) == 1,
        entry is Full ==> indexed_count(seq![entry]) == 0,
        indexed_count(Seq::empty()) == 0,
    decreases second.len(),
{
    reveal_with_fuel(indexed_count, 2);
    assert(seq![entry].drop_last() =~= Seq::empty());
    if second.len() == 0 {
        assert(first + second =~= first);
    } else {
        assert((first + second).drop_last() =~= first + second.drop_last());
        indexed_extrinsics_add_up(first, second.drop_last(), entry);
    }
}

/// The table gives how many extrinsics an index has and how many are indexed; an
/// index that cannot be read is marked in both columns; without an index there is
/// nothing to count, but a body that is kept as it is has none indexed.
pub proof fn table_counts_the_extrinsics(record: BlockRecord)
    ensures
        ({
            let (total, indexed) = index_cells(record);
            match record.body_index {
                Some(raw) => match body_index_decoded(raw@) {
                    Ok(entries) => total == decimal_text(entries.len()) && indexed == decimal_text(
                        indexed_count(entries),
                    ),
                    Err(_) => total == "err"@ && indexed == "err"@,
                },
                None => total == "-"@ && (record.body ==> indexed == "0"@) && (!record.body
                    ==> indexed == "-"@),
            }
        }),
{
}

/// The cells of a line stand in columns of 7, 66, 6, 6, 10 and 8 characters with
/// two blanks between them, each at the right end of its column.
pub proof fn cells_stand_in_their_columns(
    block: Seq<char>,
    hash: Seq<char>,
    header: Seq<char>,
    body: Seq<char>,
    index: Seq<char>,
    indexed: Seq<char>,
)
    requires
        block.len() <= 7,
        hash.len() <= 66,
        header.len() <= 6,
        body.len() <= 6,
        index.len() <= 10,
        indexed.len() <= 8,
    ensures
        ({
            let row = row_text(block, hash, header, body, index, indexed);
            &&& row.len() == 113
            &&& row.subrange(7 - block.len(), 7) == block
            &&& row.subrange(75 - hash.len(), 75) == hash
            &&& row.subrange(83 - header.len(), 83) == header
            &&& row.subrange(91 - body.len(), 91) == body
            &&& row.subrange(103 - index.len(), 103) == index
            &&& row.subrange(113 - indexed.len(), 113) == indexed
            &&& forall|i: int|
                0 <= i < 113 && !(7 - block.len() <= i < 7) && !(75 - hash.len() <= i < 75) && !(83
                    - header.len() <= i < 83) && !(91 - body.len() <= i < 91) && !(103
                    - index.len() <= i < 103) && !(113 - indexed.len() <= i < 113)
                    ==> #[trigger] row[i] == ' '
        }),
{
    reveal_strlit("  ");
    padding_is_blanks_in_front(block, 7);
    padding_is_blanks_in_front(hash, 66);
    padding_is_blanks_in_front(header, 6);
    padding_is_blanks_in_front(body, 6);
    padding_is_blanks_in_front(index, 10);
    padding_is_blanks_in_front(indexed, 8);
    let row = row_text(block, hash, header, body, index, indexed);
    assert(row.subrange(7 - block.len(), 7) =~= block);
    assert(row.subrange(75 - hash.len(), 75) =~= hash);
    assert(row.subrange(83 - header.len(), 83) =~= header);
    assert(row.subrange(91 - body.len(), 91) =~= body);
    assert(row.subrange(103 - index.len(), 103) =~= index);
    assert(row.subrange(113 - indexed.len(), 113) =~= indexed);
}

/// A line of cells of any width is those cells, padded, with two blanks between
/// them.
pub proof fn row_joins_its_cells(
    block: Seq<char>,
    hash: Seq<char>,
    header: Seq<char>,
    body: Seq<char>,
    index: Seq<char>,
    indexed: Seq<char>,
)
    ensures
        row_text(block, hash, header, body, index, indexed) == pad_text(block, 7) + "  "@
            + pad_text(hash, 66) + "  "@ + pad_text(header, 6) + "  "@ + pad_text(body, 6) + "  "@
            + pad_text(index, 10) + "  "@ + pad_text(indexed, 8),
{
}

/// The line for a block gives its number, its hash, whether there is a header, in
/// which form there is a body, and the counts of its extrinsics.
pub proof fn row_tells_of_the_block(n: u32, hash: Seq<char>, record: BlockRecord)
    ensures
        exists|header: Seq<char>, body: Seq<char>|
            {
                &&& block_row_text(n, hash, record) == #[trigger] row_text(
                    decimal_text(n as nat),
                    hash,
                    header,
                    body,
                    index_cells(record).0,
                    index_cells(record).1,
                )
                &&& record.header is Some ==> header == "yes"@
                &&& record.header is None ==> header == "MISS"@
                &&& record.body ==> body == "plain"@
                &&& !record.body && record.body_index is Some ==> body == "index"@
                &&& !record.body && record.body_index is None ==> body == "MISS"@
            },
{
    let header = if record.header is Some {
        "yes"@
    } else {
        "MISS"@
    };
    let body = if record.body {
        "plain"@
    } else if record.body_index is Some {
        "index"@
    } else {
        "MISS"@
    };
    assert(block_row_text(n, hash, record) == row_text(
        decimal_text(n as nat),
        hash,
        header,
        body,
        index_cells(record).0,
        index_cells(record).1,
    ));
}

/// The extrinsics that are listed are those of the index, where there is one that
/// can be read, and the data of an indexed one is kept under its hash.
pub proof fn listed_extrinsics_are_those_of_the_index(
    record: BlockRecord,
    key: Option<ContentHash>,
    entry: DbExtrinsicView,
)
    ensures
        listed_entries(None).len() == 0,
        record.body_index is None ==> listed_entries(Some(record)).len() == 0,
        record.body_index matches Some(raw) ==> match body_index_decoded(raw@) {
            Ok(entries) => listed_entries(Some(record)) == entries,
            Err(_) => listed_entries(Some(record)).len() == 0,
        },
        entry is Full ==> (is_key_of(key, entry) <==> key is None),
        entry matches DbExtrinsicView::Indexed { hash, .. } ==> (is_key_of(key, entry) <==> (
        key is Some && key->0@ == hash)),
{
}

/// Whether a text ends in another one.
pub open spec fn ends_in(text: Seq<char>, end: Seq<char>) -> bool {
    end.len() <= text.len() && text.skip(text.len() - end.len()) == end
}

/// An indexed extrinsic takes four lines: its place and kind, its content hash,
/// the length of its header, and the length of its data. The last of them ends in
/// a note exactly if there is no data under its hash, whatever its header is.
pub proof fn missing_data_is_marked(
    at: nat,
    hash: Seq<u8>,
    header: Seq<u8>,
    data: Option<usize>,
)
    ensures
        ({
            let lines = entry_lines(at, DbExtrinsicView::Indexed { hash, header }, data);
            &&& lines.len() == 4
            &&& lines[1] == "       content_hash: 0x"@ + hex_text(hash)
            &&& lines[2] == "       header_len:   "@ + decimal_text(header.len()) + " bytes"@
            &&& data matches Some(size) ==> lines[3] == "       tx_data:      "@ + decimal_text(
                size as nat,
            ) + " bytes"@
            &&& data is None ==> lines[3] == "       tx_data:      "@ + decimal_text(0) + " bytes"@
                + " (MISSING)"@
            &&& ends_in(lines[3], " (MISSING)"@) <==> data is None
        }),
{
    reveal_strlit(" bytes");
    reveal_strlit(" (MISSING)");
    reveal_strlit(" bytes (MISSING)");
    let lines = entry_lines(at, DbExtrinsicView::Indexed { hash, header }, data);
    let line = lines[3];
    let note = " (MISSING)"@;
    assert(" bytes (MISSING)"@ =~= " bytes"@ + note);
    match data {
        Some(_) => {
            assert(line.last() == 's');
            if ends_in(line, note) {
                let end = line.skip(line.len() - note.len());
                assert(end.last() == line.last());
                assert(note.last() == ')');
            }
        },
        None => {
            assert(line =~= "       tx_data:      "@ + decimal_text(0) + " bytes"@ + note);
            assert(line.skip(line.len() - note.len()) =~= note);
        },
    }
}

/// The kind of an indexed extrinsic is that of one that brought its data if its
/// header says a length greater than what is left behind it, that of one that did
/// not if it says one that is not, and unknown if it says none.
pub proof fn kind_goes_by_the_length_in_the_header(
    at: nat,
    hash: Seq<u8>,
    header: Seq<u8>,
    data: Option<usize>,
)
    ensures
        ({
            let first = entry_lines(at, DbExtrinsicView::Indexed { hash, header }, data)[0];
            let place = "  ["@ + decimal_text(at) + "] "@;
            match compact_decoded(header) {
                Ok((length, left)) => {
                    &&& length > left.len() ==> first == place + "STORE"@
                    &&& length <= left.len() ==> first == place + "RENEW"@
                },
                Err(_) => first == place + "UNKNOWN"@,
            }
        }),
{
    store_is_cut_short(header);
}

/// An extrinsic that is kept as it is takes one line.
pub proof fn full_extrinsic_takes_one_line(at: nat, bytes: Seq<u8>, data: Option<usize>)
    ensures
        entry_lines(at, DbExtrinsicView::Full(bytes), data) == seq![
            "  ["@ + decimal_text(at) + "] FULL (not indexed)"@,
        ],
{
}

/// The lines for one more extrinsic stand behind those for the ones before it, and
/// go by its place, itself and its own data.
pub proof fn extrinsics_are_printed_in_order(
    entries: Seq<DbExtrinsicView>,
    data: Seq<Option<usize>>,
    count: nat,
)
    ensures
        all_entry_lines(entries, data, 0).len() == 0,
        all_entry_lines(entries, data, count + 1) == all_entry_lines(entries, data, count)
            + entry_lines(count, entries[count as int], data[count as int]),
{
}

/// A block in detail starts with its number, its hash, whether there is a header
/// and in which form there is a body. Then come the extrinsics of its index, or
/// why it cannot be read; a block without an index has no more lines.
pub proof fn details_of_a_block(
    n: u32,
    hash: Seq<char>,
    record: BlockRecord,
    data: Seq<Option<usize>>,
)
    ensures
        ({
            let lines = block_lines(n, hash, record, data);
            &&& lines.len() >= 4
            &&& lines[0] == "Block #"@ + decimal_text(n as nat)
            &&& lines[1] == "  Hash:   "@ + hash
            &&& record.header is Some ==> lines[2] == "  Header: "@ + "present"@
            &&& record.header is None ==> lines[2] == "  Header: "@ + "MISSING"@
            &&& record.body ==> lines[3] == "  Body:   plain (stored as BODY column)"@
            &&& !record.body && record.body_index is Some ==> lines[3]
                == "  Body:   indexed (stored as BODY_INDEX column)"@
            &&& !record.body && record.body_index is None ==> lines[3]
                == "  Body:   MISSING (pruned)"@
            &&& record.body_index is None ==> lines.len() == 4
            &&& record.body_index matches Some(raw) ==> match body_index_decoded(raw@) {
                Ok(entries) => {
                    &&& lines.len() >= 6
                    &&& lines[4] == "  Extrinsics: "@ + decimal_text(entries.len()) + " total"@
                    &&& lines[5].len() == 0
                    &&& lines.skip(6) == all_entry_lines(entries, data, entries.len())
                },
                Err(cause) => lines.len() == 5 && lines[4] == "  Error decoding BODY_INDEX: "@
                    + cause,
            }
        }),
{
    reveal_strlit("");
    let lines = block_lines(n, hash, record, data);
    if let Some(raw) = record.body_index {
        if let Ok(entries) = body_index_decoded(raw@) {
            assert(lines.skip(6) =~= all_entry_lines(entries, data, entries.len()));
        }
    }
}

/// A block gets a line in the table exactly if it has a lookup key and either a
/// body in some form or blocks without one are asked for too. The line tells of
/// that block, under its own hash.
pub proof fn blocks_with_bodies_get_a_line(n: u32, record: BlockRecord, show_header_only: bool)
    ensures
        block_line(n, None, show_header_only) is None,
        block_line(n, Some(record), show_header_only) is Some <==> show_header_only || record.body
            || record.body_index is Some,
        block_line(n, Some(record), show_header_only) matches Some(line) ==> {
            &&& record.header matches Some(header) ==> line == block_row_text(
                n,
                "0x"@ + hex_text(database_hash(header@)),
                record,
            )
            &&& record.header is None && record.lookup_key@.len() > 4 ==> line == block_row_text(
                n,
                "0x"@ + hex_text(record.lookup_key@.skip(4)),
                record,
            )
            &&& record.header is None && record.lookup_key@.len() <= 4 ==> line == block_row_text(
                n,
                "missing"@,
                record,
            )
        },
{
}

/// Asking for blocks without bodies adds lines and changes none.
pub proof fn header_only_blocks_only_add_lines(n: u32, record: Option<BlockRecord>)
    ensures
        block_line(n, record, false) is Some ==> block_line(n, record, true) == block_line(
            n,
            record,
            false,
        ),
{
}

/// A block without a lookup key takes one line that says so; any other is
/// described under its own hash.
pub proof fn blocks_are_described_under_their_hash(
    n: u32,
    record: BlockRecord,
    data: Seq<Option<usize>>,
)
    ensures
        inspect_lines(n, None, data) == seq![
            "Block #"@ + decimal_text(n as nat) + ": no lookup key found"@,
        ],
        record.header matches Some(header) ==> inspect_lines(n, Some(record), data) == block_lines(
            n,
            "0x"@ + hex_text(database_hash(header@)),
            record,
            data,
        ),
        record.header is None && record.lookup_key@.len() > 4 ==> inspect_lines(
            n,
            Some(record),
            data,
        ) == block_lines(n, "0x"@ + hex_text(record.lookup_key@.skip(4)), record, data),
        record.header is None && record.lookup_key@.len() <= 4 ==> inspect_lines(
            n,
            Some(record),
            data,
        ) == block_lines(n, "?"@, record, data),
{
}

/// What is typed is warned about exactly if it is no range, in words that repeat
/// it.
pub proof fn only_what_is_no_range_is_warned_about(text: Seq<char>)
    ensures
        range_warning(None) is None,
        range_warning(Some(text)) is Some <==> range_parts(text) is None,
        range_warning(Some(text)) matches Some(words) ==> words == "Invalid range format '"@ + text
            + "', expected FROM..TO"@,
{
}

/// The names of the columns stand where the cells of the table do, above a rule
/// of 114 dashes.
pub proof fn table_has_names_above_a_rule()
    ensures
        table_lines().len() == 2,
        table_lines()[0] == row_text(
            "Block"@,
            "Hash"@,
            "Header"@,
            "Body"@,
            "BodyIndex"@,
            "IndexTx"@,
        ),
        table_lines()[1].len() == 114,
        forall|i: int| 0 <= i < 114 ==> #[trigger] table_lines()[1][i] == '-',
{
}

} // verus!

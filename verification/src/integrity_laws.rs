//! What the numbers and the words of a check are, counted over the database.

use crate::body_index::{body_index_decoded, store_is_cut_short, stores_data, DbExtrinsicView};
use crate::hashing::database_hash;
use crate::integrity::{
    check_begin, closing_lines, digest_of, empty_report, nothing_is_wrong, opening_lines,
    question_of,
    unreadable_text, with_entry, CheckStage, CheckStageView, CheckView, IntegrityReport,
    ReportView,
};
use crate::lookup::number_key;
use crate::scale::compact_decoded;
use crate::soundness::{
    block_sound, check_end, check_passes_exactly_if_all_is_well, check_reports_on_every_block,
    entry_sound, with_block, with_blocks, with_entries, Database,
};
use crate::text::{decimal_text, hex_text};
use vstd::prelude::*;

verus! {

/// Whether the header of an indexed extrinsic says a length greater than what is
/// left of the extrinsic behind it.
pub open spec fn says_more_than_is_left(header: Seq<u8>) -> bool {
    match compact_decoded(header) {
        Ok((length, left)) => length > left.len(),
        Err(_) => false,
    }
}

/// How many of the indexed extrinsics from `at` on have a hash and a header of a
/// kind.
pub open spec fn count_entries(
    entries: Seq<DbExtrinsicView>,
    at: nat,
    kind: spec_fn(Seq<u8>, Seq<u8>) -> bool,
) -> nat
    decreases entries.len() - at,
{
    if at >= entries.len() {
        0
    } else {
        count_entries(entries, at + 1, kind) + match entries[at as int] {
            DbExtrinsicView::Indexed { hash, header } => if kind(hash, header) {
                1nat
            } else {
                0
            },
            DbExtrinsicView::Full(_) => 0,
        }
    }
}

/// The index of a block, where it has one that can be read.
pub open spec fn readable_index(block: u32, db: Database) -> Option<Seq<DbExtrinsicView>> {
    match db(3, number_key(block)) {
        Some(lookup_key) => match db(12, lookup_key) {
            Some(raw) => match body_index_decoded(raw) {
                Ok(entries) => Some(entries),
                Err(_) => None,
            },
            None => None,
        },
        None => None,
    }
}

/// How many indexed extrinsics, over all readable indexes from `block` to `best`,
/// have a hash and a header of a kind.
pub open spec fn count_extrinsics(
    block: nat,
    best: u32,
    db: Database,
    kind: spec_fn(Seq<u8>, Seq<u8>) -> bool,
) -> nat
    decreases best + 1 - block,
{
    if block > best {
        0
    } else {
        count_extrinsics(block + 1, best, db, kind) + match readable_index(block as u32, db) {
            Some(entries) => count_entries(entries, 0, kind),
            None => 0,
        }
    }
}

/// How many blocks from `block` to `best` have a lookup key of a kind.
pub open spec fn count_blocks(
    block: nat,
    best: u32,
    db: Database,
    kind: spec_fn(Seq<u8>) -> bool,
) -> nat
    decreases best + 1 - block,
{
    if block > best {
        0
    } else {
        count_blocks(block + 1, best, db, kind) + match db(3, number_key(block as u32)) {
            Some(lookup_key) => if kind(lookup_key) {
                1nat
            } else {
                0
            },
            None => 0,
        }
    }
}

proof fn lemma_entry_counts(
    report: ReportView,
    block: u32,
    entries: Seq<DbExtrinsicView>,
    at: nat,
    db: Database,
)
    ensures
        ({
            let after = with_entries(report, block, entries, at, db);
            &&& after.blocks_checked == report.blocks_checked
            &&& after.blocks_with_body == report.blocks_with_body
            &&& after.blocks_with_index == report.blocks_with_index
            &&& after.indexed_total == report.indexed_total + count_entries(
                entries,
                at,
                |hash: Seq<u8>, header: Seq<u8>| true,
            )
            &&& after.stores == report.stores + count_entries(
                entries,
                at,
                |hash: Seq<u8>, header: Seq<u8>| says_more_than_is_left(header),
            )
            &&& after.renews == report.renews + count_entries(
                entries,
                at,
                |hash: Seq<u8>, header: Seq<u8>| !says_more_than_is_left(header),
            )
            &&& after.missing_tx == report.missing_tx + count_entries(
                entries,
                at,
                |hash: Seq<u8>, header: Seq<u8>| db(11, hash) is None,
            )
        }),
    decreases entries.len() - at,
{
    if at < entries.len() {
        match entries[at as int] {
            DbExtrinsicView::Indexed { hash, header } => {
                store_is_cut_short(header);
                assert(stores_data(header) == says_more_than_is_left(header));
                let next = with_entry(report, block, at, hash, header, digest_of(db(11, hash)));
                lemma_entry_counts(next, block, entries, at + 1, db);
            },
            DbExtrinsicView::Full(_) => {
                lemma_entry_counts(report, block, entries, at + 1, db);
            },
        }
    }
}

proof fn lemma_block_counts(report: ReportView, block: nat, best: u32, db: Database)
    ensures
        ({
            let after = with_blocks(report, block, best, db);
            &&& after.blocks_checked == report.blocks_checked + count_blocks(
                block,
                best,
                db,
                |key: Seq<u8>| true,
            )
            &&& after.blocks_with_body == report.blocks_with_body + count_blocks(
                block,
                best,
                db,
                |key: Seq<u8>| db(5, key) is Some,
            )
            &&& after.blocks_with_index == report.blocks_with_index + count_blocks(
                block,
                best,
                db,
                |key: Seq<u8>| db(12, key) is Some,
            )
            &&& after.indexed_total == report.indexed_total + count_extrinsics(
                block,
                best,
                db,
                |hash: Seq<u8>, header: Seq<u8>| true,
            )
            &&& after.stores == report.stores + count_extrinsics(
                block,
                best,
                db,
                |hash: Seq<u8>, header: Seq<u8>| says_more_than_is_left(header),
            )
            &&& after.renews == report.renews + count_extrinsics(
                block,
                best,
                db,
                |hash: Seq<u8>, header: Seq<u8>| !says_more_than_is_left(header),
            )
            &&& after.missing_tx == report.missing_tx + count_extrinsics(
                block,
                best,
                db,
                |hash: Seq<u8>, header: Seq<u8>| db(11, hash) is None,
            )
        }),
    decreases best + 1 - block,
{
    if block <= best {
        let n = block as u32;
        if let Some(lookup_key) = db(3, number_key(n)) {
            if let Some(raw) = db(12, lookup_key) {
                if let Ok(entries) = body_index_decoded(raw) {
                    let indexed = ReportView {
                        blocks_checked: report.blocks_checked + 1,
                        blocks_with_body: report.blocks_with_body + if db(5, lookup_key) is Some {
                            1nat
                        } else {
                            0
                        },
                        blocks_with_index: report.blocks_with_index + 1,
                        ..report
                    };
                    lemma_entry_counts(indexed, n, entries, 0, db);
                }
            }
        }
        lemma_block_counts(with_block(report, n, db), block + 1, best, db);
    }
}

/// At its end a check has counted, over the blocks up to the best one: those with
/// a lookup key; those of them with a body, and with an index; and over all
/// indexes that can be read, the indexed extrinsics, those whose header says a
/// length greater than what is left behind it, the others, and those for whose
/// hash there is no data.
pub proof fn check_counts_over_the_database(best: u32, db: Database)
    ensures
        ({
            let report = check_end(check_begin(best), db).report;
            &&& report.blocks_checked == count_blocks(0, best, db, |key: Seq<u8>| true)
            &&& report.blocks_with_body == count_blocks(
                0,
                best,
                db,
                |key: Seq<u8>| db(5, key) is Some,
            )
            &&& report.blocks_with_index == count_blocks(
                0,
                best,
                db,
                |key: Seq<u8>| db(12, key) is Some,
            )
            &&& report.indexed_total == count_extrinsics(
                0,
                best,
                db,
                |hash: Seq<u8>, header: Seq<u8>| true,
            )
            &&& report.stores == count_extrinsics(
                0,
                best,
                db,
                |hash: Seq<u8>, header: Seq<u8>| says_more_than_is_left(header),
            )
            &&& report.renews == count_extrinsics(
                0,
                best,
                db,
                |hash: Seq<u8>, header: Seq<u8>| !says_more_than_is_left(header),
            )
            &&& report.missing_tx == count_extrinsics(
                0,
                best,
                db,
                |hash: Seq<u8>, header: Seq<u8>| db(11, hash) is None,
            )
        }),
{
    check_reports_on_every_block(best, db);
    lemma_block_counts(empty_report(), 0, best, db);
}

/// What is to be said against the indexed extrinsic at a place: that there is no
/// data under its hash, or that it brought data which has another hash.
pub open spec fn complaint(
    block: u32,
    at: nat,
    hash: Seq<u8>,
    header: Seq<u8>,
    db: Database,
) -> Seq<Seq<char>> {
    let place = "Block #"@ + decimal_text(block as nat) + " ext["@ + decimal_text(at) + "] "@;
    match db(11, hash) {
        None => if says_more_than_is_left(header) {
            seq![place + "STORE"@ + ": TRANSACTION data MISSING for hash 0x"@ + hex_text(hash)]
        } else {
            seq![place + "RENEW"@ + ": TRANSACTION data MISSING for hash 0x"@ + hex_text(hash)]
        },
        Some(data) => if says_more_than_is_left(header) && database_hash(data) != hash {
            seq![
                place + "STORE"@ + ": hash mismatch! expected 0x"@ + hex_text(hash) + ", got 0x"@
                    + hex_text(database_hash(data)),
            ]
        } else {
            Seq::empty()
        },
    }
}

/// What is to be said against the extrinsics of a block from `at` on, in order.
pub open spec fn complaints_in(
    block: u32,
    entries: Seq<DbExtrinsicView>,
    at: nat,
    db: Database,
) -> Seq<Seq<char>>
    decreases entries.len() - at,
{
    if at >= entries.len() {
        Seq::empty()
    } else {
        let said = match entries[at as int] {
            DbExtrinsicView::Indexed { hash, header } => complaint(block, at, hash, header, db),
            DbExtrinsicView::Full(_) => Seq::empty(),
        };
        said + complaints_in(block, entries, at + 1, db)
    }
}

/// What is to be said against the blocks from `block` to `best`, in order: that an
/// index cannot be read and why, or what is to be said against its extrinsics.
pub open spec fn complaints(block: nat, best: u32, db: Database) -> Seq<Seq<char>>
    decreases best + 1 - block,
{
    if block > best {
        Seq::empty()
    } else {
        let n = block as u32;
        let said = match db(3, number_key(n)) {
            Some(lookup_key) => match db(12, lookup_key) {
                Some(raw) => match body_index_decoded(raw) {
                    Ok(entries) => complaints_in(n, entries, 0, db),
                    Err(cause) => seq![
                        "Block #"@ + decimal_text(block) + ": failed to decode BODY_INDEX: "@
                            + cause,
                    ],
                },
                None => Seq::empty(),
            },
            None => Seq::empty(),
        };
        said + complaints(block + 1, best, db)
    }
}

proof fn lemma_join(a: Seq<Seq<char>>, b: Seq<Seq<char>>, c: Seq<Seq<char>>)
    ensures
        a + b + c == a + (b + c),
        a + Seq::empty() == a,
{
    assert(a + b + c =~= a + (b + c));
    assert(a + Seq::empty() =~= a);
}

proof fn lemma_entry_complaints(
    report: ReportView,
    block: u32,
    entries: Seq<DbExtrinsicView>,
    at: nat,
    db: Database,
)
    ensures
        with_entries(report, block, entries, at, db).errors == report.errors + complaints_in(
            block,
            entries,
            at,
            db,
        ),
    decreases entries.len() - at,
{
    lemma_join(report.errors, Seq::empty(), Seq::empty());
    if at < entries.len() {
        let rest = complaints_in(block, entries, at + 1, db);
        match entries[at as int] {
            DbExtrinsicView::Indexed { hash, header } => {
                store_is_cut_short(header);
                let next = with_entry(report, block, at, hash, header, digest_of(db(11, hash)));
                let said = complaint(block, at, hash, header, db);
                lemma_entry_complaints(next, block, entries, at + 1, db);
                assert(next.errors =~= report.errors + said);
                lemma_join(report.errors, said, rest);
            },
            DbExtrinsicView::Full(_) => {
                lemma_entry_complaints(report, block, entries, at + 1, db);
                assert(Seq::<Seq<char>>::empty() + rest =~= rest);
            },
        }
    }
}

proof fn lemma_block_complaints(report: ReportView, block: nat, best: u32, db: Database)
    ensures
        with_blocks(report, block, best, db).errors == report.errors + complaints(block, best, db),
    decreases best + 1 - block,
{
    lemma_join(report.errors, Seq::empty(), Seq::empty());
    if block <= best {
        let n = block as u32;
        let next = with_block(report, n, db);
        let rest = complaints(block + 1, best, db);
        lemma_block_complaints(next, block + 1, best, db);
        assert(Seq::<Seq<char>>::empty() + rest =~= rest);
        if let Some(lookup_key) = db(3, number_key(n)) {
            if let Some(raw) = db(12, lookup_key) {
                match body_index_decoded(raw) {
                    Ok(entries) => {
                        let indexed = ReportView {
                            blocks_checked: report.blocks_checked + 1,
                            blocks_with_body: report.blocks_with_body + if db(
                                5,
                                lookup_key,
                            ) is Some {
                                1nat
                            } else {
                                0
                            },
                            blocks_with_index: report.blocks_with_index + 1,
                            ..report
                        };
                        lemma_entry_complaints(indexed, n, entries, 0, db);
                        lemma_join(report.errors, complaints_in(n, entries, 0, db), rest);
                    },
                    Err(cause) => {
                        let said = seq![unreadable_text(n, cause)];
                        assert(next.errors =~= report.errors + said);
                        lemma_join(report.errors, said, rest);
                    },
                }
            }
        }
    }
}

/// At its end a check says what is to be said against the blocks up to the best
/// one, in order, and nothing else.
pub proof fn check_says_what_is_wrong(best: u32, db: Database)
    ensures
        check_end(check_begin(best), db).report.errors == complaints(0, best, db),
{
    check_reports_on_every_block(best, db);
    lemma_block_complaints(empty_report(), 0, best, db);
    assert(Seq::<Seq<char>>::empty() + complaints(0, best, db) =~= complaints(0, best, db));
}

/// A check asks for the lookup key of the block under its number, then for its
/// body and its index under that lookup key, then for the data of each indexed
/// extrinsic under its hash.
pub proof fn check_asks_where_things_are_kept(check: CheckView)
    ensures
        match check.stage {
            CheckStageView::Lookup => question_of(check) == Some((3u32, number_key(check.block))),
            CheckStageView::Body { lookup_key } => question_of(check) == Some((5u32, lookup_key)),
            CheckStageView::Index { lookup_key } => question_of(check) == Some((12u32, lookup_key)),
            CheckStageView::Transaction { entries, at } => entries[at as int] matches
                DbExtrinsicView::Indexed { hash, .. } ==> question_of(check) == Some((11u32, hash)),
            CheckStageView::Done => question_of(check) is None,
        },
{
}

/// A check starts with the lookup key of the first block, before anything was
/// counted or found wrong.
pub proof fn check_starts_with_the_first_block(best: u32)
    ensures
        ({
            let check = check_begin(best);
            &&& check.best == best
            &&& check.block == 0
            &&& check.stage is Lookup
            &&& check.report.blocks_checked == 0
            &&& check.report.blocks_with_body == 0
            &&& check.report.blocks_with_index == 0
            &&& check.report.indexed_total == 0
            &&& check.report.stores == 0
            &&& check.report.renews == 0
            &&& check.report.missing_tx == 0
            &&& check.report.errors.len() == 0
        }),
{
}

/// A check opens by naming its last block, and an empty line.
pub proof fn opening_names_the_last_block(best: u32)
    ensures
        ({
            let lines = opening_lines(best);
            &&& lines.len() == 2
            &&& lines[0] == "Checking blocks 0..="@ + decimal_text(best as nat)
            &&& lines[1].len() == 0
        }),
{
    reveal_strlit("");
}

/// The summary gives each count under its own name. Behind it stands that all is
/// there if nothing is wrong, and else how much is wrong and what, one line each.
pub proof fn summary_gives_each_count_under_its_name(report: ReportView)
    ensures
        ({
            let lines = closing_lines(report);
            &&& lines.len() == 8 + report.errors.len()
            &&& lines[0] == "Summary:"@
            &&& lines[1] == "  Blocks scanned:     "@ + decimal_text(report.blocks_checked)
            &&& lines[2] == "  Blocks with BODY:   "@ + decimal_text(report.blocks_with_body)
            &&& lines[3] == "  Blocks with INDEX:  "@ + decimal_text(report.blocks_with_index)
            &&& lines[4] == "  Indexed extrinsics: "@ + decimal_text(report.indexed_total) + " ("@
                + decimal_text(report.stores) + " store, "@ + decimal_text(report.renews)
                + " renew)"@
            &&& lines[5] == "  Missing tx data:    "@ + decimal_text(report.missing_tx)
            &&& lines[6].len() == 0
            &&& report.errors.len() == 0 ==> lines[7]
                == "✓ All indexed transaction hashes are present in TRANSACTION column"@
            &&& report.errors.len() > 0 ==> lines[7] == "✗ Found "@ + decimal_text(
                report.errors.len(),
            ) + " error(s):"@
            &&& forall|i: int|
                0 <= i < report.errors.len() ==> #[trigger] lines[8 + i] == "  "@
                    + report.errors[i]
        }),
{
    reveal_strlit("");
    let lines = closing_lines(report);
    assert forall|i: int| 0 <= i < report.errors.len() implies #[trigger] lines[8 + i] == "  "@
        + report.errors[i] by {}
}

/// Whether all data that the index of a block names is there: the index can be
/// read, if there is one, and for each indexed extrinsic in it there is data
/// under its hash, which has that hash if the extrinsic brought it.
pub open spec fn all_data_is_there(block: u32, db: Database) -> bool {
    db(3, number_key(block)) matches Some(lookup_key) ==> (db(12, lookup_key) matches Some(raw)
        ==> (body_index_decoded(raw) matches Ok(entries) && forall|i: int|
        0 <= i < entries.len() ==> (#[trigger] entries[i] matches DbExtrinsicView::Indexed {
            hash,
            header,
        } ==> db(11, hash) is Some && (says_more_than_is_left(header) ==> database_hash(
            db(11, hash)->0,
        ) == hash))))
}

proof fn lemma_sound_is_all_there(block: u32, db: Database)
    ensures
        block_sound(block, db) <==> all_data_is_there(block, db),
{
    if let Some(lookup_key) = db(3, number_key(block)) {
        if let Some(raw) = db(12, lookup_key) {
            if let Ok(entries) = body_index_decoded(raw) {
                assert forall|i: int| 0 <= i < entries.len() implies (
                #[trigger] entries[i] matches DbExtrinsicView::Indexed { hash, header } ==> (
                entry_sound(hash, header, db) <==> db(11, hash) is Some && (
                says_more_than_is_left(header) ==> database_hash(db(11, hash)->0) == hash))) by {
                    if let DbExtrinsicView::Indexed { hash, header } = entries[i] {
                        store_is_cut_short(header);
                    }
                }
            }
        }
    }
}

/// A check finds nothing wrong exactly if, for every block up to the best one, all
/// data that its index names is there.
pub proof fn check_passes_exactly_if_all_data_is_there(best: u32, db: Database)
    ensures
        check_end(check_begin(best), db).report.errors.len() == 0 <==> (forall|n: u32|
            n <= best ==> #[trigger] all_data_is_there(n, db)),
        nothing_is_wrong(check_end(check_begin(best), db).report) <==> (forall|n: u32|
            n <= best ==> #[trigger] all_data_is_there(n, db)),
{
    check_passes_exactly_if_all_is_well(best, db);
    assert forall|n: u32| #[trigger] block_sound(n, db) <==> all_data_is_there(n, db) by {
        lemma_sound_is_all_there(n, db);
    }
    assert forall|n: u32| #[trigger] all_data_is_there(n, db) <==> block_sound(n, db) by {
        lemma_sound_is_all_there(n, db);
    }
}

/// Taking in one indexed extrinsic counts it once as indexed, once as one that
/// brought its data or as one that did not, and as missing exactly if there is no
/// data; at most one thing is said against it, and nothing else changes.
pub proof fn one_extrinsic_is_counted_once(
    report: ReportView,
    block: u32,
    at: nat,
    hash: Seq<u8>,
    header: Seq<u8>,
    digest: Option<Seq<u8>>,
)
    ensures
        ({
            let after = with_entry(report, block, at, hash, header, digest);
            let store = says_more_than_is_left(header);
            &&& after.indexed_total == report.indexed_total + 1
            &&& store ==> after.stores == report.stores + 1 && after.renews == report.renews
            &&& !store ==> after.stores == report.stores && after.renews == report.renews + 1
            &&& digest is None ==> after.missing_tx == report.missing_tx + 1
            &&& digest is Some ==> after.missing_tx == report.missing_tx
            &&& after.errors.len() == report.errors.len() <==> (digest is Some && (store
                ==> digest == Some(hash)))
            &&& after.errors.len() <= report.errors.len() + 1
            &&& after.errors.take(report.errors.len() as int) == report.errors
            &&& after.blocks_checked == report.blocks_checked
            &&& after.blocks_with_body == report.blocks_with_body
            &&& after.blocks_with_index == report.blocks_with_index
        }),
{
    store_is_cut_short(header);
    let after = with_entry(report, block, at, hash, header, digest);
    assert(after.errors.take(report.errors.len() as int) =~= report.errors);
}

/// What a report says is what its fields hold, and what a stage says is what it
/// holds.
pub proof fn reports_say_what_they_hold(report: IntegrityReport, stage: CheckStage)
    ensures
        report@.blocks_checked == report.blocks_checked,
        report@.blocks_with_body == report.blocks_with_body,
        report@.blocks_with_index == report.blocks_with_index,
        report@.indexed_total == report.indexed_total,
        report@.stores == report.stores,
        report@.renews == report.renews,
        report@.missing_tx == report.missing_tx,
        report@.errors.len() == report.errors@.len(),
        forall|i: int|
            0 <= i < report.errors@.len() ==> #[trigger] report@.errors[i] == report.errors@[i]@,
        match stage {
            CheckStage::Lookup => stage@ is Lookup,
            CheckStage::Body { lookup_key } => stage@ == (CheckStageView::Body {
                lookup_key: lookup_key@,
            }),
            CheckStage::Index { lookup_key } => stage@ == (CheckStageView::Index {
                lookup_key: lookup_key@,
            }),
            CheckStage::Transaction { entries, at } => stage@ == (CheckStageView::Transaction {
                entries: Seq::new(entries@.len(), |i: int| entries@[i]@),
                at: at as nat,
            }),
            CheckStage::Done => stage@ is Done,
        },
{
    if let CheckStage::Transaction { entries, .. } = stage {
        assert(stage@->entries =~= Seq::new(entries@.len(), |i: int| entries@[i]@));
    }
}

/// A report passes exactly if nothing is said against any block in it.
pub proof fn report_passes_if_nothing_is_said(report: ReportView)
    ensures
        nothing_is_wrong(report) <==> report.errors == Seq::<Seq<char>>::empty(),
{
    if nothing_is_wrong(report) {
        assert(report.errors =~= Seq::empty());
    }
}

} // verus!

//! What a check of the database comes to: which blocks it reports on, and what
//! it means that it finds nothing wrong.

use crate::body_index::{body_index_decoded, stores_data, DbExtrinsicView};
use crate::hashing::database_hash;
use crate::integrity::{
    block_done, check_begin, check_next, digest_of, empty_report, entries_done, first_indexed,
    question_of, unreadable_text, with_entry, CheckStageView, CheckView, ReportView,
};
use crate::lookup::{number_key, BODY, BODY_INDEX, KEY_LOOKUP, TRANSACTION};
use vstd::prelude::*;

verus! {

/// What a database holds, by column and key.
pub type Database = spec_fn(u32, Seq<u8>) -> Option<Seq<u8>>;

/// Whether what a check waits for is there to be asked for.
pub open spec fn in_order(check: CheckView) -> bool {
    match check.stage {
        CheckStageView::Transaction { entries, at } => at < entries.len()
            && entries[at as int] is Indexed,
        _ => true,
    }
}

/// How many kinds of stage can still come for a block.
pub open spec fn stage_rank(stage: CheckStageView) -> nat {
    match stage {
        CheckStageView::Lookup => 4,
        CheckStageView::Body { .. } => 3,
        CheckStageView::Index { .. } => 2,
        CheckStageView::Transaction { .. } => 1,
        CheckStageView::Done => 0,
    }
}

/// How many extrinsics of a block can still come.
pub open spec fn entries_left(stage: CheckStageView) -> int {
    match stage {
        CheckStageView::Transaction { entries, at } => entries.len() - at,
        _ => 0,
    }
}

proof fn lemma_first_indexed(entries: Seq<DbExtrinsicView>, at: nat)
    ensures
        first_indexed(entries, at) >= at,
        first_indexed(entries, at) < entries.len() ==> entries[first_indexed(
            entries,
            at,
        ) as int] is Indexed,
    decreases entries.len() - at,
{
    if at < entries.len() && !(entries[at as int] is Indexed) {
        lemma_first_indexed(entries, at + 1);
    }
}

/// Where a check of `db` ends.
pub open spec fn check_end(check: CheckView, db: Database) -> CheckView
    decreases check.best - check.block, stage_rank(check.stage), entries_left(check.stage),
    via check_ends
{
    match question_of(check) {
        Some((column, key)) => if in_order(check) {
            check_end(check_next(check, db(column, key)), db)
        } else {
            check
        },
        None => check,
    }
}

#[via_fn]
proof fn check_ends(check: CheckView, db: Database) {
    match check.stage {
        CheckStageView::Transaction { entries, at } => {
            lemma_first_indexed(entries, at + 1);
        },
        CheckStageView::Index { lookup_key } => {
            if let Some(raw) = db(BODY_INDEX, lookup_key) {
                if let Ok(entries) = body_index_decoded(raw) {
                    lemma_first_indexed(entries, 0);
                }
            }
        },
        _ => {},
    }
}

/// A report after the indexed extrinsics of a block from `at` on.
pub open spec fn with_entries(
    report: ReportView,
    block: u32,
    entries: Seq<DbExtrinsicView>,
    at: nat,
    db: Database,
) -> ReportView
    decreases entries.len() - at,
{
    if at >= entries.len() {
        report
    } else {
        match entries[at as int] {
            DbExtrinsicView::Indexed { hash, header } => with_entries(
                with_entry(report, block, at, hash, header, digest_of(db(TRANSACTION, hash))),
                block,
                entries,
                at + 1,
                db,
            ),
            DbExtrinsicView::Full(_) => with_entries(report, block, entries, at + 1, db),
        }
    }
}

/// A report after one more block.
pub open spec fn with_block(report: ReportView, block: u32, db: Database) -> ReportView {
    match db(KEY_LOOKUP, number_key(block)) {
        None => report,
        Some(lookup_key) => {
            let found = ReportView {
                blocks_checked: report.blocks_checked + 1,
                blocks_with_body: report.blocks_with_body + if db(BODY, lookup_key) is Some {
                    1nat
                } else {
                    0
                },
                ..report
            };
            match db(BODY_INDEX, lookup_key) {
                None => found,
                Some(raw) => {
                    let indexed = ReportView {
                        blocks_with_index: report.blocks_with_index + 1,
                        ..found
                    };
                    match body_index_decoded(raw) {
                        Ok(entries) => with_entries(indexed, block, entries, 0, db),
                        Err(cause) => ReportView {
                            errors: report.errors.push(unreadable_text(block, cause)),
                            ..indexed
                        },
                    }
                },
            }
        },
    }
}

/// A report after the blocks from `block` to `best`.
pub open spec fn with_blocks(report: ReportView, block: nat, best: u32, db: Database) -> ReportView
    decreases best + 1 - block,
{
    if block > best {
        report
    } else {
        with_blocks(with_block(report, block as u32, db), block + 1, best, db)
    }
}

proof fn lemma_step(check: CheckView, db: Database, column: u32, key: Seq<u8>)
    requires
        question_of(check) == Some((column, key)),
        in_order(check),
    ensures
        check_end(check, db) == check_end(check_next(check, db(column, key)), db),
{
}

proof fn lemma_check_entries(
    check: CheckView,
    entries: Seq<DbExtrinsicView>,
    at: nat,
    db: Database,
)
    ensures
        check_end(entries_done(check, entries, at), db) == check_end(
            block_done(
                CheckView {
                    report: with_entries(check.report, check.block, entries, at, db),
                    ..check
                },
            ),
            db,
        ),
    decreases entries.len() - at,
{
    if at < entries.len() {
        match entries[at as int] {
            DbExtrinsicView::Full(_) => {
                lemma_check_entries(check, entries, at + 1, db);
            },
            DbExtrinsicView::Indexed { hash, header } => {
                let asking = entries_done(check, entries, at);
                let told = CheckView {
                    report: with_entry(
                        check.report,
                        check.block,
                        at,
                        hash,
                        header,
                        digest_of(db(TRANSACTION, hash)),
                    ),
                    ..check
                };
                lemma_step(asking, db, TRANSACTION, hash);
                assert(check_next(asking, db(TRANSACTION, hash)) == entries_done(
                    CheckView { stage: asking.stage, ..told },
                    entries,
                    at + 1,
                ));
                assert(entries_done(CheckView { stage: asking.stage, ..told }, entries, at + 1)
                    == entries_done(told, entries, at + 1));
                lemma_check_entries(told, entries, at + 1, db);
            },
        }
    }
}

proof fn lemma_check_block(check: CheckView, db: Database)
    requires
        check.stage is Lookup,
    ensures
        check_end(check, db) == check_end(
            block_done(
                CheckView { report: with_block(check.report, check.block, db), ..check },
            ),
            db,
        ),
{
    lemma_step(check, db, KEY_LOOKUP, number_key(check.block));
    if let Some(lookup_key) = db(KEY_LOOKUP, number_key(check.block)) {
        let found = check_next(check, Some(lookup_key));
        lemma_step(found, db, BODY, lookup_key);
        let looked = check_next(found, db(BODY, lookup_key));
        lemma_step(looked, db, BODY_INDEX, lookup_key);
        if let Some(raw) = db(BODY_INDEX, lookup_key) {
            if let Ok(entries) = body_index_decoded(raw) {
                let indexed = CheckView {
                    report: ReportView {
                        blocks_with_index: looked.report.blocks_with_index + 1,
                        ..looked.report
                    },
                    ..looked
                };
                lemma_check_entries(indexed, entries, 0, db);
            }
        }
    }
}

proof fn lemma_check_blocks(check: CheckView, db: Database)
    requires
        check.stage is Lookup,
        check.block <= check.best,
    ensures
        check_end(check, db) == (CheckView {
            block: check.best,
            stage: CheckStageView::Done,
            report: with_blocks(check.report, check.block as nat, check.best, db),
            ..check
        }),
    decreases check.best - check.block,
{
    lemma_check_block(check, db);
    let report = with_block(check.report, check.block, db);
    let after = block_done(CheckView { report, ..check });
    if check.block < check.best {
        lemma_check_blocks(after, db);
    } else {
        assert(with_blocks(report, check.block as nat + 1, check.best, db) == report);
        assert(check_end(after, db) == after);
    }
}

/// A check ends, whatever the database holds, and reports on every block up to
/// the best one, in ascending order.
pub proof fn check_reports_on_every_block(best: u32, db: Database)
    ensures
        check_end(check_begin(best), db) == (CheckView {
            best,
            block: best,
            stage: CheckStageView::Done,
            report: with_blocks(empty_report(), 0, best, db),
        }),
{
    lemma_check_blocks(check_begin(best), db);
}

/// Whether all is well with an indexed extrinsic: its data is there, and has the
/// right hash if the extrinsic brought it.
pub open spec fn entry_sound(hash: Seq<u8>, header: Seq<u8>, db: Database) -> bool {
    match db(TRANSACTION, hash) {
        Some(data) => stores_data(header) ==> database_hash(data) == hash,
        None => false,
    }
}

/// Whether all is well with the indexed extrinsics of a block from `at` on.
pub open spec fn entries_sound(entries: Seq<DbExtrinsicView>, at: nat, db: Database) -> bool {
    forall|i: int|
        at <= i < entries.len() ==> match #[trigger] entries[i] {
            DbExtrinsicView::Indexed { hash, header } => entry_sound(hash, header, db),
            DbExtrinsicView::Full(_) => true,
        }
}

/// Whether all is well with a block: the index of its body can be read, if it
/// has one, and all is well with the indexed extrinsics in it.
pub open spec fn block_sound(block: u32, db: Database) -> bool {
    match db(KEY_LOOKUP, number_key(block)) {
        Some(lookup_key) => match db(BODY_INDEX, lookup_key) {
            Some(raw) => match body_index_decoded(raw) {
                Ok(entries) => entries_sound(entries, 0, db),
                Err(_) => false,
            },
            None => true,
        },
        None => true,
    }
}

proof fn lemma_entries_errors(
    report: ReportView,
    block: u32,
    entries: Seq<DbExtrinsicView>,
    at: nat,
    db: Database,
)
    ensures
        with_entries(report, block, entries, at, db).errors.len() >= report.errors.len(),
        with_entries(report, block, entries, at, db).errors.len() == report.errors.len()
            <==> entries_sound(entries, at, db),
    decreases entries.len() - at,
{
    if at < entries.len() {
        match entries[at as int] {
            DbExtrinsicView::Indexed { hash, header } => {
                let next = with_entry(
                    report,
                    block,
                    at,
                    hash,
                    header,
                    digest_of(db(TRANSACTION, hash)),
                );
                lemma_entries_errors(next, block, entries, at + 1, db);
                assert(next.errors.len() == report.errors.len() <==> entry_sound(hash, header, db));
            },
            DbExtrinsicView::Full(_) => {
                lemma_entries_errors(report, block, entries, at + 1, db);
            },
        }
        assert(entries_sound(entries, at, db) <==> entries_sound(entries, at + 1, db) && (
        match entries[at as int] {
            DbExtrinsicView::Indexed { hash, header } => entry_sound(hash, header, db),
            DbExtrinsicView::Full(_) => true,
        }));
    }
}

proof fn lemma_block_errors(report: ReportView, block: u32, db: Database)
    ensures
        with_block(report, block, db).errors.len() >= report.errors.len(),
        with_block(report, block, db).errors.len() == report.errors.len() <==> block_sound(
            block,
            db,
        ),
{
    if let Some(lookup_key) = db(KEY_LOOKUP, number_key(block)) {
        if let Some(raw) = db(BODY_INDEX, lookup_key) {
            if let Ok(entries) = body_index_decoded(raw) {
                let indexed = ReportView {
                    blocks_checked: report.blocks_checked + 1,
                    blocks_with_body: report.blocks_with_body + if db(BODY, lookup_key) is Some {
                        1nat
                    } else {
                        0
                    },
                    blocks_with_index: report.blocks_with_index + 1,
                    ..report
                };
                lemma_entries_errors(indexed, block, entries, 0, db);
            }
        }
    }
}

proof fn lemma_blocks_errors(report: ReportView, block: nat, best: u32, db: Database)
    ensures
        with_blocks(report, block, best, db).errors.len() >= report.errors.len(),
        with_blocks(report, block, best, db).errors.len() == report.errors.len() <==> (forall|
            n: u32,
        |
            block <= n <= best ==> #[trigger] block_sound(n, db)),
    decreases best + 1 - block,
{
    if block <= best {
        let next = with_block(report, block as u32, db);
        lemma_block_errors(report, block as u32, db);
        lemma_blocks_errors(next, block + 1, best, db);
        assert((forall|n: u32| block <= n <= best ==> #[trigger] block_sound(n, db)) <==> (
        block_sound(block as u32, db) && (forall|n: u32|
            block + 1 <= n <= best ==> #[trigger] block_sound(n, db)))) by {
            assert forall|n: u32|
                block_sound(block as u32, db) && (forall|m: u32|
                    block + 1 <= m <= best ==> #[trigger] block_sound(m, db)) && block <= n
                    <= best implies #[trigger] block_sound(n, db) by {
                if n != block {
                    assert(block + 1 <= n);
                }
            }
        }
    }
}

/// A check finds nothing wrong exactly if all is well with every block up to the
/// best one: every index can be read, all data that they name is in the
/// database, and data that came with its extrinsic has the right hash.
pub proof fn check_passes_exactly_if_all_is_well(best: u32, db: Database)
    ensures
        check_end(check_begin(best), db).report.errors.len() == 0 <==> (forall|n: u32|
            n <= best ==> #[trigger] block_sound(n, db)),
{
    check_reports_on_every_block(best, db);
    lemma_blocks_errors(empty_report(), 0, best, db);
    assert((forall|n: u32| 0 <= n <= best ==> #[trigger] block_sound(n, db)) <==> (forall|n: u32|
        n <= best ==> #[trigger] block_sound(n, db)));
}

} // verus!

//! Checking that all data that the indexes of block bodies name is in the
//! database.

use crate::body_index::{
    body_index_decoded, decode_body_index, entry_views, is_store, stores_data, DbExtrinsic,
    DbExtrinsicView,
};
use crate::bytes::{copied, same_hash, ContentHash};
use crate::hashing::{blake2_hasher_256, database_hash};
use crate::lookup::{number_index_key, number_key, BODY, BODY_INDEX, KEY_LOOKUP, TRANSACTION};
use crate::text::{decimal, decimal_text, hex, hex_text, push_line, texts};
use vstd::array::array_as_slice;
use vstd::prelude::*;

verus! {

/// What a check has found.
#[derive(Clone, Debug, PartialEq, Eq)]
pub struct IntegrityReport {
    /// How many blocks have a lookup key.
    pub blocks_checked: u32,
    /// How many of them have a body that is kept as it is.
    pub blocks_with_body: u32,
    /// How many of them have a body that is kept as an index.
    pub blocks_with_index: u32,
    /// How many indexed extrinsics there are.
    pub indexed_total: u32,
    /// How many of them brought their data with them.
    pub stores: u32,
    /// How many of them name data that was there before.
    pub renews: u32,
    /// For how many of them there is no data.
    pub missing_tx: u32,
    /// What is wrong, in the order in which it was found.
    pub errors: Vec<String>,
}

/// What an [`IntegrityReport`] says.
#[verifier::ext_equal]
pub struct ReportView {
    pub blocks_checked: nat,
    pub blocks_with_body: nat,
    pub blocks_with_index: nat,
    pub indexed_total: nat,
    pub stores: nat,
    pub renews: nat,
    pub missing_tx: nat,
    pub errors: Seq<Seq<char>>,
}

impl View for IntegrityReport {
    type V = ReportView;

    open spec fn view(&self) -> ReportView {
        ReportView {
            blocks_checked: self.blocks_checked as nat,
            blocks_with_body: self.blocks_with_body as nat,
            blocks_with_index: self.blocks_with_index as nat,
            indexed_total: self.indexed_total as nat,
            stores: self.stores as nat,
            renews: self.renews as nat,
            missing_tx: self.missing_tx as nat,
            errors: texts(self.errors@),
        }
    }
}

/// A report before anything was checked.
pub open spec fn empty_report() -> ReportView {
    ReportView {
        blocks_checked: 0,
        blocks_with_body: 0,
        blocks_with_index: 0,
        indexed_total: 0,
        stores: 0,
        renews: 0,
        missing_tx: 0,
        errors: Seq::empty(),
    }
}

/// The words for an index that cannot be read.
pub open spec fn unreadable_text(block: u32, cause: Seq<char>) -> Seq<char> {
    "Block #"@ + decimal_text(block as nat) + ": failed to decode BODY_INDEX: "@ + cause
}

/// The words for the kind of an indexed extrinsic.
pub open spec fn kind_text(header: Seq<u8>) -> Seq<char> {
    if stores_data(header) {
        "STORE"@
    } else {
        "RENEW"@
    }
}

/// The words for an indexed extrinsic, in front of what is wrong with it.
pub open spec fn extrinsic_text(block: u32, at: nat, header: Seq<u8>) -> Seq<char> {
    "Block #"@ + decimal_text(block as nat) + " ext["@ + decimal_text(at) + "] "@ + kind_text(
        header,
    )
}

/// The words for data whose hash is not the one under which it is kept.
pub open spec fn mismatch_text(
    block: u32,
    at: nat,
    header: Seq<u8>,
    hash: Seq<u8>,
    computed: Seq<u8>,
) -> Seq<char> {
    extrinsic_text(block, at, header) + ": hash mismatch! expected 0x"@ + hex_text(hash)
        + ", got 0x"@ + hex_text(computed)
}

/// The words for data that is not there.
pub open spec fn missing_text(block: u32, at: nat, header: Seq<u8>, hash: Seq<u8>) -> Seq<char> {
    extrinsic_text(block, at, header) + ": TRANSACTION data MISSING for hash 0x"@ + hex_text(hash)
}

/// What is wrong with an indexed extrinsic for whose hash there is data with the
/// digest `digest`, or none. Only data that the extrinsic brought with it has to
/// have the right hash.
pub open spec fn entry_errors(
    block: u32,
    at: nat,
    hash: Seq<u8>,
    header: Seq<u8>,
    digest: Option<Seq<u8>>,
) -> Seq<Seq<char>> {
    match digest {
        Some(computed) => if stores_data(header) && computed != hash {
            seq![mismatch_text(block, at, header, hash, computed)]
        } else {
            Seq::empty()
        },
        None => seq![missing_text(block, at, header, hash)],
    }
}

/// A report after one more indexed extrinsic.
pub open spec fn with_entry(
    report: ReportView,
    block: u32,
    at: nat,
    hash: Seq<u8>,
    header: Seq<u8>,
    digest: Option<Seq<u8>>,
) -> ReportView {
    ReportView {
        indexed_total: report.indexed_total + 1,
        stores: report.stores + if stores_data(header) {
            1nat
        } else {
            0
        },
        renews: report.renews + if stores_data(header) {
            0
        } else {
            1nat
        },
        missing_tx: report.missing_tx + if digest is None {
            1nat
        } else {
            0
        },
        errors: report.errors + entry_errors(block, at, hash, header, digest),
        ..report
    }
}

/// The digest of data, if there is any.
pub open spec fn digest_of(data: Option<Seq<u8>>) -> Option<Seq<u8>> {
    match data {
        Some(bytes) => Some(database_hash(bytes)),
        None => None,
    }
}

fn counted_line(words: &str, count: u32) -> (line: String)
    ensures
        line@ == words@ + decimal_text(count as nat),
{
    let mut line = words.to_owned();
    line.append(decimal(count as u64).as_str());
    line
}

/// The lines that open a check of the blocks up to `best`.
pub fn opening(best: u32) -> (lines: Vec<String>)
    ensures
        texts(lines@) == opening_lines(best),
{
    let mut lines: Vec<String> = Vec::new();
    push_line(&mut lines, counted_line("Checking blocks 0..=", best));
    push_line(&mut lines, "".to_owned());
    lines
}

fn extrinsic_words(block: u32, at: usize, header: &[u8]) -> (text: String)
    ensures
        text@ == extrinsic_text(block, at as nat, header@),
{
    let mut text = "Block #".to_owned();
    text.append(decimal(block as u64).as_str());
    text.append(" ext[");
    text.append(decimal(at as u64).as_str());
    text.append("] ");
    if is_store(header) {
        text.append("STORE");
    } else {
        text.append("RENEW");
    }
    text
}

impl IntegrityReport {
    /// The parts of the report add up.
    pub open spec fn wf(self) -> bool {
        &&& self.blocks_with_body <= self.blocks_checked
        &&& self.blocks_with_index <= self.blocks_checked
        &&& self.stores + self.renews == self.indexed_total
        &&& self.missing_tx <= self.indexed_total
    }

    /// A report before anything was checked.
    pub fn new() -> (report: Self)
        ensures
            report.wf(),
            report@ == empty_report(),
    {
        let report = IntegrityReport {
            blocks_checked: 0,
            blocks_with_body: 0,
            blocks_with_index: 0,
            indexed_total: 0,
            stores: 0,
            renews: 0,
            missing_tx: 0,
            errors: Vec::new(),
        };
        assert(report@ =~= empty_report());
        report
    }

    fn push_error(&mut self, text: String)
        ensures
            final(self)@ == (ReportView {
                errors: old(self)@.errors.push(text@),
                ..old(self)@
            }),
            final(self).wf() == old(self).wf(),
    {
        push_line(&mut self.errors, text);
    }

    /// Whether nothing is wrong.
    pub fn passed(&self) -> (passed: bool)
        ensures
            passed == nothing_is_wrong(self@),
    {
        self.errors.len() == 0
    }

    /// The lines that close a check.
    pub fn lines(&self) -> (lines: Vec<String>)
        ensures
            texts(lines@) == closing_lines(self@),
    {
        let mut lines: Vec<String> = Vec::new();
        push_line(&mut lines, "Summary:".to_owned());
        push_line(&mut lines, counted_line("  Blocks scanned:     ", self.blocks_checked));
        push_line(&mut lines, counted_line("  Blocks with BODY:   ", self.blocks_with_body));
        push_line(&mut lines, counted_line("  Blocks with INDEX:  ", self.blocks_with_index));
        let mut indexed: String = counted_line("  Indexed extrinsics: ", self.indexed_total);
        indexed.append(" (");
        indexed.append(decimal(self.stores as u64).as_str());
        indexed.append(" store, ");
        indexed.append(decimal(self.renews as u64).as_str());
        indexed.append(" renew)");
        push_line(&mut lines, indexed);
        push_line(&mut lines, counted_line("  Missing tx data:    ", self.missing_tx));
        push_line(&mut lines, "".to_owned());
        if self.errors.len() == 0 {
            push_line(
                &mut lines,
                "✓ All indexed transaction hashes are present in TRANSACTION column".to_owned(),
            );
        } else {
            let mut found = "✗ Found ".to_owned();
            found.append(decimal(self.errors.len() as u64).as_str());
            found.append(" error(s):");
            push_line(&mut lines, found);
            let ghost opened = texts(lines@);
            let mut i: usize = 0;
            while i < self.errors.len()
                invariant
                    i <= self.errors@.len(),
                    texts(lines@) == opened + error_lines(self@.errors.take(i as int)),
                decreases self.errors@.len() - i,
            {
                let mut line = "  ".to_owned();
                line.append(self.errors[i].as_str());
                push_line(&mut lines, line);
                assert(error_lines(self@.errors.take(i + 1)) =~= error_lines(
                    self@.errors.take(i as int),
                ).push("  "@ + self@.errors[i as int]));
                i += 1;
            }
            assert(self@.errors.take(i as int) =~= self@.errors);
        }
        lines
    }

    /// Takes in that the index of a block cannot be read.
    pub fn record_unreadable(&mut self, block: u32, cause: &str)
        ensures
            final(self)@ == (ReportView {
                errors: old(self)@.errors.push(unreadable_text(block, cause@)),
                ..old(self)@
            }),
            final(self).wf() == old(self).wf(),
    {
        let mut text = "Block #".to_owned();
        text.append(decimal(block as u64).as_str());
        text.append(": failed to decode BODY_INDEX: ");
        text.append(cause);
        self.push_error(text);
    }

    /// Takes in an indexed extrinsic; `digest` is the hash of the data that is
    /// kept under `hash`, if there is any.
    pub fn record_entry(
        &mut self,
        block: u32,
        at: usize,
        hash: &ContentHash,
        header: &[u8],
        digest: Option<[u8; 32]>,
    )
        requires
            old(self).wf(),
            old(self).indexed_total < u32::MAX,
        ensures
            final(self).wf(),
            final(self)@ == with_entry(
                old(self)@,
                block,
                at as nat,
                hash@,
                header@,
                match digest {
                    Some(computed) => Some(computed@),
                    None => None,
                },
            ),
    {
        self.indexed_total += 1;
        let store: bool = is_store(header);
        if store {
            self.stores += 1;
        } else {
            self.renews += 1;
        }
        match digest {
            Some(computed) => {
                if store && !same_hash(&computed, hash) {
                    proof {
                        if computed@ == hash@ {
                            assert(computed =~= *hash);
                        }
                    }
                    let mut text: String = extrinsic_words(block, at, header);
                    text.append(": hash mismatch! expected 0x");
                    text.append(hex(array_as_slice(hash)).as_str());
                    text.append(", got 0x");
                    text.append(hex(array_as_slice(&computed)).as_str());
                    self.push_error(text);
                }
            },
            None => {
                self.missing_tx += 1;
                let mut text: String = extrinsic_words(block, at, header);
                text.append(": TRANSACTION data MISSING for hash 0x");
                text.append(hex(array_as_slice(hash)).as_str());
                self.push_error(text);
            },
        }
    }
}

/// Whether a report says nothing against any block.
pub open spec fn nothing_is_wrong(report: ReportView) -> bool {
    report.errors.len() == 0
}

/// The lines that open a check of the blocks up to `best`.
pub open spec fn opening_lines(best: u32) -> Seq<Seq<char>> {
    seq!["Checking blocks 0..="@ + decimal_text(best as nat), ""@]
}

/// The lines that tell what is wrong.
pub open spec fn error_lines(errors: Seq<Seq<char>>) -> Seq<Seq<char>> {
    Seq::new(errors.len(), |i: int| "  "@ + errors[i])
}

/// The lines that close a check.
pub open spec fn closing_lines(report: ReportView) -> Seq<Seq<char>> {
    seq![
        "Summary:"@,
        "  Blocks scanned:     "@ + decimal_text(report.blocks_checked),
        "  Blocks with BODY:   "@ + decimal_text(report.blocks_with_body),
        "  Blocks with INDEX:  "@ + decimal_text(report.blocks_with_index),
        "  Indexed extrinsics: "@ + decimal_text(report.indexed_total) + " ("@ + decimal_text(
            report.stores,
        ) + " store, "@ + decimal_text(report.renews) + " renew)"@,
        "  Missing tx data:    "@ + decimal_text(report.missing_tx),
        ""@,
    ] + if report.errors.len() == 0 {
        seq!["✓ All indexed transaction hashes are present in TRANSACTION column"@]
    } else {
        seq!["✗ Found "@ + decimal_text(report.errors.len()) + " error(s):"@] + error_lines(
            report.errors,
        )
    }
}

/// What a check waits for.
#[derive(Clone, Debug, PartialEq, Eq)]
pub enum CheckStage {
    /// The lookup key of the block.
    Lookup,
    /// The body of the block.
    Body { lookup_key: Vec<u8> },
    /// The index of the body of the block.
    Index { lookup_key: Vec<u8> },
    /// The data of the indexed extrinsic at a position of the index.
    Transaction { entries: Vec<DbExtrinsic>, at: usize },
    /// Nothing any more.
    Done,
}

/// What a [`CheckStage`] says.
#[verifier::ext_equal]
pub enum CheckStageView {
    Lookup,
    Body { lookup_key: Seq<u8> },
    Index { lookup_key: Seq<u8> },
    Transaction { entries: Seq<DbExtrinsicView>, at: nat },
    Done,
}

impl View for CheckStage {
    type V = CheckStageView;

    open spec fn view(&self) -> CheckStageView {
        match self {
            CheckStage::Lookup => CheckStageView::Lookup,
            CheckStage::Body { lookup_key } => CheckStageView::Body { lookup_key: lookup_key@ },
            CheckStage::Index { lookup_key } => CheckStageView::Index { lookup_key: lookup_key@ },
            CheckStage::Transaction { entries, at } => CheckStageView::Transaction {
                entries: entry_views(entries@),
                at: *at as nat,
            },
            CheckStage::Done => CheckStageView::Done,
        }
    }
}

/// Where a check stands.
#[verifier::ext_equal]
pub struct CheckView {
    /// The last block to check.
    pub best: u32,
    /// The block that is being checked.
    pub block: u32,
    /// What the check waits for.
    pub stage: CheckStageView,
    /// What it has found.
    pub report: ReportView,
}

/// The first indexed extrinsic from `at` on, or the end.
pub open spec fn first_indexed(entries: Seq<DbExtrinsicView>, at: nat) -> nat
    decreases entries.len() - at,
{
    if at >= entries.len() || entries[at as int] is Indexed {
        at
    } else {
        first_indexed(entries, at + 1)
    }
}

/// A check of the blocks up to `best` before it began.
pub open spec fn check_begin(best: u32) -> CheckView {
    CheckView { best, block: 0, stage: CheckStageView::Lookup, report: empty_report() }
}

/// A check that is through with its block.
pub open spec fn block_done(check: CheckView) -> CheckView {
    if check.block < check.best {
        CheckView { block: (check.block + 1) as u32, stage: CheckStageView::Lookup, ..check }
    } else {
        CheckView { stage: CheckStageView::Done, ..check }
    }
}

/// A check that is through with the extrinsics of its block before `at`.
pub open spec fn entries_done(
    check: CheckView,
    entries: Seq<DbExtrinsicView>,
    at: nat,
) -> CheckView {
    let next = first_indexed(entries, at);
    if next < entries.len() {
        CheckView { stage: CheckStageView::Transaction { entries, at: next }, ..check }
    } else {
        block_done(check)
    }
}

/// What a check makes of what the database holds under the key that it waits
/// for.
pub open spec fn check_next(check: CheckView, answer: Option<Seq<u8>>) -> CheckView {
    match (check.stage, answer) {
        (CheckStageView::Lookup, Some(lookup_key)) => CheckView {
            stage: CheckStageView::Body { lookup_key },
            report: ReportView {
                blocks_checked: check.report.blocks_checked + 1,
                ..check.report
            },
            ..check
        },
        (CheckStageView::Lookup, None) => block_done(check),
        (CheckStageView::Body { lookup_key }, Some(_)) => CheckView {
            stage: CheckStageView::Index { lookup_key },
            report: ReportView {
                blocks_with_body: check.report.blocks_with_body + 1,
                ..check.report
            },
            ..check
        },
        (CheckStageView::Body { lookup_key }, None) => CheckView {
            stage: CheckStageView::Index { lookup_key },
            ..check
        },
        (CheckStageView::Index { .. }, Some(raw)) => {
            let report = ReportView {
                blocks_with_index: check.report.blocks_with_index + 1,
                ..check.report
            };
            match body_index_decoded(raw) {
                Ok(entries) => entries_done(CheckView { report, ..check }, entries, 0),
                Err(cause) => block_done(
                    CheckView {
                        report: ReportView {
                            errors: report.errors.push(unreadable_text(check.block, cause)),
                            ..report
                        },
                        ..check
                    },
                ),
            }
        },
        (CheckStageView::Index { .. }, None) => block_done(check),
        (CheckStageView::Transaction { entries, at }, data) => match entries[at as int] {
            DbExtrinsicView::Indexed { hash, header } => entries_done(
                CheckView {
                    report: with_entry(
                        check.report,
                        check.block,
                        at,
                        hash,
                        header,
                        digest_of(data),
                    ),
                    ..check
                },
                entries,
                at + 1,
            ),
            DbExtrinsicView::Full(_) => check,
        },
        (CheckStageView::Done, _) => check,
    }
}

/// The column and the key in it that a check waits for.
pub open spec fn question_of(check: CheckView) -> Option<(u32, Seq<u8>)> {
    match check.stage {
        CheckStageView::Lookup => Some((KEY_LOOKUP, number_key(check.block))),
        CheckStageView::Body { lookup_key } => Some((BODY, lookup_key)),
        CheckStageView::Index { lookup_key } => Some((BODY_INDEX, lookup_key)),
        CheckStageView::Transaction { entries, at } => match entries[at as int] {
            DbExtrinsicView::Indexed { hash, .. } => Some((TRANSACTION, hash)),
            DbExtrinsicView::Full(_) => None,
        },
        CheckStageView::Done => None,
    }
}

/// Whether the counts still fit into 32 bits after an answer.
pub open spec fn counts_fit(check: CheckView, answer: Option<Seq<u8>>) -> bool {
    match check.stage {
        CheckStageView::Lookup => answer is Some ==> check.report.blocks_checked < u32::MAX,
        CheckStageView::Transaction { .. } => check.report.indexed_total < u32::MAX,
        _ => true,
    }
}

/// What an answer of the database says.
pub open spec fn answer_view(answer: Option<Vec<u8>>) -> Option<Seq<u8>> {
    match answer {
        Some(bytes) => Some(bytes@),
        None => None,
    }
}

/// A check of all blocks up to the best one. It says what it waits for, and
/// goes on with what the database holds there.
pub struct IntegrityCheck {
    best: u32,
    block: u32,
    stage: CheckStage,
    report: IntegrityReport,
}

impl View for IntegrityCheck {
    type V = CheckView;

    closed spec fn view(&self) -> CheckView {
        CheckView {
            best: self.best,
            block: self.block,
            stage: self.stage@,
            report: self.report@,
        }
    }
}

impl IntegrityCheck {
    /// The parts of the report add up, and what the check waits for is there to
    /// be asked for.
    pub closed spec fn wf(self) -> bool {
        &&& self.report.wf()
        &&& match self.stage {
            CheckStage::Body { .. } => self.report.blocks_with_body < self.report.blocks_checked
                && self.report.blocks_with_index < self.report.blocks_checked,
            CheckStage::Index { .. } => self.report.blocks_with_index < self.report.blocks_checked,
            CheckStage::Transaction { entries, at } => at < entries.len()
                && entries@[at as int] is Indexed,
            _ => true,
        }
    }

    /// A check of the blocks up to `best`.
    pub fn new(best: u32) -> (check: Self)
        ensures
            check.wf(),
            check@ == check_begin(best),
    {
        IntegrityCheck {
            best,
            block: 0,
            stage: CheckStage::Lookup,
            report: IntegrityReport::new(),
        }
    }

    /// The column and the key in it that the check waits for; `None` when it is
    /// through.
    pub fn question(&self) -> (question: Option<(u32, Vec<u8>)>)
        requires
            self.wf(),
        ensures
            match question_of(self@) {
                Some((column, key)) => question matches Some(asked) && asked.0 == column
                    && asked.1@ == key,
                None => question is None,
            },
            question is None <==> self@.stage is Done,
    {
        match &self.stage {
            CheckStage::Lookup => {
                let key: [u8; 4] = number_index_key(self.block);
                Some((KEY_LOOKUP, copied(array_as_slice(&key))))
            },
            CheckStage::Body { lookup_key } => Some((BODY, copied(lookup_key.as_slice()))),
            CheckStage::Index { lookup_key } => Some((BODY_INDEX, copied(lookup_key.as_slice()))),
            CheckStage::Transaction { entries, at } => match &entries[*at] {
                DbExtrinsic::Indexed { hash, .. } => Some(
                    (TRANSACTION, copied(array_as_slice(hash))),
                ),
                DbExtrinsic::Full(_) => None,
            },
            CheckStage::Done => None,
        }
    }

    /// Whether the counts still fit into 32 bits after this answer.
    pub fn can_take(&self, answer: &Option<Vec<u8>>) -> (can: bool)
        ensures
            can == counts_fit(self@, answer_view(*answer)),
    {
        match &self.stage {
            CheckStage::Lookup => answer.is_none() || self.report.blocks_checked < u32::MAX,
            CheckStage::Transaction { .. } => self.report.indexed_total < u32::MAX,
            _ => true,
        }
    }

    fn next_block(&mut self)
        requires
            old(self).report.wf(),
        ensures
            final(self).wf(),
            final(self)@ == block_done(old(self)@),
    {
        if self.block < self.best {
            self.block += 1;
            self.stage = CheckStage::Lookup;
        } else {
            self.stage = CheckStage::Done;
        }
    }

    fn next_entry(&mut self, entries: Vec<DbExtrinsic>, at: usize)
        requires
            old(self).report.wf(),
            at <= entries@.len(),
        ensures
            final(self).wf(),
            final(self)@ == entries_done(old(self)@, entry_views(entries@), at as nat),
    {
        let ghost views = entry_views(entries@);
        let mut next: usize = at;
        while next < entries.len()
            invariant
                next <= entries@.len(),
                views == entry_views(entries@),
                first_indexed(views, at as nat) == first_indexed(views, next as nat),
                old(self).report.wf(),
                *self == *old(self),
            decreases entries@.len() - next,
        {
            match &entries[next] {
                DbExtrinsic::Indexed { .. } => {
                    assert(views[next as int] is Indexed);
                    self.stage = CheckStage::Transaction { entries, at: next };
                    return ;
                },
                DbExtrinsic::Full(_) => {
                    assert(views[next as int] is Full);
                },
            }
            next += 1;
        }
        self.next_block();
    }

    /// Goes on with what the database holds under the key that the check waits
    /// for.
    pub fn take(&mut self, answer: Option<Vec<u8>>)
        requires
            old(self).wf(),
            counts_fit(old(self)@, answer_view(answer)),
        ensures
            final(self).wf(),
            final(self)@ == check_next(old(self)@, answer_view(answer)),
    {
        let mut stage: CheckStage = CheckStage::Done;
        core::mem::swap(&mut stage, &mut self.stage);
        match stage {
            CheckStage::Lookup => match answer {
                Some(lookup_key) => {
                    self.report.blocks_checked += 1;
                    self.stage = CheckStage::Body { lookup_key };
                },
                None => self.next_block(),
            },
            CheckStage::Body { lookup_key } => {
                if answer.is_some() {
                    self.report.blocks_with_body += 1;
                }
                self.stage = CheckStage::Index { lookup_key };
            },
            CheckStage::Index { .. } => match answer {
                Some(raw) => {
                    self.report.blocks_with_index += 1;
                    match decode_body_index(raw.as_slice()) {
                        Ok(entries) => self.next_entry(entries, 0),
                        Err(cause) => {
                            self.report.record_unreadable(self.block, cause.as_str());
                            self.next_block();
                        },
                    }
                },
                None => self.next_block(),
            },
            CheckStage::Transaction { entries, at } => {
                let ghost views = entry_views(entries@);
                match &entries[at] {
                    DbExtrinsic::Indexed { hash, header } => {
                        // Only data that an extrinsic brought with it is hashed.
                        let digest: Option<[u8; 32]> = match &answer {
                            Some(data) => if is_store(header.as_slice()) {
                                Some(blake2_hasher_256(data.as_slice()))
                            } else {
                                Some(*hash)
                            },
                            None => None,
                        };
                        assert(views[at as int] == entries@[at as int]@);
                        self.report.record_entry(self.block, at, hash, header.as_slice(), digest);
                    },
                    DbExtrinsic::Full(_) => {},
                }
                self.next_entry(entries, at + 1);
            },
            CheckStage::Done => {},
        }
    }

    /// What the check has found.
    pub fn report(&self) -> (report: &IntegrityReport)
        requires
            self.wf(),
        ensures
            report@ == self@.report,
            report.wf(),
    {
        &self.report
    }
}

} // verus!

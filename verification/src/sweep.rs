//! The sweep over the retained blocks: which of their indexed transactions go
//! into the database at once, and which are left for later.

use crate::bytes::ContentHash;
use crate::content_map::ContentMap;
use crate::indexed_transactions::{
    content_hashes, database_meta, select_supported, supported_entries, to_database_meta,
    IndexedTransactionInfo, IndexedTransactionMeta,
};
use crate::references::{
    add_references, can_add_references, references_fit, with_references,
};
use vstd::prelude::*;

verus! {

/// The hash of a block.
pub type BlockHash = [u8; 32];

/// How far the node has come with the chain.
#[derive(Clone, Copy, Debug, PartialEq, Eq, Structural)]
pub struct SyncStatus {
    /// Nothing is being downloaded or imported.
    pub idle: bool,
    /// Warp sync is still under way.
    pub warp_sync: bool,
}

/// Whether the runtime can be asked for its indexed transactions, from what it
/// answered; `None` where it could not be asked.
pub open spec fn api_is_there(has_api: Option<bool>) -> bool {
    has_api == Some(true)
}

/// Whether the runtime can be asked for its indexed transactions. `has_api` is
/// what it answered, `None` where it could not be asked.
pub fn runtime_supports_indexing(has_api: Option<bool>) -> (supports: bool)
    ensures
        supports == api_is_there(has_api),
{
    match has_api {
        Some(has) => has,
        None => false,
    }
}

/// Whether the gaps of the chain are closed. `status` is `None` where nobody is
/// left to answer: then there is nothing to wait for.
pub open spec fn sync_settled(status: Option<SyncStatus>) -> bool {
    match status {
        Some(status) => status.idle && !status.warp_sync,
        None => true,
    }
}

/// Whether the gaps of the chain are closed, so that the sweep can start.
/// `status` is `None` where nobody is left to answer.
pub fn gap_sync_complete(status: Option<SyncStatus>) -> (complete: bool)
    ensures
        complete == sync_settled(status),
{
    match status {
        Some(status) => status.idle && !status.warp_sync,
        None => true,
    }
}

/// The blocks to sweep.
#[derive(Clone, Copy, Debug, PartialEq, Eq, Structural)]
pub struct SweepWindow {
    /// For how many blocks content is kept.
    pub retention_period: u64,
    /// The first block to sweep.
    pub start: u64,
    /// The last block to sweep.
    pub finalized: u64,
}

/// The window that ends at the last finalized block and reaches back as far as
/// content or blocks are kept, whichever is longer. A block number that is not
/// known counts as zero; a retention period that is not known is that of the
/// blocks.
pub open spec fn window_of(
    finalized: Option<u64>,
    retention: Option<u64>,
    blocks_pruning: u32,
) -> SweepWindow {
    let last = match finalized {
        Some(number) => number,
        None => 0,
    };
    let kept = match retention {
        Some(period) => period,
        None => blocks_pruning as u64,
    };
    let span = if kept >= blocks_pruning {
        kept as int
    } else {
        blocks_pruning as int
    };
    SweepWindow {
        retention_period: kept,
        start: if last >= span {
            (last - span) as u64
        } else {
            0
        },
        finalized: last,
    }
}

/// The blocks to sweep, from the number of the last finalized block, the
/// retention period, and for how many blocks the node keeps bodies.
pub fn sweep_window(
    finalized_number: Option<u64>,
    retention_period: Option<u64>,
    blocks_pruning: u32,
) -> (window: SweepWindow)
    ensures
        window == window_of(finalized_number, retention_period, blocks_pruning),
        window.start <= window.finalized,
{
    let finalized: u64 = match finalized_number {
        Some(number) => number,
        None => 0,
    };
    let retention_period: u64 = match retention_period {
        Some(period) => period,
        None => blocks_pruning as u64,
    };
    let span: u64 = if retention_period >= blocks_pruning as u64 {
        retention_period
    } else {
        blocks_pruning as u64
    };
    SweepWindow { retention_period, start: finalized.saturating_sub(span), finalized }
}

/// What the sweep waits for.
#[derive(Clone, Debug, PartialEq, Eq)]
pub enum SweepStage {
    /// The hash of a block.
    Hash { number: u64 },
    /// The transactions that the runtime indexed in a block; the runtime knows
    /// the block by a number of 32 bits.
    Meta { number: u64, block: BlockHash, runtime_number: u32 },
    /// Word whether the body of a block is here.
    Body { number: u64, block: BlockHash, supported: Vec<IndexedTransactionInfo> },
    /// The database to commit the index of a block.
    Commit { number: u64, block: BlockHash, meta: Vec<IndexedTransactionMeta> },
    /// Nothing any more.
    Done,
}

/// What a [`SweepStage`] says.
#[verifier::ext_equal]
pub enum SweepStageView {
    Hash { number: u64 },
    Meta { number: u64, block: BlockHash, runtime_number: u32 },
    Body { number: u64, block: BlockHash, supported: Seq<IndexedTransactionInfo> },
    Commit { number: u64, block: BlockHash, meta: Seq<IndexedTransactionMeta> },
    Done,
}

impl View for SweepStage {
    type V = SweepStageView;

    open spec fn view(&self) -> SweepStageView {
        match self {
            SweepStage::Hash { number } => SweepStageView::Hash { number: *number },
            SweepStage::Meta { number, block, runtime_number } => SweepStageView::Meta {
                number: *number,
                block: *block,
                runtime_number: *runtime_number,
            },
            SweepStage::Body { number, block, supported } => SweepStageView::Body {
                number: *number,
                block: *block,
                supported: supported@,
            },
            SweepStage::Commit { number, block, meta } => SweepStageView::Commit {
                number: *number,
                block: *block,
                meta: meta@,
            },
            SweepStage::Done => SweepStageView::Done,
        }
    }
}

/// An answer to what the sweep waits for; `None` where there is nothing, or
/// where it could not be found out.
#[derive(Clone, Debug, PartialEq, Eq)]
pub enum SweepReply {
    /// The hash of the block.
    Hash(Option<BlockHash>),
    /// The transactions that the runtime indexed in the block.
    Meta(Option<Vec<IndexedTransactionInfo>>),
    /// Whether the body of the block is here.
    Body(Option<bool>),
    /// The content hashes of the entries whose data the database did not find
    /// in the body.
    Committed(Option<Vec<ContentHash>>),
}

/// What a [`SweepReply`] says.
#[verifier::ext_equal]
pub enum SweepReplyView {
    Hash(Option<BlockHash>),
    Meta(Option<Seq<IndexedTransactionInfo>>),
    Body(Option<bool>),
    Committed(Option<Seq<ContentHash>>),
}

impl View for SweepReply {
    type V = SweepReplyView;

    open spec fn view(&self) -> SweepReplyView {
        match self {
            SweepReply::Hash(block) => SweepReplyView::Hash(*block),
            SweepReply::Meta(Some(meta)) => SweepReplyView::Meta(Some(meta@)),
            SweepReply::Meta(None) => SweepReplyView::Meta(None),
            SweepReply::Body(present) => SweepReplyView::Body(*present),
            SweepReply::Committed(Some(missing)) => SweepReplyView::Committed(Some(missing@)),
            SweepReply::Committed(None) => SweepReplyView::Committed(None),
        }
    }
}

/// Where a sweep stands.
#[verifier::ext_equal]
pub struct SweepView {
    /// What it waits for.
    pub stage: SweepStageView,
    /// The last block to sweep.
    pub finalized: u64,
    /// How many references to each content hash are left for later.
    pub pending: Map<ContentHash, u32>,
    /// What is known of each content hash.
    pub known: Map<ContentHash, IndexedTransactionInfo>,
}

/// `known` after `entries`: of several entries with one content hash the first
/// counts.
pub open spec fn with_entries(
    known: Map<ContentHash, IndexedTransactionInfo>,
    entries: Seq<IndexedTransactionInfo>,
) -> Map<ContentHash, IndexedTransactionInfo>
    decreases entries.len(),
{
    if entries.len() == 0 {
        known
    } else {
        let before = with_entries(known, entries.drop_last());
        let entry = entries.last();
        if before.contains_key(entry.content_hash) {
            before
        } else {
            before.insert(entry.content_hash, entry)
        }
    }
}

/// A sweep of the blocks from `start` to `finalized` before it began.
pub open spec fn sweep_begin(start: u64, finalized: u64) -> SweepView {
    SweepView {
        stage: if start <= finalized {
            SweepStageView::Hash { number: start }
        } else {
            SweepStageView::Done
        },
        finalized,
        pending: Map::empty(),
        known: Map::empty(),
    }
}

/// What a sweep waits for when it is through with block `number`.
pub open spec fn stage_after(number: u64, finalized: u64) -> SweepStageView {
    if number < finalized {
        SweepStageView::Hash { number: (number + 1) as u64 }
    } else {
        SweepStageView::Done
    }
}

/// What a sweep makes of a reply. One that it does not wait for changes
/// nothing.
pub open spec fn sweep_next(sweep: SweepView, reply: SweepReplyView) -> SweepView {
    match (sweep.stage, reply) {
        (SweepStageView::Hash { number }, SweepReplyView::Hash(Some(block))) => SweepView {
            stage: SweepStageView::Meta {
                number,
                block,
                runtime_number: (number % 0x1_0000_0000) as u32,
            },
            ..sweep
        },
        (SweepStageView::Hash { number }, SweepReplyView::Hash(None)) => SweepView {
            stage: stage_after(number, sweep.finalized),
            ..sweep
        },
        (
            SweepStageView::Meta { number, block, .. },
            SweepReplyView::Meta(Some(meta)),
        ) => if meta.len() == 0 {
            SweepView { stage: stage_after(number, sweep.finalized), ..sweep }
        } else {
            SweepView {
                stage: SweepStageView::Body { number, block, supported: supported_entries(meta) },
                known: with_entries(sweep.known, supported_entries(meta)),
                ..sweep
            }
        },
        (SweepStageView::Meta { number, .. }, SweepReplyView::Meta(None)) => SweepView {
            stage: stage_after(number, sweep.finalized),
            ..sweep
        },
        (
            SweepStageView::Body { number, block, supported },
            SweepReplyView::Body(Some(true)),
        ) => if supported.len() == 0 {
            SweepView { stage: stage_after(number, sweep.finalized), ..sweep }
        } else {
            SweepView {
                stage: SweepStageView::Commit { number, block, meta: database_meta(supported) },
                ..sweep
            }
        },
        (
            SweepStageView::Body { number, supported, .. },
            SweepReplyView::Body(Some(false)),
        ) => SweepView {
            stage: stage_after(number, sweep.finalized),
            pending: with_references(sweep.pending, content_hashes(supported)),
            ..sweep
        },
        (SweepStageView::Body { number, .. }, SweepReplyView::Body(None)) => SweepView {
            stage: stage_after(number, sweep.finalized),
            ..sweep
        },
        (
            SweepStageView::Commit { number, .. },
            SweepReplyView::Committed(Some(missing)),
        ) => SweepView {
            stage: stage_after(number, sweep.finalized),
            pending: with_references(sweep.pending, missing),
            ..sweep
        },
        (SweepStageView::Commit { number, .. }, SweepReplyView::Committed(None)) => SweepView {
            stage: stage_after(number, sweep.finalized),
            ..sweep
        },
        _ => sweep,
    }
}

/// The content hashes that a reply leaves for later.
pub open spec fn left_for_later(sweep: SweepView, reply: SweepReplyView) -> Seq<ContentHash> {
    match (sweep.stage, reply) {
        (
            SweepStageView::Body { supported, .. },
            SweepReplyView::Body(Some(false)),
        ) => content_hashes(supported),
        (SweepStageView::Commit { .. }, SweepReplyView::Committed(Some(missing))) => missing,
        _ => Seq::empty(),
    }
}

fn note_entries(
    known: &mut ContentMap<IndexedTransactionInfo>,
    entries: &[IndexedTransactionInfo],
)
    requires
        old(known).wf(),
    ensures
        final(known).wf(),
        final(known)@ == with_entries(old(known)@, entries@),
{
    let ghost before = known@;
    let mut i: usize = 0;
    assert(entries@.take(0) =~= Seq::empty());
    while i < entries.len()
        invariant
            i <= entries@.len(),
            known.wf(),
            known@ == with_entries(before, entries@.take(i as int)),
        decreases entries@.len() - i,
    {
        let entry: IndexedTransactionInfo = entries[i];
        assert(entries@.take(i + 1).drop_last() =~= entries@.take(i as int));
        if known.get(&entry.content_hash).is_none() {
            known.insert(entry.content_hash, entry);
        }
        i += 1;
    }
    assert(entries@.take(i as int) =~= entries@);
}

fn hashes_of(entries: &[IndexedTransactionInfo]) -> (hashes: Vec<ContentHash>)
    ensures
        hashes@ == content_hashes(entries@),
{
    let mut hashes: Vec<ContentHash> = Vec::new();
    let mut i: usize = 0;
    while i < entries.len()
        invariant
            i <= entries@.len(),
            hashes@ == content_hashes(entries@.take(i as int)),
        decreases entries@.len() - i,
    {
        hashes.push(entries[i].content_hash);
        i += 1;
        assert(content_hashes(entries@.take(i as int)) =~= content_hashes(
            entries@.take(i - 1),
        ).push(entries@[i - 1].content_hash));
    }
    assert(entries@.take(i as int) =~= entries@);
    hashes
}

/// A sweep over the retained blocks. It says what it waits for, and goes on
/// with each reply.
pub struct CommitSweep {
    stage: SweepStage,
    finalized: u64,
    pending: ContentMap<u32>,
    known: ContentMap<IndexedTransactionInfo>,
}

impl View for CommitSweep {
    type V = SweepView;

    closed spec fn view(&self) -> SweepView {
        SweepView {
            stage: self.stage@,
            finalized: self.finalized,
            pending: self.pending@,
            known: self.known@,
        }
    }
}

impl CommitSweep {
    /// Whether the sweep is in order.
    pub closed spec fn wf(self) -> bool {
        self.pending.wf() && self.known.wf()
    }

    /// A sweep of the blocks from `window_start` to `finalized_number`.
    pub fn new(window_start: u64, finalized_number: u64) -> (sweep: Self)
        ensures
            sweep.wf(),
            sweep@ == sweep_begin(window_start, finalized_number),
    {
        let stage: SweepStage = if window_start <= finalized_number {
            SweepStage::Hash { number: window_start }
        } else {
            SweepStage::Done
        };
        CommitSweep {
            stage,
            finalized: finalized_number,
            pending: ContentMap::new(),
            known: ContentMap::new(),
        }
    }

    /// What the sweep waits for.
    pub fn stage(&self) -> (stage: &SweepStage)
        ensures
            stage@ == self@.stage,
    {
        &self.stage
    }

    /// Whether the counts still fit into 32 bits after this reply.
    pub fn can_take(&self, reply: &SweepReply) -> (can: bool)
        requires
            self.wf(),
        ensures
            can == references_fit(self@.pending, left_for_later(self@, reply@)),
    {
        match (&self.stage, reply) {
            (SweepStage::Body { supported, .. }, SweepReply::Body(Some(false))) => {
                let hashes: Vec<ContentHash> = hashes_of(supported.as_slice());
                can_add_references(&self.pending, hashes.as_slice())
            },
            (SweepStage::Commit { .. }, SweepReply::Committed(Some(missing))) => can_add_references(
                &self.pending,
                missing.as_slice(),
            ),
            _ => true,
        }
    }

    fn next_block(&mut self, number: u64)
        requires
            old(self).wf(),
        ensures
            final(self).wf(),
            final(self)@ == (SweepView {
                stage: stage_after(number, old(self)@.finalized),
                ..old(self)@
            }),
    {
        if number < self.finalized {
            self.stage = SweepStage::Hash { number: number + 1 };
        } else {
            self.stage = SweepStage::Done;
        }
    }

    /// Goes on with a reply. One that the sweep does not wait for changes
    /// nothing.
    pub fn take(&mut self, reply: SweepReply)
        requires
            old(self).wf(),
            references_fit(old(self)@.pending, left_for_later(old(self)@, reply@)),
        ensures
            final(self).wf(),
            final(self)@ == sweep_next(old(self)@, reply@),
    {
        let mut stage: SweepStage = SweepStage::Done;
        core::mem::swap(&mut stage, &mut self.stage);
        match (stage, reply) {
            (SweepStage::Hash { number }, SweepReply::Hash(Some(block))) => {
                let runtime_number: u32 = (number % 0x1_0000_0000) as u32;
                self.stage = SweepStage::Meta { number, block, runtime_number };
            },
            (SweepStage::Hash { number }, SweepReply::Hash(None)) => self.next_block(number),
            (SweepStage::Meta { number, block, .. }, SweepReply::Meta(Some(meta))) => {
                if meta.len() == 0 {
                    self.next_block(number);
                } else {
                    let supported: Vec<IndexedTransactionInfo> = select_supported(meta.as_slice());
                    note_entries(&mut self.known, supported.as_slice());
                    self.stage = SweepStage::Body { number, block, supported };
                }
            },
            (SweepStage::Meta { number, .. }, SweepReply::Meta(None)) => self.next_block(number),
            (SweepStage::Body { number, block, supported }, SweepReply::Body(Some(true))) => {
                if supported.len() == 0 {
                    self.next_block(number);
                } else {
                    let meta: Vec<IndexedTransactionMeta> = to_database_meta(supported.as_slice());
                    self.stage = SweepStage::Commit { number, block, meta };
                }
            },
            (SweepStage::Body { number, supported, .. }, SweepReply::Body(Some(false))) => {
                let hashes: Vec<ContentHash> = hashes_of(supported.as_slice());
                add_references(&mut self.pending, hashes.as_slice());
                self.next_block(number);
            },
            (SweepStage::Body { number, .. }, SweepReply::Body(None)) => self.next_block(number),
            (SweepStage::Commit { number, .. }, SweepReply::Committed(Some(missing))) => {
                add_references(&mut self.pending, missing.as_slice());
                self.next_block(number);
            },
            (SweepStage::Commit { number, .. }, SweepReply::Committed(None)) => self.next_block(
                number,
            ),
            (stage, _) => {
                self.stage = stage;
            },
        }
    }

    /// How many references to each content hash are left for later, and what is
    /// known of each.
    pub fn into_parts(self) -> (parts: (ContentMap<u32>, ContentMap<IndexedTransactionInfo>))
        requires
            self.wf(),
        ensures
            parts.0.wf(),
            parts.1.wf(),
            parts.0@ == self@.pending,
            parts.1@ == self@.known,
    {
        (self.pending, self.known)
    }
}

} // verus!

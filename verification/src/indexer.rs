//! The task that brings the index of a node up to date once, from waiting for
//! the chain to be complete to the last write.

use crate::bytes::ContentHash;
use crate::content_map::{hashes_differ, no_hash_occurs_twice, pairs_as_map, ContentMap};
use crate::indexed_transactions::IndexedTransactionInfo;
use crate::references::references_fit;
use crate::resolve::{
    resolve_from, resolve_next, ResolvePending, ResolveReply, ResolveReplyView, ResolveStage,
    ResolveView,
};
use crate::sweep::{
    gap_sync_complete, left_for_later, sweep_begin, sweep_next, sweep_window, sync_settled,
    window_of, CommitSweep, SweepReply, SweepReplyView, SweepStage, SweepStageView, SweepView,
    SweepWindow, SyncStatus,
};
use vstd::prelude::*;

verus! {

/// How many seconds pass between two questions after the state of the sync.
pub const GAP_SYNC_POLL_INTERVAL_SECS: u64 = 1;

/// What the task waits for.
pub enum IndexerStage {
    /// The state of the sync.
    Sync,
    /// The number of the last finalized block and the retention period.
    Head,
    /// What the sweep over the blocks waits for.
    Sweep(CommitSweep),
    /// What making up for the references that were left waits for.
    Resolve(ResolvePending),
    /// Nothing any more.
    Done,
}

/// What an [`IndexerStage`] says.
#[verifier::ext_equal]
pub enum IndexerView {
    Sync,
    Head,
    Sweep(SweepView),
    Resolve(ResolveView),
    Done,
}

impl View for IndexerStage {
    type V = IndexerView;

    open spec fn view(&self) -> IndexerView {
        match self {
            IndexerStage::Sync => IndexerView::Sync,
            IndexerStage::Head => IndexerView::Head,
            IndexerStage::Sweep(sweep) => IndexerView::Sweep(sweep@),
            IndexerStage::Resolve(work) => IndexerView::Resolve(work@),
            IndexerStage::Done => IndexerView::Done,
        }
    }
}

/// An answer to what the task waits for; `None` where it could not be found
/// out.
pub enum IndexerReply {
    Sync(Option<SyncStatus>),
    Head { finalized_number: Option<u64>, retention_period: Option<u64> },
    Sweep(SweepReply),
    Resolve(ResolveReply),
}

/// What an [`IndexerReply`] says.
#[verifier::ext_equal]
pub enum IndexerReplyView {
    Sync(Option<SyncStatus>),
    Head { finalized_number: Option<u64>, retention_period: Option<u64> },
    Sweep(SweepReplyView),
    Resolve(ResolveReplyView),
}

impl View for IndexerReply {
    type V = IndexerReplyView;

    open spec fn view(&self) -> IndexerReplyView {
        match self {
            IndexerReply::Sync(status) => IndexerReplyView::Sync(*status),
            IndexerReply::Head { finalized_number, retention_period } => IndexerReplyView::Head {
                finalized_number: *finalized_number,
                retention_period: *retention_period,
            },
            IndexerReply::Sweep(reply) => IndexerReplyView::Sweep(reply@),
            IndexerReply::Resolve(reply) => IndexerReplyView::Resolve(reply@),
        }
    }
}

/// The task when the references that were left are being made up for, or when
/// none is left.
pub open spec fn resolving(work: ResolveView) -> IndexerView {
    if work.stage is Done {
        IndexerView::Done
    } else {
        IndexerView::Resolve(work)
    }
}

/// Whether `after` is the task right behind the sweep that ended as `sweep`:
/// what the sweep left is made up for, in any order.
pub open spec fn behind_sweep(sweep: SweepView, after: IndexerView) -> bool {
    exists|pending: Seq<(ContentHash, u32)>|
        {
            &&& hashes_differ(pending)
            &&& pairs_as_map(pending) == sweep.pending
            &&& after == resolving(#[trigger] resolve_from(pending, sweep.known, 0))
        }
}

/// Whether the task goes from `before` to `after` with a reply. One that it does
/// not wait for changes nothing.
pub open spec fn indexer_step(
    before: IndexerView,
    blocks_pruning: u32,
    reply: IndexerReplyView,
    after: IndexerView,
) -> bool {
    match (before, reply) {
        (IndexerView::Sync, IndexerReplyView::Sync(status)) => after == if sync_settled(status) {
            IndexerView::Head
        } else {
            IndexerView::Sync
        },
        (
            IndexerView::Head,
            IndexerReplyView::Head { finalized_number, retention_period },
        ) => {
            let window = window_of(finalized_number, retention_period, blocks_pruning);
            after == IndexerView::Sweep(sweep_begin(window.start, window.finalized))
        },
        (IndexerView::Sweep(sweep), IndexerReplyView::Sweep(reply)) => {
            let next = sweep_next(sweep, reply);
            if next.stage is Done {
                behind_sweep(next, after)
            } else {
                after == IndexerView::Sweep(next)
            }
        },
        (IndexerView::Resolve(work), IndexerReplyView::Resolve(reply)) => after == resolving(
            resolve_next(work, reply),
        ),
        _ => after == before,
    }
}

/// Whether the counts of what is left for later still fit into 32 bits after a
/// reply.
pub open spec fn reply_fits(before: IndexerView, reply: IndexerReplyView) -> bool {
    match (before, reply) {
        (IndexerView::Sweep(sweep), IndexerReplyView::Sweep(reply)) => references_fit(
            sweep.pending,
            left_for_later(sweep, reply),
        ),
        _ => true,
    }
}

/// The task that brings the index of a node up to date once. It says what it
/// waits for, and goes on with each reply.
pub struct Indexer {
    blocks_pruning: u32,
    stage: IndexerStage,
}

impl View for Indexer {
    type V = IndexerView;

    closed spec fn view(&self) -> IndexerView {
        self.stage@
    }
}

impl Indexer {
    /// For how many blocks the node keeps bodies.
    pub closed spec fn pruning(self) -> u32 {
        self.blocks_pruning
    }

    /// Whether the task is in order.
    pub closed spec fn wf(self) -> bool {
        match self.stage {
            IndexerStage::Sweep(sweep) => sweep.wf(),
            IndexerStage::Resolve(work) => work.wf(),
            _ => true,
        }
    }

    /// The task for a node that keeps bodies for `blocks_pruning` blocks.
    pub fn new(blocks_pruning: u32) -> (task: Self)
        ensures
            task.wf(),
            task.pruning() == blocks_pruning,
            task@ == IndexerView::Sync,
    {
        Indexer { blocks_pruning, stage: IndexerStage::Sync }
    }

    /// What the task waits for.
    pub fn stage(&self) -> (stage: &IndexerStage)
        ensures
            stage@ == self@,
    {
        &self.stage
    }

    /// Whether the counts still fit into 32 bits after this reply.
    pub fn can_take(&self, reply: &IndexerReply) -> (can: bool)
        requires
            self.wf(),
        ensures
            can == reply_fits(self@, reply@),
    {
        match (&self.stage, reply) {
            (IndexerStage::Sweep(sweep), IndexerReply::Sweep(reply)) => sweep.can_take(reply),
            _ => true,
        }
    }

    /// Goes on with a reply. One that the task does not wait for changes nothing.
    pub fn take(&mut self, reply: IndexerReply)
        requires
            old(self).wf(),
            reply_fits(old(self)@, reply@),
        ensures
            final(self).wf(),
            final(self).pruning() == old(self).pruning(),
            indexer_step(old(self)@, old(self).pruning(), reply@, final(self)@),
    {
        let mut stage: IndexerStage = IndexerStage::Done;
        core::mem::swap(&mut stage, &mut self.stage);
        match (stage, reply) {
            (IndexerStage::Sync, IndexerReply::Sync(status)) => {
                if gap_sync_complete(status) {
                    self.stage = IndexerStage::Head;
                } else {
                    self.stage = IndexerStage::Sync;
                }
            },
            (IndexerStage::Head, IndexerReply::Head { finalized_number, retention_period }) => {
                let window: SweepWindow = sweep_window(
                    finalized_number,
                    retention_period,
                    self.blocks_pruning,
                );
                self.stage = IndexerStage::Sweep(CommitSweep::new(window.start, window.finalized));
            },
            (IndexerStage::Sweep(sweep), IndexerReply::Sweep(reply)) => {
                let mut sweep = sweep;
                sweep.take(reply);
                let done: bool = match sweep.stage() {
                    SweepStage::Done => true,
                    _ => false,
                };
                if done {
                    let (pending, known): (
                        ContentMap<u32>,
                        ContentMap<IndexedTransactionInfo>,
                    ) = sweep.into_parts();
                    proof {
                        no_hash_occurs_twice(pending);
                    }
                    let work: ResolvePending = ResolvePending::new(pending, known);
                    self.resolve(work);
                } else {
                    self.stage = IndexerStage::Sweep(sweep);
                }
            },
            (IndexerStage::Resolve(work), IndexerReply::Resolve(reply)) => {
                let mut work = work;
                work.take(reply);
                self.resolve(work);
            },
            (stage, _) => {
                self.stage = stage;
            },
        }
    }

    fn resolve(&mut self, work: ResolvePending)
        requires
            work.wf(),
        ensures
            final(self).wf(),
            final(self).pruning() == old(self).pruning(),
            final(self)@ == resolving(work@),
    {
        let done: bool = match work.stage() {
            ResolveStage::Done => true,
            _ => false,
        };
        if done {
            self.stage = IndexerStage::Done;
        } else {
            self.stage = IndexerStage::Resolve(work);
        }
    }
}

/// The task goes on to the sweep only when the sync is idle and no warp sync is
/// under way, or when nobody is left to say so; else it keeps waiting.
pub proof fn task_waits_for_the_sync(
    blocks_pruning: u32,
    status: Option<SyncStatus>,
    after: IndexerView,
)
    requires
        indexer_step(IndexerView::Sync, blocks_pruning, IndexerReplyView::Sync(status), after),
    ensures
        after == IndexerView::Head || after == IndexerView::Sync,
        after == IndexerView::Head <==> (status matches Some(said) ==> said.idle
            && !said.warp_sync),
{
}

/// The sweep ends at the last finalized block and starts at its front with
/// nothing noted. It reaches back by the retention period or by the number of
/// blocks that are kept, whichever is more.
pub proof fn task_sweeps_its_window(
    blocks_pruning: u32,
    finalized: u64,
    retention: u64,
    after: IndexerView,
)
    requires
        indexer_step(
            IndexerView::Head,
            blocks_pruning,
            IndexerReplyView::Head {
                finalized_number: Some(finalized),
                retention_period: Some(retention),
            },
            after,
        ),
    ensures
        after matches IndexerView::Sweep(sweep) && {
            &&& sweep.finalized == finalized
            &&& sweep.pending.dom().is_empty()
            &&& sweep.known.dom().is_empty()
            &&& sweep.stage matches SweepStageView::Hash { number } && {
                &&& number <= finalized
                &&& number > 0 ==> finalized - number == retention || finalized - number
                    == blocks_pruning
                &&& finalized - number <= retention || finalized - number <= blocks_pruning
                &&& number > 0 ==> finalized - number >= retention && finalized - number
                    >= blocks_pruning
            }
        },
{
}

/// A reply that the task does not wait for changes nothing, and none is waited for
/// when it is done.
pub proof fn other_replies_change_nothing(
    before: IndexerView,
    blocks_pruning: u32,
    reply: IndexerReplyView,
    after: IndexerView,
)
    requires
        indexer_step(before, blocks_pruning, reply, after),
        match reply {
            IndexerReplyView::Sync(_) => !(before is Sync),
            IndexerReplyView::Head { .. } => !(before is Head),
            IndexerReplyView::Sweep(_) => !(before is Sweep),
            IndexerReplyView::Resolve(_) => !(before is Resolve),
        },
    ensures
        after == before,
{
}

/// While the sweep waits for anything it goes on; when it is done, what it left is
/// made up for, every hash once, in full and with what was noted, unless there is
/// nothing to make up for.
pub proof fn task_makes_up_for_what_the_sweep_left(
    sweep: SweepView,
    blocks_pruning: u32,
    reply: SweepReplyView,
    after: IndexerView,
)
    requires
        indexer_step(
            IndexerView::Sweep(sweep),
            blocks_pruning,
            IndexerReplyView::Sweep(reply),
            after,
        ),
    ensures
        ({
            let next = sweep_next(sweep, reply);
            &&& !(next.stage is Done) ==> after == IndexerView::Sweep(next)
            &&& next.stage is Done ==> after is Resolve || after is Done
            &&& next.stage is Done ==> (after matches IndexerView::Resolve(work) ==> {
                &&& work.known == next.known
                &&& hashes_differ(work.pending)
                &&& pairs_as_map(work.pending) == next.pending
                &&& !(work.stage is Done)
            })
        }),
{
}

/// The task is done when all that was left has been made up for, and not before.
pub proof fn task_ends_with_the_last_write(
    work: ResolveView,
    blocks_pruning: u32,
    reply: ResolveReplyView,
    after: IndexerView,
)
    requires
        indexer_step(
            IndexerView::Resolve(work),
            blocks_pruning,
            IndexerReplyView::Resolve(reply),
            after,
        ),
    ensures
        ({
            let next = resolve_next(work, reply);
            &&& next.stage is Done ==> after is Done
            &&& !(next.stage is Done) ==> after == IndexerView::Resolve(next)
        }),
{
}

/// What a stage and a reply say is what they hold.
pub proof fn stages_and_replies_say_what_they_hold(stage: IndexerStage, reply: IndexerReply)
    ensures
        match stage {
            IndexerStage::Sync => stage@ is Sync,
            IndexerStage::Head => stage@ is Head,
            IndexerStage::Sweep(sweep) => stage@ == IndexerView::Sweep(sweep@),
            IndexerStage::Resolve(work) => stage@ == IndexerView::Resolve(work@),
            IndexerStage::Done => stage@ is Done,
        },
        match reply {
            IndexerReply::Sync(status) => reply@ == IndexerReplyView::Sync(status),
            IndexerReply::Head { finalized_number, retention_period } => reply@ == (
            IndexerReplyView::Head { finalized_number, retention_period }),
            IndexerReply::Sweep(reply_to) => reply@ == IndexerReplyView::Sweep(reply_to@),
            IndexerReply::Resolve(reply_to) => reply@ == IndexerReplyView::Resolve(reply_to@),
        },
{
}

} // verus!

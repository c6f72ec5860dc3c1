//! What the whole task comes to: that it ends, what it asks the database for on
//! the way, and that every reference is counted then.

use crate::bytes::ContentHash;
use crate::content_map::{hashes_differ, pairs_as_map};
use crate::indexer::{behind_sweep, indexer_step, resolving, IndexerReplyView, IndexerView};
use crate::ledger::{
    block_facts, chain_reply, commits, counted_at_once, counters_match_the_index, deferred_from,
    every_reference_is_counted, lemma_one_reply, replies_left, sweep_end, sweep_moves_on,
    times_bodyless, times_indexed, Chain,
};
use crate::references::references_fit;
use crate::resolve::{
    references_written, reply_from, resolvable, resolve_from, resolve_moves_on, resolve_next,
    work_left, writes, Answers, ResolveStageView, ResolveView,
};
use crate::sweep::{
    sweep_begin, sweep_next, sync_settled, window_of, SweepStageView, SweepView, SweepWindow,
    SyncStatus,
};
use vstd::prelude::*;

verus! {

/// What the task finds around it.
pub struct Surroundings {
    /// The state of the sync, by the number of replies before it is asked for.
    pub sync: spec_fn(nat) -> Option<SyncStatus>,
    /// The number of the last finalized block.
    pub finalized_number: Option<u64>,
    /// The retention period.
    pub retention_period: Option<u64>,
    /// The blocks.
    pub chain: Chain,
    /// What the database and the peers answer.
    pub answers: Answers,
}

/// What the task is answered in `state`, after `at` replies.
pub open spec fn reply_around(
    state: IndexerView,
    at: nat,
    around: Surroundings,
) -> IndexerReplyView {
    match state {
        IndexerView::Sync => IndexerReplyView::Sync((around.sync)(at)),
        IndexerView::Head => IndexerReplyView::Head {
            finalized_number: around.finalized_number,
            retention_period: around.retention_period,
        },
        IndexerView::Sweep(sweep) => IndexerReplyView::Sweep(
            chain_reply(sweep.stage, around.chain),
        ),
        IndexerView::Resolve(work) => IndexerReplyView::Resolve(
            reply_from(work.stage, around.answers),
        ),
        IndexerView::Done => IndexerReplyView::Sync(None),
    }
}

/// The states of the task, by the number of replies that it has had.
pub type Course = spec_fn(nat) -> IndexerView;

/// Whether the task goes on as it must with the reply after `at` others.
pub open spec fn goes_on(
    course: Course,
    blocks_pruning: u32,
    around: Surroundings,
    at: nat,
) -> bool {
    indexer_step(
        course(at),
        blocks_pruning,
        reply_around(course(at), at, around),
        course(at + 1),
    )
}

/// Whether the task can take this course, from its start.
pub open spec fn is_course(course: Course, blocks_pruning: u32, around: Surroundings) -> bool {
    &&& course(0) == IndexerView::Sync
    &&& forall|at: nat| #[trigger] goes_on(course, blocks_pruning, around, at)
}

/// What the task asks the database for.
#[verifier::ext_equal]
pub enum TaskAct {
    /// To commit the index of a block.
    Commit(SweepStageView),
    /// To add references to content, or to store it.
    Write(ResolveStageView),
}

/// What the task asks the database for in a state.
pub open spec fn act_in(state: IndexerView) -> Seq<TaskAct> {
    match state {
        IndexerView::Sweep(sweep) => if sweep.stage is Commit {
            seq![TaskAct::Commit(sweep.stage)]
        } else {
            Seq::empty()
        },
        IndexerView::Resolve(work) => if work.stage is Bump || work.stage is Store {
            seq![TaskAct::Write(work.stage)]
        } else {
            Seq::empty()
        },
        _ => Seq::empty(),
    }
}

/// What the task asks the database for from its state after `from` replies up
/// to that after `to`, in order.
pub open spec fn acts(course: Course, from: nat, to: nat) -> Seq<TaskAct>
    decreases to - from,
{
    if from >= to {
        Seq::empty()
    } else {
        act_in(course(from)) + acts(course, from + 1, to)
    }
}

/// A list of commits.
pub open spec fn commit_acts(stages: Seq<SweepStageView>) -> Seq<TaskAct> {
    stages.map_values(|stage: SweepStageView| TaskAct::Commit(stage))
}

/// A list of writes.
pub open spec fn write_acts(stages: Seq<ResolveStageView>) -> Seq<TaskAct> {
    stages.map_values(|stage: ResolveStageView| TaskAct::Write(stage))
}

/// How many references to `hash` the writes in a list of acts add.
pub open spec fn references_added(list: Seq<TaskAct>, hash: ContentHash) -> nat
    decreases list.len(),
{
    if list.len() == 0 {
        0
    } else {
        references_added(list.drop_first(), hash) + match list[0] {
            TaskAct::Write(stage) => references_written(seq![stage], hash),
            TaskAct::Commit(_) => 0,
        }
    }
}

/// The window of the task.
pub open spec fn task_window(blocks_pruning: u32, around: Surroundings) -> SweepWindow {
    window_of(around.finalized_number, around.retention_period, blocks_pruning)
}

/// The sweep of the task before it began.
pub open spec fn task_sweep(blocks_pruning: u32, around: Surroundings) -> SweepView {
    sweep_begin(
        task_window(blocks_pruning, around).start,
        task_window(blocks_pruning, around).finalized,
    )
}

proof fn lemma_acts_join(course: Course, from: nat, middle: nat, to: nat)
    requires
        from <= middle <= to,
    ensures
        acts(course, from, to) == acts(course, from, middle) + acts(course, middle, to),
    decreases middle - from,
{
    if from < middle {
        lemma_acts_join(course, from + 1, middle, to);
        assert(act_in(course(from)) + (acts(course, from + 1, middle) + acts(course, middle, to))
            =~= (act_in(course(from)) + acts(course, from + 1, middle)) + acts(
            course,
            middle,
            to,
        ));
    } else {
        assert(acts(course, from, middle) + acts(course, middle, to) =~= acts(course, from, to));
    }
}

proof fn lemma_waiting(
    course: Course,
    blocks_pruning: u32,
    around: Surroundings,
    at: nat,
    settled: nat,
) -> (end: nat)
    requires
        is_course(course, blocks_pruning, around),
        course(at) == IndexerView::Sync,
        at <= settled,
        sync_settled((around.sync)(settled)),
    ensures
        end >= at,
        course(end) == IndexerView::Head,
        acts(course, at, end) == Seq::<TaskAct>::empty(),
    decreases settled - at,
{
    assert(goes_on(course, blocks_pruning, around, at));
    if sync_settled((around.sync)(at)) {
        assert(acts(course, at, at + 1) =~= act_in(course(at)) + acts(course, at + 1, at + 1));
        at + 1
    } else {
        let end = lemma_waiting(course, blocks_pruning, around, at + 1, settled);
        assert(acts(course, at, end) =~= act_in(course(at)) + acts(course, at + 1, end));
        end
    }
}

proof fn lemma_sweeping(
    course: Course,
    blocks_pruning: u32,
    around: Surroundings,
    at: nat,
    sweep: SweepView,
) -> (end: nat)
    requires
        is_course(course, blocks_pruning, around),
        course(at) == IndexerView::Sweep(sweep),
        !(sweep.stage is Done),
    ensures
        end >= at,
        behind_sweep(sweep_end(sweep, around.chain), course(end)),
        acts(course, at, end) == commit_acts(commits(sweep, around.chain)),
    decreases replies_left(sweep),
{
    let next = sweep_next(sweep, chain_reply(sweep.stage, around.chain));
    assert(goes_on(course, blocks_pruning, around, at));
    sweep_moves_on(sweep, around.chain);
    lemma_one_reply(sweep, around.chain);
    let end = if next.stage is Done {
        assert(commits(next, around.chain) =~= Seq::empty());
        assert(acts(course, at + 1, at + 1) =~= commit_acts(commits(next, around.chain)));
        at + 1
    } else {
        lemma_sweeping(course, blocks_pruning, around, at + 1, next)
    };
    assert(act_in(course(at)) + commit_acts(commits(next, around.chain)) =~= commit_acts(
        commits(sweep, around.chain),
    ));
    end
}

proof fn lemma_resolving(
    course: Course,
    blocks_pruning: u32,
    around: Surroundings,
    at: nat,
    work: ResolveView,
) -> (end: nat)
    requires
        is_course(course, blocks_pruning, around),
        course(at) == resolving(work),
        work.stage is Done || work.at < work.pending.len(),
    ensures
        end >= at,
        course(end) == IndexerView::Done,
        acts(course, at, end) == write_acts(writes(work, around.answers)),
    decreases work_left(work),
{
    if work.stage is Done {
        assert(write_acts(writes(work, around.answers)) =~= Seq::empty());
        at
    } else {
        let next = resolve_next(work, reply_from(work.stage, around.answers));
        assert(goes_on(course, blocks_pruning, around, at));
        resolve_moves_on(work, around.answers);
        let end = lemma_resolving(course, blocks_pruning, around, at + 1, next);
        assert(act_in(course(at)) + write_acts(writes(next, around.answers)) =~= write_acts(
            writes(work, around.answers),
        ));
        end
    }
}

proof fn lemma_stays_done(
    course: Course,
    blocks_pruning: u32,
    around: Surroundings,
    end: nat,
    at: nat,
)
    requires
        is_course(course, blocks_pruning, around),
        course(end) == IndexerView::Done,
        end <= at,
    ensures
        course(at) == IndexerView::Done,
    decreases at - end,
{
    if end < at {
        let before = (at - 1) as nat;
        lemma_stays_done(course, blocks_pruning, around, end, before);
        assert(goes_on(course, blocks_pruning, around, before));
    }
}

/// Once the sync is settled, the task ends, whatever it is answered, and then
/// waits for nothing any more. Until then it has asked the database, in this
/// order, for the commits of a sweep over its window, and for the writes that
/// make up for what that sweep left; `pending`, which comes back beside the
/// number of replies, is what the sweep left, in the order in which it was made
/// up for.
pub proof fn task_sweeps_resolves_and_ends(
    course: Course,
    blocks_pruning: u32,
    around: Surroundings,
    settled: nat,
) -> (ended: (nat, Seq<(ContentHash, u32)>))
    requires
        is_course(course, blocks_pruning, around),
        sync_settled((around.sync)(settled)),
    ensures
        ({
            let (end, pending) = ended;
            let sweep = task_sweep(blocks_pruning, around);
            let swept = sweep_end(sweep, around.chain);
            &&& forall|at: nat| at >= end ==> #[trigger] course(at) == IndexerView::Done
            &&& hashes_differ(pending)
            &&& pairs_as_map(pending) == swept.pending
            &&& acts(course, 0, end) == commit_acts(commits(sweep, around.chain)) + write_acts(
                writes(resolve_from(pending, swept.known, 0), around.answers),
            )
        }),
{
    let sweep = task_sweep(blocks_pruning, around);
    let swept = sweep_end(sweep, around.chain);
    let head = lemma_waiting(course, blocks_pruning, around, 0, settled);
    assert(goes_on(course, blocks_pruning, around, head));
    assert(course(head + 1) == IndexerView::Sweep(sweep));
    let behind = lemma_sweeping(course, blocks_pruning, around, head + 1, sweep);
    let pending = choose|pending: Seq<(ContentHash, u32)>|
        {
            &&& hashes_differ(pending)
            &&& pairs_as_map(pending) == swept.pending
            &&& course(behind) == resolving(#[trigger] resolve_from(pending, swept.known, 0))
        };
    let work = resolve_from(pending, swept.known, 0);
    let end = lemma_resolving(course, blocks_pruning, around, behind, work);
    lemma_acts_join(course, 0, head, end);
    lemma_acts_join(course, head + 1, behind, end);
    assert(acts(course, head, end) =~= act_in(course(head)) + acts(course, head + 1, end));
    assert(acts(course, 0, end) =~= acts(course, head + 1, end));
    assert forall|at: nat| at >= end implies #[trigger] course(at) == IndexerView::Done by {
        lemma_stays_done(course, blocks_pruning, around, end, at);
    }
    (end, pending)
}

proof fn lemma_commits_add_none(
    stages: Seq<SweepStageView>,
    rest: Seq<TaskAct>,
    hash: ContentHash,
)
    ensures
        references_added(commit_acts(stages) + rest, hash) == references_added(rest, hash),
    decreases stages.len(),
{
    let list = commit_acts(stages) + rest;
    if stages.len() == 0 {
        assert(list =~= rest);
    } else {
        assert(list.drop_first() =~= commit_acts(stages.drop_first()) + rest);
        lemma_commits_add_none(stages.drop_first(), rest, hash);
    }
}

proof fn lemma_writes_add(stages: Seq<ResolveStageView>, hash: ContentHash)
    ensures
        references_added(write_acts(stages), hash) == references_written(stages, hash),
    decreases stages.len(),
{
    if stages.len() > 0 {
        let list = write_acts(stages);
        assert(list.drop_first() =~= write_acts(stages.drop_first()));
        lemma_writes_add(stages.drop_first(), hash);
        let first = seq![stages[0]];
        assert(first.drop_first() =~= Seq::empty());
        assert(references_written(first.drop_first(), hash) == 0);
    }
}

proof fn lemma_references_added(
    course: Course,
    blocks_pruning: u32,
    around: Surroundings,
    settled: nat,
    hash: ContentHash,
) -> (ended: (nat, Seq<(ContentHash, u32)>))
    requires
        is_course(course, blocks_pruning, around),
        sync_settled((around.sync)(settled)),
    ensures
        ({
            let (end, pending) = ended;
            let swept = sweep_end(task_sweep(blocks_pruning, around), around.chain);
            &&& course(end) == IndexerView::Done
            &&& hashes_differ(pending)
            &&& pairs_as_map(pending) == swept.pending
            &&& references_added(acts(course, 0, end), hash) == references_written(
                writes(resolve_from(pending, swept.known, 0), around.answers),
                hash,
            )
        }),
{
    let sweep = task_sweep(blocks_pruning, around);
    let swept = sweep_end(sweep, around.chain);
    let (end, pending) = task_sweeps_resolves_and_ends(course, blocks_pruning, around, settled);
    let written = writes(resolve_from(pending, swept.known, 0), around.answers);
    lemma_commits_add_none(commits(sweep, around.chain), write_acts(written), hash);
    lemma_writes_add(written, hash);
    (end, pending)
}

/// When the task has ended, the database has counted, for every content hash
/// that could be resolved, one reference for each entry in the indexes that it
/// committed and for each entry of a block of the window without a body.
pub proof fn task_counts_every_reference(
    course: Course,
    blocks_pruning: u32,
    around: Surroundings,
    settled: nat,
    hash: ContentHash,
) -> (end: nat)
    requires
        is_course(course, blocks_pruning, around),
        sync_settled((around.sync)(settled)),
        ({
            let window = task_window(blocks_pruning, around);
            references_fit(
                Map::empty(),
                deferred_from(around.chain, window.start as int, window.finalized),
            )
        }),
        resolvable(
            sweep_end(task_sweep(blocks_pruning, around), around.chain).known,
            around.answers,
            hash,
        ),
    ensures
        course(end) == IndexerView::Done,
        ({
            let window = task_window(blocks_pruning, around);
            let start = window.start as int;
            counted_at_once(around.chain, start, window.finalized, hash) + references_added(
                acts(course, 0, end),
                hash,
            ) == times_indexed(around.chain, start, window.finalized, hash) + times_bodyless(
                around.chain,
                start,
                window.finalized,
                hash,
            )
        }),
{
    let window = task_window(blocks_pruning, around);
    let (end, pending) = lemma_references_added(course, blocks_pruning, around, settled, hash);
    every_reference_is_counted(
        window.start,
        window.finalized,
        around.chain,
        pending,
        around.answers,
        hash,
    );
    end
}

/// Where no block of the window lacks its body, a content hash that could be
/// resolved is counted, when the task has ended, as often as it stands in the
/// indexes that were committed.
pub proof fn task_makes_counters_match_the_index(
    course: Course,
    blocks_pruning: u32,
    around: Surroundings,
    settled: nat,
    hash: ContentHash,
) -> (end: nat)
    requires
        is_course(course, blocks_pruning, around),
        sync_settled((around.sync)(settled)),
        ({
            let window = task_window(blocks_pruning, around);
            &&& references_fit(
                Map::empty(),
                deferred_from(around.chain, window.start as int, window.finalized),
            )
            &&& forall|number: u64|
                window.start <= number <= window.finalized ==> (#[trigger] block_facts(
                    around.chain,
                    number,
                )).body != Some(false)
        }),
        resolvable(
            sweep_end(task_sweep(blocks_pruning, around), around.chain).known,
            around.answers,
            hash,
        ),
    ensures
        course(end) == IndexerView::Done,
        ({
            let window = task_window(blocks_pruning, around);
            let start = window.start as int;
            counted_at_once(around.chain, start, window.finalized, hash) + references_added(
                acts(course, 0, end),
                hash,
            ) == times_indexed(around.chain, start, window.finalized, hash)
        }),
{
    let window = task_window(blocks_pruning, around);
    let (end, pending) = lemma_references_added(course, blocks_pruning, around, settled, hash);
    counters_match_the_index(
        window.start,
        window.finalized,
        around.chain,
        pending,
        around.answers,
        hash,
    );
    end
}

} // verus!

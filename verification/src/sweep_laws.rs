//! What each step of a sweep does, and what holds of every question that it asks.

use crate::bytes::ContentHash;
use crate::indexed_transactions::{
    entries_are_reduced_in_place, selection_keeps_raw_blake2_content, supported_entries,
    IndexedTransactionInfo,
};
use crate::references::{
    count_is_what_is_kept, count_of, occurrences, occurrences_are_those_in_the_bag,
    references_are_counted, references_fit,
};
use crate::sweep::{
    api_is_there, left_for_later, sweep_begin, sweep_next, sync_settled, window_of, with_entries,
    BlockHash, SweepReply, SweepReplyView, SweepStage, SweepStageView, SweepView, SyncStatus,
};
use vstd::prelude::*;

verus! {

/// The sync is settled when nothing is under way, or when nobody is left to say
/// so.
pub proof fn sync_is_settled_when_idle(status: SyncStatus)
    ensures
        sync_settled(Some(status)) <==> status.idle && !status.warp_sync,
        sync_settled(None),
{
}

/// The window ends at the last finalized block, or at zero where it is not
/// known. It reaches back by the retention period, or by the number of blocks
/// that are kept if that is more or the period is not known, but not below zero.
pub proof fn window_reaches_back(finalized: Option<u64>, retention: Option<u64>, pruning: u32)
    ensures
        ({
            let window = window_of(finalized, retention, pruning);
            &&& finalized matches Some(number) ==> window.finalized == number
            &&& finalized is None ==> window.finalized == 0
            &&& retention matches Some(period) ==> window.retention_period == period
            &&& retention is None ==> window.retention_period == pruning
            &&& window.start <= window.finalized
            &&& window.start > 0 ==> {
                ||| window.finalized - window.start == window.retention_period
                    && window.retention_period >= pruning
                ||| window.finalized - window.start == pruning && pruning
                    > window.retention_period
            }
            &&& window.start == 0 ==> window.finalized <= window.retention_period
                || window.finalized <= pruning
        }),
{
}

/// A runtime is taken to have the interface only if it said so.
pub proof fn only_a_yes_is_a_yes(answer: bool)
    ensures
        api_is_there(Some(answer)) <==> answer,
        !api_is_there(None),
{
}

/// The number of the block that a stage is about.
pub open spec fn stage_number(stage: SweepStageView) -> Option<u64> {
    match stage {
        SweepStageView::Hash { number } => Some(number),
        SweepStageView::Meta { number, .. } => Some(number),
        SweepStageView::Body { number, .. } => Some(number),
        SweepStageView::Commit { number, .. } => Some(number),
        SweepStageView::Done => None,
    }
}

/// The hash of the block that a stage is about, once it is known.
pub open spec fn stage_block(stage: SweepStageView) -> Option<BlockHash> {
    match stage {
        SweepStageView::Meta { block, .. } => Some(block),
        SweepStageView::Body { block, .. } => Some(block),
        SweepStageView::Commit { block, .. } => Some(block),
        _ => None,
    }
}

/// Whether a reply is one that a stage waits for.
pub open spec fn is_awaited(stage: SweepStageView, reply: SweepReplyView) -> bool {
    match reply {
        SweepReplyView::Hash(_) => stage is Hash,
        SweepReplyView::Meta(_) => stage is Meta,
        SweepReplyView::Body(_) => stage is Body,
        SweepReplyView::Committed(_) => stage is Commit,
    }
}

/// Whether `after` is `before` at the next block, or at the end where there is
/// none, with nothing else changed but the counts.
pub open spec fn at_next_block(before: SweepView, after: SweepView) -> bool {
    &&& stage_number(before.stage) matches Some(number) && {
        &&& number < before.finalized ==> after.stage == (SweepStageView::Hash {
            number: (number + 1) as u64,
        })
        &&& number >= before.finalized ==> after.stage is Done
    }
    &&& after.finalized == before.finalized
    &&& after.known == before.known
}

/// A sweep starts at the front of its window with nothing noted; a window that
/// ends before it starts is done at once.
pub proof fn sweep_starts_at_the_front(start: u64, finalized: u64)
    ensures
        ({
            let sweep = sweep_begin(start, finalized);
            &&& start <= finalized ==> sweep.stage == (SweepStageView::Hash { number: start })
            &&& start > finalized ==> sweep.stage is Done
            &&& sweep.finalized == finalized
            &&& sweep.pending.dom().is_empty()
            &&& sweep.known.dom().is_empty()
        }),
{
}

/// A reply that is not waited for changes nothing, and none is waited for at the
/// end.
pub proof fn other_replies_change_nothing(sweep: SweepView, reply: SweepReplyView)
    requires
        !is_awaited(sweep.stage, reply),
    ensures
        sweep_next(sweep, reply) == sweep,
{
}

/// A block is passed over, with nothing noted or counted, where its hash, its
/// entries, word of its body or the outcome of its commit cannot be had, where
/// the runtime indexed nothing in it, and where its body is here but none of its
/// entries is supported.
pub proof fn blocks_are_passed_over(sweep: SweepView, reply: SweepReplyView)
    requires
        is_awaited(sweep.stage, reply),
        match reply {
            SweepReplyView::Hash(block) => block is None,
            SweepReplyView::Meta(meta) => meta is None || meta->0.len() == 0,
            SweepReplyView::Body(present) => present is None || (present == Some(true)
                && sweep.stage->supported.len() == 0),
            SweepReplyView::Committed(missing) => missing is None,
        },
    ensures
        at_next_block(sweep, sweep_next(sweep, reply)),
        sweep_next(sweep, reply).pending == sweep.pending,
{
}

/// Once the hash of a block is known, the runtime is asked for what it indexed in
/// that block: it is asked by the number of the block where that has 32 bits, and
/// else by the low 32 bits of it.
pub proof fn runtime_is_asked_by_the_block_number(
    sweep: SweepView,
    number: u64,
    block: BlockHash,
)
    requires
        sweep.stage == (SweepStageView::Hash { number }),
    ensures
        ({
            let next = sweep_next(sweep, SweepReplyView::Hash(Some(block)));
            &&& next.stage matches SweepStageView::Meta {
                number: of,
                block: hash,
                runtime_number,
            } && {
                &&& of == number
                &&& hash == block
                &&& number < 0x1_0000_0000 ==> runtime_number == number
                &&& (number - runtime_number) % 0x1_0000_0000 == 0
            }
            &&& next.finalized == sweep.finalized
            &&& next.pending == sweep.pending
            &&& next.known == sweep.known
        }),
{
}

/// Of the entries that the runtime reports, those that are supported are kept,
/// and the first of each content hash is noted unless the hash was noted before.
pub proof fn reported_entries_are_noted(
    sweep: SweepView,
    meta: Seq<IndexedTransactionInfo>,
    hash: ContentHash,
)
    requires
        sweep.stage is Meta,
        meta.len() > 0,
    ensures
        ({
            let next = sweep_next(sweep, SweepReplyView::Meta(Some(meta)));
            &&& next.stage matches SweepStageView::Body { number, block, supported } && {
                &&& Some(number) == stage_number(sweep.stage)
                &&& Some(block) == stage_block(sweep.stage)
                &&& supported == supported_entries(meta)
                &&& forall|i: int|
                    0 <= i < supported.len() ==> (#[trigger] supported[i]).hashing is Blake2b256
                        && supported[i].cid_codec == 0x55
                &&& sweep.known.contains_key(hash) ==> next.known.contains_key(hash)
                    && next.known[hash] == sweep.known[hash]
                &&& !sweep.known.contains_key(hash) && next.known.contains_key(hash)
                    ==> exists|i: int|
                    0 <= i < supported.len() && (#[trigger] supported[i]) == next.known[hash]
                        && supported[i].content_hash == hash && (forall|j: int|
                        0 <= j < i ==> (#[trigger] supported[j]).content_hash != hash)
                &&& !next.known.contains_key(hash) ==> forall|i: int|
                    0 <= i < supported.len() ==> (#[trigger] supported[i]).content_hash != hash
            }
            &&& next.finalized == sweep.finalized
            &&& next.pending == sweep.pending
        }),
{
    selection_keeps_raw_blake2_content(meta);
    first_entry_of_a_hash_is_noted(sweep.known, supported_entries(meta), hash);
}

/// Of several entries with one content hash the first is noted, unless the hash
/// was noted before; a hash is noted only for an entry that has it.
pub proof fn first_entry_of_a_hash_is_noted(
    known: Map<ContentHash, IndexedTransactionInfo>,
    entries: Seq<IndexedTransactionInfo>,
    hash: ContentHash,
)
    ensures
        ({
            let after = with_entries(known, entries);
            &&& known.contains_key(hash) ==> after.contains_key(hash) && after[hash] == known[hash]
            &&& !known.contains_key(hash) && after.contains_key(hash) ==> exists|i: int|
                0 <= i < entries.len() && (#[trigger] entries[i]) == after[hash]
                    && entries[i].content_hash == hash && (forall|j: int|
                    0 <= j < i ==> (#[trigger] entries[j]).content_hash != hash)
            &&& !after.contains_key(hash) ==> forall|i: int|
                0 <= i < entries.len() ==> (#[trigger] entries[i]).content_hash != hash
        }),
    decreases entries.len(),
{
    if entries.len() > 0 {
        let front = entries.drop_last();
        let last = entries.len() - 1;
        first_entry_of_a_hash_is_noted(known, front, hash);
        let before = with_entries(known, front);
        let after = with_entries(known, entries);
        assert(forall|i: int| 0 <= i < last ==> #[trigger] front[i] == entries[i]);
        if !known.contains_key(hash) && after.contains_key(hash) {
            if before.contains_key(hash) {
                let i = choose|i: int|
                    0 <= i < front.len() && (#[trigger] front[i]) == before[hash]
                        && front[i].content_hash == hash && (forall|j: int|
                        0 <= j < i ==> (#[trigger] front[j]).content_hash != hash);
                assert(entries[i] == after[hash]);
                assert forall|j: int| 0 <= j < i implies (#[trigger] entries[j]).content_hash
                    != hash by {
                    assert(front[j].content_hash != hash);
                }
            } else {
                assert(entries[last] == after[hash]);
                assert forall|j: int| 0 <= j < last implies (#[trigger] entries[j]).content_hash
                    != hash by {
                    assert(front[j].content_hash != hash);
                }
            }
        }
        if !after.contains_key(hash) {
            assert forall|i: int| 0 <= i < entries.len() implies (
            #[trigger] entries[i]).content_hash != hash by {
                if i < last {
                    assert(front[i].content_hash != hash);
                }
            }
        }
    }
}

/// Where the body of a block is here, the database is asked to commit its
/// supported entries, one for one, under its number and hash; nothing is counted
/// or noted yet.
pub proof fn supported_entries_are_committed(
    sweep: SweepView,
    number: u64,
    block: BlockHash,
    supported: Seq<IndexedTransactionInfo>,
)
    requires
        sweep.stage == (SweepStageView::Body { number, block, supported }),
        supported.len() > 0,
    ensures
        ({
            let next = sweep_next(sweep, SweepReplyView::Body(Some(true)));
            &&& next.stage matches SweepStageView::Commit { number: of, block: hash, meta } && {
                &&& of == number
                &&& hash == block
                &&& meta.len() == supported.len()
                &&& forall|i: int|
                    0 <= i < meta.len() ==> (#[trigger] meta[i]).content_hash
                        == supported[i].content_hash && meta[i].size == supported[i].size
            }
            &&& next.finalized == sweep.finalized
            &&& next.pending == sweep.pending
            &&& next.known == sweep.known
        }),
{
    entries_are_reduced_in_place(supported);
}

/// Where the body of a block is not here, each of its supported entries is left
/// for later as one reference to its content hash, and nothing is committed.
pub proof fn entries_without_body_are_left(
    sweep: SweepView,
    supported: Seq<IndexedTransactionInfo>,
    hash: ContentHash,
)
    requires
        sweep.stage matches SweepStageView::Body { supported: entries, .. } && entries
            == supported,
        references_fit(
            sweep.pending,
            left_for_later(sweep, SweepReplyView::Body(Some(false))),
        ),
    ensures
        ({
            let next = sweep_next(sweep, SweepReplyView::Body(Some(false)));
            let hashes = Seq::new(supported.len(), |i: int| supported[i].content_hash);
            &&& at_next_block(sweep, next)
            &&& count_of(next.pending, hash) == count_of(sweep.pending, hash)
                + hashes.to_multiset().count(hash)
        }),
{
    let left = left_for_later(sweep, SweepReplyView::Body(Some(false)));
    let hashes = Seq::new(supported.len(), |i: int| supported[i].content_hash);
    entries_are_reduced_in_place(supported);
    assert(left =~= hashes);
    occurrences_are_those_in_the_bag(hashes, hash);
    references_are_counted(sweep.pending, left);
    assert(count_of(sweep_next(sweep, SweepReplyView::Body(Some(false))).pending, hash) == count_of(
        sweep.pending,
        hash,
    ) + occurrences(hashes, hash));
}

/// Each content hash that the database reports as missing when it commits an
/// index is left for later as one reference.
pub proof fn missing_hashes_are_left(
    sweep: SweepView,
    missing: Seq<ContentHash>,
    hash: ContentHash,
)
    requires
        sweep.stage is Commit,
        references_fit(sweep.pending, missing),
    ensures
        ({
            let next = sweep_next(sweep, SweepReplyView::Committed(Some(missing)));
            &&& at_next_block(sweep, next)
            &&& count_of(next.pending, hash) == count_of(sweep.pending, hash)
                + missing.to_multiset().count(hash)
            &&& next.pending.contains_key(hash) ==> count_of(next.pending, hash)
                == next.pending[hash]
        }),
{
    occurrences_are_those_in_the_bag(missing, hash);
    references_are_counted(sweep.pending, missing);
    let next = sweep_next(sweep, SweepReplyView::Committed(Some(missing)));
    assert(count_of(next.pending, hash) == count_of(sweep.pending, hash)
        + occurrences(missing, hash));
    count_is_what_is_kept(next.pending, hash);
}

/// A sweep after a list of replies.
pub open spec fn sweep_after(sweep: SweepView, replies: Seq<SweepReplyView>) -> SweepView
    decreases replies.len(),
{
    if replies.len() == 0 {
        sweep
    } else {
        sweep_next(sweep_after(sweep, replies.drop_last()), replies.last())
    }
}

/// Whatever a sweep has been answered, it asks about a block of its window, asks
/// the runtime by the number of that block, and hands out and notes nothing but
/// raw content under its Blake2b hash.
pub proof fn every_question_is_about_a_block_of_the_window(
    start: u64,
    finalized: u64,
    replies: Seq<SweepReplyView>,
)
    requires
        start <= finalized,
    ensures
        ({
            let sweep = sweep_after(sweep_begin(start, finalized), replies);
            &&& sweep.finalized == finalized
            &&& stage_number(sweep.stage) matches Some(number) ==> start <= number <= finalized
            &&& sweep.stage matches SweepStageView::Meta { number, runtime_number, .. } ==> number
                < 0x1_0000_0000 ==> runtime_number == number
            &&& sweep.stage matches SweepStageView::Body { supported, .. } ==> forall|i: int|
                0 <= i < supported.len() ==> (#[trigger] supported[i]).hashing is Blake2b256
                    && supported[i].cid_codec == 0x55
            &&& forall|hash: ContentHash| #[trigger]
                sweep.known.contains_key(hash) ==> {
                    let info = sweep.known[hash];
                    info.content_hash == hash && info.hashing is Blake2b256 && info.cid_codec
                        == 0x55
                }
        }),
    decreases replies.len(),
{
    if replies.len() > 0 {
        every_question_is_about_a_block_of_the_window(start, finalized, replies.drop_last());
        let before = sweep_after(sweep_begin(start, finalized), replies.drop_last());
        let reply = replies.last();
        let after = sweep_next(before, reply);
        if let SweepReplyView::Meta(Some(meta)) = reply {
            selection_keeps_raw_blake2_content(meta);
            assert forall|hash: ContentHash| #[trigger] after.known.contains_key(hash) implies {
                let info = after.known[hash];
                info.content_hash == hash && info.hashing is Blake2b256 && info.cid_codec == 0x55
            } by {
                first_entry_of_a_hash_is_noted(before.known, supported_entries(meta), hash);
            }
        }
    }
}

/// What a reply leaves for later are the content hashes of the kept entries of a
/// block whose body is not here, or those that the database reports as missing,
/// in their order; no other reply leaves anything.
pub proof fn only_these_replies_leave_anything(sweep: SweepView, reply: SweepReplyView)
    ensures
        ({
            let left = left_for_later(sweep, reply);
            &&& reply == SweepReplyView::Body(Some(false)) && sweep.stage is Body ==> {
                &&& left.len() == sweep.stage->supported.len()
                &&& forall|i: int|
                    0 <= i < left.len() ==> #[trigger] left[i]
                        == sweep.stage->supported[i].content_hash
            }
            &&& sweep.stage is Commit ==> (reply matches SweepReplyView::Committed(Some(missing))
                ==> left == missing)
            &&& left.len() > 0 ==> (sweep.stage is Body && reply == SweepReplyView::Body(
                Some(false),
            )) || (sweep.stage is Commit && reply is Committed)
        }),
{
    if let SweepStageView::Body { supported, .. } = sweep.stage {
        entries_are_reduced_in_place(supported);
    }
}

/// What a stage says is what it holds.
pub proof fn stages_say_what_they_hold(stage: SweepStage)
    ensures
        match stage {
            SweepStage::Hash { number } => stage@ == (SweepStageView::Hash { number }),
            SweepStage::Meta { number, block, runtime_number } => stage@ == (SweepStageView::Meta {
                number,
                block,
                runtime_number,
            }),
            SweepStage::Body { number, block, supported } => stage@ == (SweepStageView::Body {
                number,
                block,
                supported: supported@,
            }),
            SweepStage::Commit { number, block, meta } => stage@ == (SweepStageView::Commit {
                number,
                block,
                meta: meta@,
            }),
            SweepStage::Done => stage@ is Done,
        },
{
}

/// What a reply says is what it holds.
pub proof fn replies_say_what_they_hold(reply: SweepReply)
    ensures
        match reply {
            SweepReply::Hash(block) => reply@ == SweepReplyView::Hash(block),
            SweepReply::Meta(None) => reply@ == SweepReplyView::Meta(None),
            SweepReply::Meta(Some(meta)) => reply@ == SweepReplyView::Meta(Some(meta@)),
            SweepReply::Body(present) => reply@ == SweepReplyView::Body(present),
            SweepReply::Committed(None) => reply@ == SweepReplyView::Committed(None),
            SweepReply::Committed(Some(missing)) => reply@ == SweepReplyView::Committed(
                Some(missing@),
            ),
        },
{
}

} // verus!

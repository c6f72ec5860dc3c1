//! What each step of making up for references does, and which writes are called
//! for.

use crate::bytes::ContentHash;
use crate::indexed_transactions::{only_raw_blake2_content_is_supported, IndexedTransactionInfo};
use crate::resolve::{
    every_pending_pair_is_written_once, fetchable, resolvable, resolve_from, resolve_next,
    write_for, writes, writes_from, Answers, ResolveReply, ResolveReplyView, ResolveStage,
    ResolveStageView, ResolveView,
};
use vstd::prelude::*;

verus! {

/// Content that is not held is worth fetching exactly if it is known to be raw
/// content under its Blake2b hash.
pub proof fn only_raw_blake2_content_is_fetched(
    known: Map<ContentHash, IndexedTransactionInfo>,
    hash: ContentHash,
)
    ensures
        fetchable(known, hash) <==> known.contains_key(hash) && known[hash].hashing is Blake2b256
            && known[hash].cid_codec == 0x55,
{
    only_raw_blake2_content_is_supported(known[hash]);
}

/// The work goes on at the first pair from a position on that has references
/// left: all pairs in between have none. Where there is no such pair it is done.
pub proof fn pairs_without_references_are_passed_over(
    pending: Seq<(ContentHash, u32)>,
    known: Map<ContentHash, IndexedTransactionInfo>,
    at: nat,
)
    requires
        at <= pending.len(),
    ensures
        ({
            let work = resolve_from(pending, known, at);
            &&& work.pending == pending
            &&& work.known == known
            &&& at <= work.at <= pending.len()
            &&& forall|i: int| at <= i < work.at ==> (#[trigger] pending[i]).1 == 0
            &&& work.at < pending.len() ==> pending[work.at as int].1 != 0 && work.stage == (
            ResolveStageView::Lookup {
                hash: pending[work.at as int].0,
                count: pending[work.at as int].1,
            })
            &&& work.at == pending.len() ==> work.stage is Done
        }),
    decreases pending.len() - at,
{
    if at < pending.len() && pending[at as int].1 == 0 {
        pairs_without_references_are_passed_over(pending, known, at + 1);
        let work = resolve_from(pending, known, at);
        assert(work == resolve_from(pending, known, at + 1));
        assert forall|i: int| at <= i < work.at implies (#[trigger] pending[i]).1 == 0 by {
            if i != at {
                assert(at + 1 <= i);
            }
        }
    }
}

/// Content that the database holds gets its references, under its own hash and
/// in full; content that it does not hold, or of which that is not known, is
/// fetched if it is raw content under its Blake2b hash, and else passed over.
pub proof fn lookup_decides_between_reference_and_fetch(
    work: ResolveView,
    hash: ContentHash,
    count: u32,
    held: Option<bool>,
)
    requires
        work.stage == (ResolveStageView::Lookup { hash, count }),
    ensures
        ({
            let next = resolve_next(work, ResolveReplyView::Held(held));
            let known = work.known.contains_key(hash) && work.known[hash].hashing is Blake2b256
                && work.known[hash].cid_codec == 0x55;
            &&& held == Some(true) ==> next.stage == (ResolveStageView::Bump { hash, count })
            &&& held != Some(true) && known ==> next.stage == (ResolveStageView::Fetch {
                hash,
                count,
            })
            &&& held == Some(true) || known ==> next.at == work.at && next.pending == work.pending
                && next.known == work.known
            &&& held != Some(true) && !known ==> next == resolve_from(
                work.pending,
                work.known,
                work.at + 1,
            )
        }),
{
    only_raw_blake2_content_is_supported(work.known[hash]);
}

/// Content that a peer has is stored as it came, under the hash that it was
/// fetched for and with all of its references; content that none has is passed
/// over.
pub proof fn fetched_content_is_stored(
    work: ResolveView,
    hash: ContentHash,
    count: u32,
    data: Seq<u8>,
)
    requires
        work.stage == (ResolveStageView::Fetch { hash, count }),
    ensures
        ({
            let next = resolve_next(work, ResolveReplyView::Fetched(Some(data)));
            &&& next.stage == (ResolveStageView::Store { hash, data, count })
            &&& next.at == work.at
            &&& next.pending == work.pending
            &&& next.known == work.known
        }),
        resolve_next(work, ResolveReplyView::Fetched(None)) == resolve_from(
            work.pending,
            work.known,
            work.at + 1,
        ),
{
}

/// Behind a write the work goes on with the next pair.
pub proof fn work_goes_on_behind_a_write(work: ResolveView)
    requires
        work.stage is Bump || work.stage is Store,
    ensures
        resolve_next(work, ResolveReplyView::Written) == resolve_from(
            work.pending,
            work.known,
            work.at + 1,
        ),
{
}

/// A reply that does not fit what is to be done changes nothing, and none fits
/// when all is done.
pub proof fn other_replies_change_nothing(work: ResolveView, reply: ResolveReplyView)
    requires
        match reply {
            ResolveReplyView::Held(_) => !(work.stage is Lookup),
            ResolveReplyView::Fetched(_) => !(work.stage is Fetch),
            ResolveReplyView::Written => !(work.stage is Bump || work.stage is Store),
        },
    ensures
        resolve_next(work, reply) == work,
{
}

/// Whether a pair is among the pending ones, from a position on.
pub open spec fn pends(
    pending: Seq<(ContentHash, u32)>,
    at: nat,
    hash: ContentHash,
    count: u32,
) -> bool {
    exists|i: int| at <= i < pending.len() && #[trigger] pending[i] == (hash, count)
}

/// Whether a write is one that a pending pair from a position on calls for:
/// references for content that the database holds, and content that it does not
/// hold, as a peer has it, if it is raw content under its Blake2b hash.
pub open spec fn called_for(
    write: ResolveStageView,
    pending: Seq<(ContentHash, u32)>,
    at: nat,
    known: Map<ContentHash, IndexedTransactionInfo>,
    answers: Answers,
) -> bool {
    match write {
        ResolveStageView::Bump { hash, count } => {
            &&& count > 0
            &&& pends(pending, at, hash, count)
            &&& (answers.held)(hash) == Some(true)
        },
        ResolveStageView::Store { hash, data, count } => {
            &&& count > 0
            &&& pends(pending, at, hash, count)
            &&& (answers.held)(hash) != Some(true)
            &&& (answers.fetched)(hash) == Some(data)
            &&& known.contains_key(hash)
            &&& known[hash].hashing is Blake2b256
            &&& known[hash].cid_codec == 0x55
        },
        _ => false,
    }
}

proof fn lemma_writes_called_for(
    pending: Seq<(ContentHash, u32)>,
    at: nat,
    known: Map<ContentHash, IndexedTransactionInfo>,
    answers: Answers,
)
    ensures
        forall|i: int|
            0 <= i < writes_from(pending, at, known, answers).len() ==> called_for(
                #[trigger] writes_from(pending, at, known, answers)[i],
                pending,
                at,
                known,
                answers,
            ),
    decreases pending.len() - at,
{
    if at < pending.len() {
        let pair = pending[at as int];
        let first = write_for(pair, known, answers);
        let rest = writes_from(pending, at + 1, known, answers);
        lemma_writes_called_for(pending, at + 1, known, answers);
        only_raw_blake2_content_is_supported(known[pair.0]);
        assert(pends(pending, at, pair.0, pair.1)) by {
            assert(pending[at as int] == (pair.0, pair.1));
        }
        assert forall|i: int| 0 <= i < (first + rest).len() implies called_for(
            #[trigger] (first + rest)[i],
            pending,
            at,
            known,
            answers,
        ) by {
            if i >= first.len() {
                let write = rest[i - first.len()];
                assert(called_for(write, pending, at + 1, known, answers));
                assert forall|hash: ContentHash, count: u32| #[trigger]
                    pends(pending, at + 1, hash, count) implies pends(
                    pending,
                    at,
                    hash,
                    count,
                ) by {
                    let k = choose|k: int|
                        at + 1 <= k < pending.len() && #[trigger] pending[k] == (hash, count);
                    assert(pending[k] == (hash, count));
                }
            }
        }
    }
}

/// Only such writes are made as a pending pair calls for.
pub proof fn every_write_is_called_for(
    pending: Seq<(ContentHash, u32)>,
    known: Map<ContentHash, IndexedTransactionInfo>,
    answers: Answers,
)
    ensures
        forall|i: int|
            0 <= i < writes(resolve_from(pending, known, 0), answers).len() ==> called_for(
                #[trigger] writes(resolve_from(pending, known, 0), answers)[i],
                pending,
                0,
                known,
                answers,
            ),
{
    every_pending_pair_is_written_once(pending, known, answers);
    lemma_writes_called_for(pending, 0, known, answers);
}

proof fn lemma_call_is_answered(
    pending: Seq<(ContentHash, u32)>,
    at: nat,
    known: Map<ContentHash, IndexedTransactionInfo>,
    answers: Answers,
    of: int,
)
    requires
        at <= of < pending.len(),
        pending[of].1 > 0,
    ensures
        ({
            let (hash, count) = pending[of];
            let made = writes_from(pending, at, known, answers);
            &&& (answers.held)(hash) == Some(true) ==> made.contains(
                ResolveStageView::Bump { hash, count },
            )
            &&& (answers.held)(hash) != Some(true) && known.contains_key(hash)
                && known[hash].hashing is Blake2b256 && known[hash].cid_codec == 0x55 ==> (
            (answers.fetched)(hash) matches Some(data) ==> made.contains(
                ResolveStageView::Store { hash, data, count },
            ))
        }),
    decreases pending.len() - at,
{
    let (hash, count) = pending[of];
    let pair = pending[at as int];
    let first = write_for(pair, known, answers);
    let rest = writes_from(pending, at + 1, known, answers);
    let made = writes_from(pending, at, known, answers);
    only_raw_blake2_content_is_supported(known[hash]);
    if of == at {
        if resolvable(known, answers, hash) {
            assert(made[0] == first[0]);
        }
    } else {
        lemma_call_is_answered(pending, at + 1, known, answers, of);
        assert forall|write: ResolveStageView| rest.contains(write) implies made.contains(
            write,
        ) by {
            let i = choose|i: int| 0 <= i < rest.len() && rest[i] == write;
            assert(made[first.len() + i] == write);
        }
    }
}

/// Every pending pair with references that can be resolved gets its write: its
/// references where the database holds the content, and else the content with
/// its references.
pub proof fn every_call_is_answered(
    pending: Seq<(ContentHash, u32)>,
    known: Map<ContentHash, IndexedTransactionInfo>,
    answers: Answers,
    of: int,
)
    requires
        0 <= of < pending.len(),
        pending[of].1 > 0,
    ensures
        ({
            let (hash, count) = pending[of];
            let made = writes(resolve_from(pending, known, 0), answers);
            &&& (answers.held)(hash) == Some(true) ==> made.contains(
                ResolveStageView::Bump { hash, count },
            )
            &&& (answers.held)(hash) != Some(true) && known.contains_key(hash)
                && known[hash].hashing is Blake2b256 && known[hash].cid_codec == 0x55 ==> (
            (answers.fetched)(hash) matches Some(data) ==> made.contains(
                ResolveStageView::Store { hash, data, count },
            ))
        }),
{
    every_pending_pair_is_written_once(pending, known, answers);
    lemma_call_is_answered(pending, 0, known, answers, of);
}

/// What a stage says is what it holds.
pub proof fn stages_say_what_they_hold(stage: ResolveStage)
    ensures
        match stage {
            ResolveStage::Lookup { hash, count } => stage@ == (ResolveStageView::Lookup {
                hash,
                count,
            }),
            ResolveStage::Bump { hash, count } => stage@ == (ResolveStageView::Bump {
                hash,
                count,
            }),
            ResolveStage::Fetch { hash, count } => stage@ == (ResolveStageView::Fetch {
                hash,
                count,
            }),
            ResolveStage::Store { hash, data, count } => stage@ == (ResolveStageView::Store {
                hash,
                data: data@,
                count,
            }),
            ResolveStage::Done => stage@ is Done,
        },
{
}

/// What a reply says is what it holds.
pub proof fn replies_say_what_they_hold(reply: ResolveReply)
    ensures
        match reply {
            ResolveReply::Held(held) => reply@ == ResolveReplyView::Held(held),
            ResolveReply::Fetched(None) => reply@ == ResolveReplyView::Fetched(None),
            ResolveReply::Fetched(Some(data)) => reply@ == ResolveReplyView::Fetched(Some(data@)),
            ResolveReply::Written => reply@ is Written,
        },
{
}

} // verus!

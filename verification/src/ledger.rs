//! What a sweep and the work after it come to: every reference to content is
//! counted once.

use crate::bytes::ContentHash;
use crate::content_map::{hashes_differ, pairs_as_map};
use crate::indexed_transactions::{
    content_hashes, database_meta, supported, supported_entries, IndexedTransactionInfo,
    IndexedTransactionMeta,
};
use crate::references::{
    count_of, occurrences, occurrences_add_up, references_add_up, references_are_counted,
    references_fit, with_references,
};
use crate::resolve::{
    pending_references_are_made_up, references_written, resolvable, resolve_from, writes, Answers,
};
use crate::sweep::{
    stage_after, sweep_begin, sweep_next, with_entries, BlockHash, SweepReplyView, SweepStageView,
    SweepView,
};
use vstd::prelude::*;

verus! {

/// All that a sweep can find out of a block; `None` where there is nothing, or
/// where it cannot be found out.
pub struct BlockFacts {
    /// The hash of the block.
    pub hash: Option<BlockHash>,
    /// The transactions that the runtime indexed in it.
    pub meta: Option<Seq<IndexedTransactionInfo>>,
    /// Whether its body is here.
    pub body: Option<bool>,
    /// The content hashes whose data the database does not find in the body
    /// when it commits the index.
    pub missing: Option<Seq<ContentHash>>,
}

/// What can be found out of the blocks of a chain, as it is asked for.
pub struct Chain {
    /// The hash of a block, by its number.
    pub hash: spec_fn(u64) -> Option<BlockHash>,
    /// The transactions that the runtime indexed in a block, by the number of 32
    /// bits under which the runtime knows the block.
    pub indexed: spec_fn(u32) -> Option<Seq<IndexedTransactionInfo>>,
    /// Whether the body of a block is here, by the hash of the block.
    pub body: spec_fn(BlockHash) -> Option<bool>,
    /// What comes of committing an index, by the hash and the number of the block
    /// and what is committed: the content hashes whose data is not in the body.
    pub commit: spec_fn(BlockHash, u64, Seq<IndexedTransactionMeta>) -> Option<Seq<ContentHash>>,
}

/// What can be found out of block `number`. The runtime knows it by the low 32
/// bits of its number; its body is that under its hash; and what is committed
/// for it are its supported entries.
pub open spec fn block_facts(chain: Chain, number: u64) -> BlockFacts {
    let meta = (chain.indexed)((number % 0x1_0000_0000) as u32);
    match (chain.hash)(number) {
        Some(hash) => BlockFacts {
            hash: Some(hash),
            meta,
            body: (chain.body)(hash),
            missing: match meta {
                Some(entries) => (chain.commit)(
                    hash,
                    number,
                    database_meta(supported_entries(entries)),
                ),
                None => None,
            },
        },
        None => BlockFacts { hash: None, meta, body: None, missing: None },
    }
}

/// What a sweep of `chain` is answered at `stage`: every question is answered by
/// what is named in it.
pub open spec fn chain_reply(stage: SweepStageView, chain: Chain) -> SweepReplyView {
    match stage {
        SweepStageView::Hash { number } => SweepReplyView::Hash((chain.hash)(number)),
        SweepStageView::Meta { runtime_number, .. } => SweepReplyView::Meta(
            (chain.indexed)(runtime_number),
        ),
        SweepStageView::Body { block, .. } => SweepReplyView::Body((chain.body)(block)),
        SweepStageView::Commit { number, block, meta } => SweepReplyView::Committed(
            (chain.commit)(block, number, meta),
        ),
        SweepStageView::Done => SweepReplyView::Hash(None),
    }
}

/// How many replies a sweep needs at most.
pub open spec fn replies_left(sweep: SweepView) -> int {
    match sweep.stage {
        SweepStageView::Hash { number } => blocks_left(number, sweep.finalized) + 4,
        SweepStageView::Meta { number, .. } => blocks_left(number, sweep.finalized) + 3,
        SweepStageView::Body { number, .. } => blocks_left(number, sweep.finalized) + 2,
        SweepStageView::Commit { number, .. } => blocks_left(number, sweep.finalized) + 1,
        SweepStageView::Done => 0,
    }
}

/// Room for the replies on the blocks behind `number`.
pub open spec fn blocks_left(number: u64, finalized: u64) -> int {
    if number < finalized {
        4 * (finalized - number)
    } else {
        0
    }
}

/// Every reply that is waited for brings a sweep on.
pub proof fn sweep_moves_on(sweep: SweepView, chain: Chain)
    requires
        !(sweep.stage is Done),
    ensures
        0 <= replies_left(sweep_next(sweep, chain_reply(sweep.stage, chain))) < replies_left(sweep),
{
}

/// Where a sweep of `chain` ends.
pub open spec fn sweep_end(sweep: SweepView, chain: Chain) -> SweepView
    decreases replies_left(sweep),
{
    if sweep.stage is Done {
        sweep
    } else {
        sweep_end(sweep_next(sweep, chain_reply(sweep.stage, chain)), chain)
    }
}

/// The entries of a block that count: the supported ones, where the block is
/// known by hash and the runtime indexed anything in it.
pub open spec fn entries_of(block: BlockFacts) -> Seq<IndexedTransactionInfo> {
    match (block.hash, block.meta) {
        (Some(_), Some(meta)) => supported_entries(meta),
        _ => Seq::empty(),
    }
}

/// Whether the database commits an index for a block.
pub open spec fn committed(block: BlockFacts) -> bool {
    entries_of(block).len() > 0 && block.body == Some(true) && block.missing is Some
}

/// The content hashes in the index that the database commits for a block.
pub open spec fn indexed_in(block: BlockFacts) -> Seq<ContentHash> {
    if committed(block) {
        content_hashes(entries_of(block))
    } else {
        Seq::empty()
    }
}

/// The content hashes whose data the database did not find in a body.
pub open spec fn missing_in(block: BlockFacts) -> Seq<ContentHash> {
    if committed(block) {
        block.missing->0
    } else {
        Seq::empty()
    }
}

/// The content hashes of a block whose body is not here.
pub open spec fn bodyless_in(block: BlockFacts) -> Seq<ContentHash> {
    if block.body == Some(false) {
        content_hashes(entries_of(block))
    } else {
        Seq::empty()
    }
}

/// The content hashes that a block leaves for later.
pub open spec fn deferred_in(block: BlockFacts) -> Seq<ContentHash> {
    missing_in(block) + bodyless_in(block)
}

/// What the blocks from `number` to `last` leave for later, in order.
pub open spec fn deferred_from(chain: Chain, number: int, last: u64) -> Seq<ContentHash>
    decreases last - number + 1,
{
    if number > last {
        Seq::empty()
    } else {
        deferred_in(block_facts(chain, number as u64)) + deferred_from(chain, number + 1, last)
    }
}

/// The entries that count of the blocks from `number` to `last`, in order.
pub open spec fn entries_from(chain: Chain, number: int, last: u64) -> Seq<IndexedTransactionInfo>
    decreases last - number + 1,
{
    if number > last {
        Seq::empty()
    } else {
        entries_of(block_facts(chain, number as u64)) + entries_from(chain, number + 1, last)
    }
}

/// How often `hash` stands in the indexes that the database commits for the
/// blocks from `number` to `last`.
pub open spec fn times_indexed(chain: Chain, number: int, last: u64, hash: ContentHash) -> int
    decreases last - number + 1,
{
    if number > last {
        0
    } else {
        occurrences(indexed_in(block_facts(chain, number as u64)), hash) + times_indexed(
            chain,
            number + 1,
            last,
            hash,
        )
    }
}

/// How often `hash` was indexed in those of the blocks from `number` to `last`
/// whose bodies are not here.
pub open spec fn times_bodyless(chain: Chain, number: int, last: u64, hash: ContentHash) -> int
    decreases last - number + 1,
{
    if number > last {
        0
    } else {
        occurrences(bodyless_in(block_facts(chain, number as u64)), hash) + times_bodyless(
            chain,
            number + 1,
            last,
            hash,
        )
    }
}

/// How many references to `hash` the database counts when it commits the
/// indexes of the blocks from `number` to `last`: one for each entry whose data
/// it found.
pub open spec fn counted_at_once(chain: Chain, number: int, last: u64, hash: ContentHash) -> int
    decreases last - number + 1,
{
    if number > last {
        0
    } else {
        let block = block_facts(chain, number as u64);
        occurrences(indexed_in(block), hash) - occurrences(missing_in(block), hash)
            + counted_at_once(chain, number + 1, last, hash)
    }
}

/// The commits that a sweep of `chain` asks the database for until it ends, in
/// order.
pub open spec fn commits(sweep: SweepView, chain: Chain) -> Seq<SweepStageView>
    decreases replies_left(sweep),
{
    if sweep.stage is Done {
        Seq::empty()
    } else {
        let rest = commits(sweep_next(sweep, chain_reply(sweep.stage, chain)), chain);
        if sweep.stage is Commit {
            seq![sweep.stage] + rest
        } else {
            rest
        }
    }
}

/// Whether the database is asked to commit an index for a block: its hash and
/// its body are there, and an entry of it counts.
pub open spec fn to_commit(block: BlockFacts) -> bool {
    entries_of(block).len() > 0 && block.body == Some(true)
}

/// What the database is asked to commit for block `number`.
pub open spec fn commit_of(number: u64, block: BlockFacts) -> SweepStageView {
    SweepStageView::Commit {
        number,
        block: block.hash->0,
        meta: database_meta(entries_of(block)),
    }
}

/// What the database is asked to commit for the blocks from `number` to `last`.
pub open spec fn commits_from(chain: Chain, number: int, last: u64) -> Seq<SweepStageView>
    decreases last - number + 1,
{
    if number > last {
        Seq::empty()
    } else {
        let rest = commits_from(chain, number + 1, last);
        let block = block_facts(chain, number as u64);
        if to_commit(block) {
            seq![commit_of(number as u64, block)] + rest
        } else {
            rest
        }
    }
}

/// The content hashes in what the database is asked to commit.
pub open spec fn meta_hashes(meta: Seq<IndexedTransactionMeta>) -> Seq<ContentHash> {
    meta.map_values(|entry: IndexedTransactionMeta| entry.content_hash)
}

/// Noting entries in two parts is noting them at once.
pub proof fn entries_add_up(
    known: Map<ContentHash, IndexedTransactionInfo>,
    first: Seq<IndexedTransactionInfo>,
    second: Seq<IndexedTransactionInfo>,
)
    ensures
        with_entries(with_entries(known, first), second) == with_entries(known, first + second),
    decreases second.len(),
{
    if second.len() == 0 {
        assert(first + second =~= first);
    } else {
        assert((first + second).drop_last() =~= first + second.drop_last());
        entries_add_up(known, first, second.drop_last());
    }
}

/// A sweep that is through with block `number`.
pub open spec fn swept(sweep: SweepView, number: u64, block: BlockFacts) -> SweepView {
    SweepView {
        stage: stage_after(number, sweep.finalized),
        pending: with_references(sweep.pending, deferred_in(block)),
        known: with_entries(sweep.known, entries_of(block)),
        finalized: sweep.finalized,
    }
}

proof fn lemma_one_block(sweep: SweepView, chain: Chain, number: u64)
    requires
        sweep.stage == (SweepStageView::Hash { number }),
        number <= sweep.finalized,
    ensures
        ({
            let through = swept(sweep, number, block_facts(chain, number));
            &&& sweep_end(sweep, chain) == sweep_end(through, chain)
            &&& commits(sweep, chain) == if to_commit(block_facts(chain, number)) {
                seq![commit_of(number, block_facts(chain, number))] + commits(through, chain)
            } else {
                commits(through, chain)
            }
        }),
{
    let block = block_facts(chain, number);
    let through = swept(sweep, number, block);
    let none = Seq::<ContentHash>::empty();
    assert(none + none =~= none);
    let hashed = sweep_next(sweep, chain_reply(sweep.stage, chain));
    lemma_one_reply(sweep, chain);
    if block.hash is None {
        assert(hashed == through);
    } else {
        let loaded = sweep_next(hashed, chain_reply(hashed.stage, chain));
        lemma_one_reply(hashed, chain);
        if block.meta is None {
            assert(loaded == through);
        } else if block.meta->0.len() == 0 {
            reveal(Seq::filter);
            assert(entries_of(block) =~= Seq::empty());
            assert(content_hashes(entries_of(block)) =~= none);
            assert(loaded == through);
        } else {
            let looked = sweep_next(loaded, chain_reply(loaded.stage, chain));
            lemma_one_reply(loaded, chain);
            if to_commit(block) {
                let written = sweep_next(looked, chain_reply(looked.stage, chain));
                lemma_one_reply(looked, chain);
                if block.missing is Some {
                    assert(deferred_in(block) =~= block.missing->0);
                }
                assert(written == through);
            } else {
                if block.body == Some(false) {
                    assert(deferred_in(block) =~= content_hashes(entries_of(block)));
                }
                assert(looked == through);
            }
        }
    }
}

/// Where a sweep ends, and what it asks to commit, from one reply to the next.
pub proof fn lemma_one_reply(sweep: SweepView, chain: Chain)
    requires
        !(sweep.stage is Done),
    ensures
        ({
            let next = sweep_next(sweep, chain_reply(sweep.stage, chain));
            &&& sweep_end(sweep, chain) == sweep_end(next, chain)
            &&& commits(sweep, chain) == if sweep.stage is Commit {
                seq![sweep.stage] + commits(next, chain)
            } else {
                commits(next, chain)
            }
        }),
{
}

proof fn lemma_sweep(sweep: SweepView, chain: Chain, number: u64)
    requires
        sweep.stage == (SweepStageView::Hash { number }),
        number <= sweep.finalized,
    ensures
        sweep_end(sweep, chain) == (SweepView {
            stage: SweepStageView::Done,
            pending: with_references(
                sweep.pending,
                deferred_from(chain, number as int, sweep.finalized),
            ),
            known: with_entries(sweep.known, entries_from(chain, number as int, sweep.finalized)),
            finalized: sweep.finalized,
        }),
        commits(sweep, chain) == commits_from(chain, number as int, sweep.finalized),
    decreases sweep.finalized - number,
{
    let last = sweep.finalized;
    let block = block_facts(chain, number);
    let after = swept(sweep, number, block);
    lemma_one_block(sweep, chain, number);
    references_add_up(
        sweep.pending,
        deferred_in(block),
        deferred_from(chain, number + 1, last),
    );
    entries_add_up(sweep.known, entries_of(block), entries_from(chain, number + 1, last));
    if number < last {
        lemma_sweep(after, chain, (number + 1) as u64);
    }
    assert(commits(after, chain) == commits_from(chain, number + 1, last));
}

/// A sweep ends, whatever it is answered. It has then noted, of the supported
/// entries of its blocks in ascending order, the first for each content hash,
/// and has left for later one reference for each entry whose data was not in
/// the body of its block and each entry of a block without a body.
pub proof fn sweep_collects_its_blocks(start: u64, finalized: u64, chain: Chain)
    ensures
        sweep_end(sweep_begin(start, finalized), chain) == (SweepView {
            stage: SweepStageView::Done,
            pending: with_references(
                Map::empty(),
                deferred_from(chain, start as int, finalized),
            ),
            known: with_entries(Map::empty(), entries_from(chain, start as int, finalized)),
            finalized,
        }),
{
    if start <= finalized {
        lemma_sweep(sweep_begin(start, finalized), chain, start);
    }
}

/// The numbers of what is to be committed for the blocks from `number` to `last`
/// are among those blocks and ascend, and each comes with the facts of its
/// block.
proof fn lemma_commits_ascend(chain: Chain, number: int, last: u64)
    requires
        0 <= number,
    ensures
        ({
            let asked = commits_from(chain, number, last);
            &&& forall|i: int|
                0 <= i < asked.len() ==> (#[trigger] asked[i] matches SweepStageView::Commit {
                    number: of,
                    ..
                } && number <= of <= last && to_commit(block_facts(chain, of)) && asked[i]
                    == commit_of(of, block_facts(chain, of)))
            &&& forall|i: int, j: int|
                0 <= i < j < asked.len() ==> (#[trigger] asked[i])->Commit_number < (
                #[trigger] asked[j])->Commit_number
        }),
    decreases last - number + 1,
{
    if number <= last {
        lemma_commits_ascend(chain, number + 1, last);
        let rest = commits_from(chain, number + 1, last);
        let block = block_facts(chain, number as u64);
        if to_commit(block) {
            let asked = seq![commit_of(number as u64, block)] + rest;
            assert forall|i: int| 0 <= i < asked.len() implies (
            #[trigger] asked[i] matches SweepStageView::Commit { number: of, .. } && number <= of
                <= last && to_commit(block_facts(chain, of)) && asked[i] == commit_of(
                of,
                block_facts(chain, of),
            )) by {
                if i > 0 {
                    assert(asked[i] == rest[i - 1]);
                }
            }
            assert forall|i: int, j: int| 0 <= i < j < asked.len() implies (
            #[trigger] asked[i])->Commit_number < (#[trigger] asked[j])->Commit_number by {
                assert(asked[j] == rest[j - 1]);
                if i > 0 {
                    assert(asked[i] == rest[i - 1]);
                }
            }
        }
    }
}

proof fn lemma_commits_cover(chain: Chain, number: int, last: u64, of: u64)
    requires
        0 <= number <= of <= last,
        to_commit(block_facts(chain, of)),
    ensures
        commits_from(chain, number, last).contains(commit_of(of, block_facts(chain, of))),
    decreases last - number + 1,
{
    let rest = commits_from(chain, number + 1, last);
    let block = block_facts(chain, number as u64);
    let asked = commits_from(chain, number, last);
    if number == of {
        assert(asked[0] == commit_of(of, block));
    } else {
        lemma_commits_cover(chain, number + 1, last, of);
        let wanted = commit_of(of, block_facts(chain, of));
        let i = choose|i: int| 0 <= i < rest.len() && rest[i] == wanted;
        if to_commit(block) {
            assert(asked[i + 1] == rest[i]);
        } else {
            assert(asked[i] == rest[i]);
        }
    }
}

/// A sweep asks the database to commit one index for each block of its window
/// whose hash, body and a supported entry are there, in ascending order. It
/// names the block by number and hash, and hands over the supported entries.
pub proof fn every_index_is_committed_once(start: u64, finalized: u64, chain: Chain)
    ensures
        ({
            let asked = commits(sweep_begin(start, finalized), chain);
            &&& asked == commits_from(chain, start as int, finalized)
            &&& forall|i: int|
                0 <= i < asked.len() ==> (#[trigger] asked[i] matches SweepStageView::Commit {
                    number,
                    ..
                } && start <= number <= finalized && to_commit(block_facts(chain, number))
                    && asked[i] == commit_of(number, block_facts(chain, number)))
            &&& forall|i: int, j: int|
                0 <= i < j < asked.len() ==> (#[trigger] asked[i])->Commit_number < (
                #[trigger] asked[j])->Commit_number
            &&& forall|number: u64|
                start <= number <= finalized && to_commit(#[trigger] block_facts(chain, number))
                    ==> asked.contains(commit_of(number, block_facts(chain, number)))
        }),
{
    if start <= finalized {
        lemma_sweep(sweep_begin(start, finalized), chain, start);
    }
    lemma_commits_ascend(chain, start as int, finalized);
    let asked = commits_from(chain, start as int, finalized);
    assert forall|number: u64|
        start <= number <= finalized && to_commit(
            #[trigger] block_facts(chain, number),
        ) implies asked.contains(commit_of(number, block_facts(chain, number))) by {
        lemma_commits_cover(chain, start as int, finalized, number);
    }
}

/// The index that the database commits for a block holds the content hashes that
/// the sweep asked it to commit, in their order; where the commit fails, or was
/// not asked for, none.
pub proof fn index_holds_what_was_committed(number: u64, block: BlockFacts)
    ensures
        committed(block) <==> to_commit(block) && block.missing is Some,
        indexed_in(block) == if committed(block) {
            meta_hashes(commit_of(number, block)->Commit_meta)
        } else {
            Seq::empty()
        },
{
    assert(meta_hashes(database_meta(entries_of(block))) =~= content_hashes(entries_of(block)));
}

proof fn lemma_entries_supported(
    known: Map<ContentHash, IndexedTransactionInfo>,
    entries: Seq<IndexedTransactionInfo>,
)
    requires
        forall|i: int| 0 <= i < entries.len() ==> supported(#[trigger] entries[i]),
        forall|hash: ContentHash| #[trigger]
            known.contains_key(hash) ==> known[hash].content_hash == hash && supported(known[hash]),
    ensures
        forall|hash: ContentHash| #[trigger]
            with_entries(known, entries).contains_key(hash) ==> with_entries(
                known,
                entries,
            )[hash].content_hash == hash && supported(with_entries(known, entries)[hash]),
    decreases entries.len(),
{
    if entries.len() > 0 {
        assert(supported(entries[entries.len() - 1]));
        lemma_entries_supported(known, entries.drop_last());
    }
}

proof fn lemma_filtered_supported(meta: Seq<IndexedTransactionInfo>)
    ensures
        forall|i: int|
            0 <= i < supported_entries(meta).len() ==> supported(
                #[trigger] supported_entries(meta)[i],
            ),
    decreases meta.len(),
{
    reveal(Seq::filter);
    if meta.len() > 0 {
        lemma_filtered_supported(meta.drop_last());
    }
}

proof fn lemma_all_supported(chain: Chain, number: int, last: u64)
    ensures
        forall|i: int|
            0 <= i < entries_from(chain, number, last).len() ==> supported(
                #[trigger] entries_from(chain, number, last)[i],
            ),
    decreases last - number + 1,
{
    if number <= last {
        let block = block_facts(chain, number as u64);
        if block.hash is Some && block.meta is Some {
            lemma_filtered_supported(block.meta->0);
        }
        lemma_all_supported(chain, number + 1, last);
        let first = entries_of(block);
        let rest = entries_from(chain, number + 1, last);
        assert forall|i: int| 0 <= i < (first + rest).len() implies supported(
            #[trigger] (first + rest)[i],
        ) by {
            if i < first.len() {
                assert(supported(first[i]));
            } else {
                assert(supported(rest[i - first.len()]));
            }
        }
    }
}

/// Everything that a sweep has noted is supported, and is noted under its own
/// content hash.
pub proof fn noted_entries_are_supported(
    start: u64,
    finalized: u64,
    chain: Chain,
    hash: ContentHash,
)
    ensures
        ({
            let known = sweep_end(sweep_begin(start, finalized), chain).known;
            known.contains_key(hash) ==> known[hash].content_hash == hash && supported(known[hash])
        }),
{
    sweep_collects_its_blocks(start, finalized, chain);
    lemma_all_supported(chain, start as int, finalized);
    lemma_entries_supported(Map::empty(), entries_from(chain, start as int, finalized));
}

proof fn lemma_deferred_occurrences(chain: Chain, number: int, last: u64, hash: ContentHash)
    ensures
        counted_at_once(chain, number, last, hash) + occurrences(
            deferred_from(chain, number, last),
            hash,
        ) == times_indexed(chain, number, last, hash) + times_bodyless(chain, number, last, hash),
    decreases last - number + 1,
{
    if number <= last {
        let block = block_facts(chain, number as u64);
        occurrences_add_up(deferred_in(block), deferred_from(chain, number + 1, last), hash);
        occurrences_add_up(missing_in(block), bodyless_in(block), hash);
        lemma_deferred_occurrences(chain, number + 1, last, hash);
    }
}

/// A sweep loses no reference and makes none up: what the database counts at
/// once and what is left for later is, for every content hash, what stands in
/// the committed indexes and what was indexed in blocks without bodies.
pub proof fn sweep_accounts_for_every_reference(
    start: u64,
    finalized: u64,
    chain: Chain,
    hash: ContentHash,
)
    requires
        references_fit(Map::empty(), deferred_from(chain, start as int, finalized)),
    ensures
        counted_at_once(chain, start as int, finalized, hash) + count_of(
            sweep_end(sweep_begin(start, finalized), chain).pending,
            hash,
        ) == times_indexed(chain, start as int, finalized, hash) + times_bodyless(
            chain,
            start as int,
            finalized,
            hash,
        ),
{
    let deferred = deferred_from(chain, start as int, finalized);
    sweep_collects_its_blocks(start, finalized, chain);
    references_are_counted(Map::empty(), deferred);
    assert(count_of(with_references(Map::empty(), deferred), hash) == count_of(
        Map::empty(),
        hash,
    ) + occurrences(deferred, hash));
    lemma_deferred_occurrences(chain, start as int, finalized, hash);
}

/// After the sweep and the work that follows it, the database has counted, for
/// every content hash that could be resolved, one reference for each entry in
/// the committed indexes and for each entry of a block without a body.
pub proof fn every_reference_is_counted(
    start: u64,
    finalized: u64,
    chain: Chain,
    pending: Seq<(ContentHash, u32)>,
    answers: Answers,
    hash: ContentHash,
)
    requires
        references_fit(Map::empty(), deferred_from(chain, start as int, finalized)),
        hashes_differ(pending),
        pairs_as_map(pending) == sweep_end(sweep_begin(start, finalized), chain).pending,
        resolvable(sweep_end(sweep_begin(start, finalized), chain).known, answers, hash),
    ensures
        ({
            let known = sweep_end(sweep_begin(start, finalized), chain).known;
            counted_at_once(chain, start as int, finalized, hash) + references_written(
                writes(resolve_from(pending, known, 0), answers),
                hash,
            ) == times_indexed(chain, start as int, finalized, hash) + times_bodyless(
                chain,
                start as int,
                finalized,
                hash,
            )
        }),
{
    let known = sweep_end(sweep_begin(start, finalized), chain).known;
    sweep_accounts_for_every_reference(start, finalized, chain, hash);
    pending_references_are_made_up(pending, known, answers, hash);
}

/// Where no block of the window lacks its body, a resolved content hash is
/// counted as often as it stands in the committed indexes.
pub proof fn counters_match_the_index(
    start: u64,
    finalized: u64,
    chain: Chain,
    pending: Seq<(ContentHash, u32)>,
    answers: Answers,
    hash: ContentHash,
)
    requires
        references_fit(Map::empty(), deferred_from(chain, start as int, finalized)),
        hashes_differ(pending),
        pairs_as_map(pending) == sweep_end(sweep_begin(start, finalized), chain).pending,
        resolvable(sweep_end(sweep_begin(start, finalized), chain).known, answers, hash),
        forall|number: u64|
            start <= number <= finalized ==> (#[trigger] block_facts(chain, number)).body != Some(
                false,
            ),
    ensures
        ({
            let known = sweep_end(sweep_begin(start, finalized), chain).known;
            counted_at_once(chain, start as int, finalized, hash) + references_written(
                writes(resolve_from(pending, known, 0), answers),
                hash,
            ) == times_indexed(chain, start as int, finalized, hash)
        }),
{
    every_reference_is_counted(start, finalized, chain, pending, answers, hash);
    lemma_no_bodyless(chain, start as int, start, finalized, hash);
}

proof fn lemma_no_bodyless(chain: Chain, number: int, start: u64, last: u64, hash: ContentHash)
    requires
        start <= number,
        forall|n: u64|
            start <= n <= last ==> (#[trigger] block_facts(chain, n)).body != Some(false),
    ensures
        times_bodyless(chain, number, last, hash) == 0,
    decreases last - number + 1,
{
    if number <= last {
        assert(block_facts(chain, number as u64).body != Some(false));
        lemma_no_bodyless(chain, number + 1, start, last, hash);
    }
}

/// A block without an entry that counts leaves no trace in a sweep: nothing is
/// committed for it, nothing noted and nothing left for later.
pub proof fn block_without_entries_leaves_no_trace(
    sweep: SweepView,
    number: u64,
    block: BlockFacts,
)
    requires
        entries_of(block).len() == 0,
    ensures
        !to_commit(block),
        swept(sweep, number, block) == (SweepView {
            stage: stage_after(number, sweep.finalized),
            ..sweep
        }),
{
    assert(deferred_in(block) =~= Seq::empty());
}

} // verus!

//! Making up for the references that a sweep left for later.

use crate::bytes::ContentHash;
use crate::content_map::{has_pair, hashes_differ, lemma_pair_value, pairs_as_map, ContentMap};
use crate::hashing::blake2_256;
use crate::indexed_transactions::{is_supported, supported, IndexedTransactionInfo};
use crate::references::count_of;
use vstd::prelude::*;

verus! {

/// What is to be done next.
#[derive(Clone, Debug, PartialEq, Eq)]
pub enum ResolveStage {
    /// To find out whether the database holds the content.
    Lookup { hash: ContentHash, count: u32 },
    /// To add this many references to content that the database holds.
    Bump { hash: ContentHash, count: u32 },
    /// To fetch the content from peers.
    Fetch { hash: ContentHash, count: u32 },
    /// To store content with this many references.
    Store { hash: ContentHash, data: Vec<u8>, count: u32 },
    /// Nothing any more.
    Done,
}

/// What a [`ResolveStage`] says.
#[verifier::ext_equal]
pub enum ResolveStageView {
    Lookup { hash: ContentHash, count: u32 },
    Bump { hash: ContentHash, count: u32 },
    Fetch { hash: ContentHash, count: u32 },
    Store { hash: ContentHash, data: Seq<u8>, count: u32 },
    Done,
}

impl View for ResolveStage {
    type V = ResolveStageView;

    open spec fn view(&self) -> ResolveStageView {
        match self {
            ResolveStage::Lookup { hash, count } => ResolveStageView::Lookup {
                hash: *hash,
                count: *count,
            },
            ResolveStage::Bump { hash, count } => ResolveStageView::Bump {
                hash: *hash,
                count: *count,
            },
            ResolveStage::Fetch { hash, count } => ResolveStageView::Fetch {
                hash: *hash,
                count: *count,
            },
            ResolveStage::Store { hash, data, count } => ResolveStageView::Store {
                hash: *hash,
                data: data@,
                count: *count,
            },
            ResolveStage::Done => ResolveStageView::Done,
        }
    }
}

/// What came of what was to be done.
#[derive(Clone, Debug, PartialEq, Eq)]
pub enum ResolveReply {
    /// Whether the database holds the content; `None` where it could not be
    /// found out.
    Held(Option<bool>),
    /// The content, if any peer had it.
    Fetched(Option<Vec<u8>>),
    /// The database was told to write, with or without success.
    Written,
}

/// What a [`ResolveReply`] says.
#[verifier::ext_equal]
pub enum ResolveReplyView {
    Held(Option<bool>),
    Fetched(Option<Seq<u8>>),
    Written,
}

impl View for ResolveReply {
    type V = ResolveReplyView;

    open spec fn view(&self) -> ResolveReplyView {
        match self {
            ResolveReply::Held(held) => ResolveReplyView::Held(*held),
            ResolveReply::Fetched(Some(data)) => ResolveReplyView::Fetched(Some(data@)),
            ResolveReply::Fetched(None) => ResolveReplyView::Fetched(None),
            ResolveReply::Written => ResolveReplyView::Written,
        }
    }
}

/// Where the work stands.
#[verifier::ext_equal]
pub struct ResolveView {
    /// The references to make up for.
    pub pending: Seq<(ContentHash, u32)>,
    /// What is known of each content hash.
    pub known: Map<ContentHash, IndexedTransactionInfo>,
    /// The position in `pending` of what is being done.
    pub at: nat,
    /// What is to be done next.
    pub stage: ResolveStageView,
}

/// The first position from `at` on whose count is not zero, or the end.
pub open spec fn first_counted(pending: Seq<(ContentHash, u32)>, at: nat) -> nat
    decreases pending.len() - at,
{
    if at >= pending.len() || pending[at as int].1 != 0 {
        at
    } else {
        first_counted(pending, at + 1)
    }
}

/// The work where everything before `at` is done.
pub open spec fn resolve_from(
    pending: Seq<(ContentHash, u32)>,
    known: Map<ContentHash, IndexedTransactionInfo>,
    at: nat,
) -> ResolveView {
    let next = first_counted(pending, at);
    ResolveView {
        pending,
        known,
        at: next,
        stage: if next < pending.len() {
            ResolveStageView::Lookup {
                hash: pending[next as int].0,
                count: pending[next as int].1,
            }
        } else {
            ResolveStageView::Done
        },
    }
}

/// Whether content that is not in the database is worth fetching.
pub open spec fn fetchable(
    known: Map<ContentHash, IndexedTransactionInfo>,
    hash: ContentHash,
) -> bool {
    known.contains_key(hash) && supported(known[hash])
}

/// What becomes of the work with a reply. One that does not fit changes
/// nothing.
pub open spec fn resolve_next(work: ResolveView, reply: ResolveReplyView) -> ResolveView {
    let done = resolve_from(work.pending, work.known, work.at + 1);
    match (work.stage, reply) {
        (ResolveStageView::Lookup { hash, count }, ResolveReplyView::Held(held)) => if held == Some(
            true,
        ) {
            ResolveView { stage: ResolveStageView::Bump { hash, count }, ..work }
        } else if fetchable(work.known, hash) {
            ResolveView { stage: ResolveStageView::Fetch { hash, count }, ..work }
        } else {
            done
        },
        (ResolveStageView::Bump { .. }, ResolveReplyView::Written) => done,
        (
            ResolveStageView::Fetch { hash, count },
            ResolveReplyView::Fetched(Some(data)),
        ) => ResolveView { stage: ResolveStageView::Store { hash, data, count }, ..work },
        (ResolveStageView::Fetch { .. }, ResolveReplyView::Fetched(None)) => done,
        (ResolveStageView::Store { .. }, ResolveReplyView::Written) => done,
        _ => work,
    }
}

/// The work of making up for the references that a sweep left for later. It
/// says what is to be done next, and goes on with what came of it.
pub struct ResolvePending {
    pending: ContentMap<u32>,
    known: ContentMap<IndexedTransactionInfo>,
    at: usize,
    stage: ResolveStage,
}

impl View for ResolvePending {
    type V = ResolveView;

    closed spec fn view(&self) -> ResolveView {
        ResolveView {
            pending: self.pending.pairs(),
            known: self.known@,
            at: self.at as nat,
            stage: self.stage@,
        }
    }
}

impl ResolvePending {
    /// The work is at a position of the list, or through with it.
    pub closed spec fn wf(self) -> bool {
        &&& self.pending.wf()
        &&& self.known.wf()
        &&& self.at <= self.pending.pairs().len()
        &&& !(self.stage is Done) ==> self.at < self.pending.pairs().len()
    }

    /// The work of making up for `pending`.
    pub fn new(
        pending: ContentMap<u32>,
        known: ContentMap<IndexedTransactionInfo>,
    ) -> (work: Self)
        requires
            pending.wf(),
            known.wf(),
        ensures
            work.wf(),
            work@ == resolve_from(pending.pairs(), known@, 0),
    {
        let mut work = ResolvePending { pending, known, at: 0, stage: ResolveStage::Done };
        work.advance(0);
        work
    }

    fn advance(&mut self, at: usize)
        requires
            old(self).wf(),
            at <= old(self)@.pending.len(),
        ensures
            final(self).wf(),
            final(self)@ == resolve_from(old(self)@.pending, old(self)@.known, at as nat),
    {
        let mut next: usize = at;
        while next < self.pending.len() && self.pending.pair(next).1 == 0
            invariant
                self.wf(),
                *self == *old(self),
                next <= self@.pending.len(),
                first_counted(self@.pending, at as nat) == first_counted(
                    self@.pending,
                    next as nat,
                ),
            decreases self@.pending.len() - next,
        {
            next += 1;
        }
        self.at = next;
        if next < self.pending.len() {
            let (hash, count): (ContentHash, u32) = self.pending.pair(next);
            self.stage = ResolveStage::Lookup { hash, count };
        } else {
            self.stage = ResolveStage::Done;
        }
    }

    fn next_pair(&mut self)
        requires
            old(self).wf(),
            old(self)@.at < old(self)@.pending.len(),
        ensures
            final(self).wf(),
            final(self)@ == resolve_from(
                old(self)@.pending,
                old(self)@.known,
                old(self)@.at + 1,
            ),
    {
        if self.at < self.pending.len() {
            self.advance(self.at + 1);
        }
    }

    /// How many content hashes there are to make up for.
    pub fn pending_len(&self) -> (count: usize)
        ensures
            count == self@.pending.len(),
    {
        self.pending.len()
    }

    /// What is to be done next.
    pub fn stage(&self) -> (stage: &ResolveStage)
        ensures
            stage@ == self@.stage,
    {
        &self.stage
    }

    /// Goes on with what came of it. A reply that does not fit changes nothing.
    pub fn take(&mut self, reply: ResolveReply)
        requires
            old(self).wf(),
        ensures
            final(self).wf(),
            final(self)@ == resolve_next(old(self)@, reply@),
    {
        let mut stage: ResolveStage = ResolveStage::Done;
        core::mem::swap(&mut stage, &mut self.stage);
        match (stage, reply) {
            (ResolveStage::Lookup { hash, count }, ResolveReply::Held(held)) => {
                let is_held: bool = match held {
                    Some(is_held) => is_held,
                    None => false,
                };
                let worth_fetching: bool = match self.known.get(&hash) {
                    Some(info) => is_supported(&info),
                    None => false,
                };
                if is_held {
                    self.stage = ResolveStage::Bump { hash, count };
                } else if worth_fetching {
                    self.stage = ResolveStage::Fetch { hash, count };
                } else {
                    self.next_pair();
                }
            },
            (ResolveStage::Bump { .. }, ResolveReply::Written) => self.next_pair(),
            (ResolveStage::Fetch { hash, count }, ResolveReply::Fetched(Some(data))) => {
                self.stage = ResolveStage::Store { hash, data, count };
            },
            (ResolveStage::Fetch { .. }, ResolveReply::Fetched(None)) => self.next_pair(),
            (ResolveStage::Store { .. }, ResolveReply::Written) => self.next_pair(),
            (stage, _) => {
                self.stage = stage;
            },
        }
    }
}

/// What the database and the peers answer, by content hash.
pub struct Answers {
    /// Whether the database holds the content.
    pub held: spec_fn(ContentHash) -> Option<bool>,
    /// The content that a peer has.
    pub fetched: spec_fn(ContentHash) -> Option<Seq<u8>>,
}

/// What comes of what is to be done next.
pub open spec fn reply_from(stage: ResolveStageView, answers: Answers) -> ResolveReplyView {
    match stage {
        ResolveStageView::Lookup { hash, .. } => ResolveReplyView::Held((answers.held)(hash)),
        ResolveStageView::Fetch { hash, .. } => ResolveReplyView::Fetched((answers.fetched)(hash)),
        _ => ResolveReplyView::Written,
    }
}

/// How many replies are needed at most.
pub open spec fn work_left(work: ResolveView) -> int {
    if work.stage is Done || work.at >= work.pending.len() {
        0
    } else {
        4 * (work.pending.len() - work.at) + match work.stage {
            ResolveStageView::Lookup { .. } => 3,
            ResolveStageView::Fetch { .. } => 2,
            _ => 1int,
        }
    }
}

proof fn lemma_first_counted(pending: Seq<(ContentHash, u32)>, at: nat)
    ensures
        first_counted(pending, at) >= at,
    decreases pending.len() - at,
{
    if at < pending.len() && pending[at as int].1 == 0 {
        lemma_first_counted(pending, at + 1);
    }
}

/// Every reply that is waited for brings the work on.
pub proof fn resolve_moves_on(work: ResolveView, answers: Answers)
    requires
        work_left(work) != 0,
    ensures
        0 <= work_left(resolve_next(work, reply_from(work.stage, answers))) < work_left(work),
{
    lemma_first_counted(work.pending, work.at + 1);
}

/// What is written to the database until the work is done, in order.
pub open spec fn writes(work: ResolveView, answers: Answers) -> Seq<ResolveStageView>
    decreases work_left(work),
    via writes_end
{
    if work_left(work) == 0 {
        Seq::empty()
    } else {
        let rest = writes(resolve_next(work, reply_from(work.stage, answers)), answers);
        if work.stage is Bump || work.stage is Store {
            seq![work.stage] + rest
        } else {
            rest
        }
    }
}

#[via_fn]
proof fn writes_end(work: ResolveView, answers: Answers) {
    lemma_first_counted(work.pending, work.at + 1);
}

/// Whether content can be given its references.
pub open spec fn resolvable(
    known: Map<ContentHash, IndexedTransactionInfo>,
    answers: Answers,
    hash: ContentHash,
) -> bool {
    ||| (answers.held)(hash) == Some(true)
    ||| fetchable(known, hash) && (answers.fetched)(hash) is Some
}

/// What is written for one pending pair: references where the database holds
/// the content, else the content with its references where a peer has it.
pub open spec fn write_for(
    pair: (ContentHash, u32),
    known: Map<ContentHash, IndexedTransactionInfo>,
    answers: Answers,
) -> Seq<ResolveStageView> {
    if pair.1 == 0 || !resolvable(known, answers, pair.0) {
        Seq::empty()
    } else if (answers.held)(pair.0) == Some(true) {
        seq![ResolveStageView::Bump { hash: pair.0, count: pair.1 }]
    } else {
        seq![
            ResolveStageView::Store {
                hash: pair.0,
                data: (answers.fetched)(pair.0)->0,
                count: pair.1,
            },
        ]
    }
}

/// What is written for the pairs from `at` on.
pub open spec fn writes_from(
    pending: Seq<(ContentHash, u32)>,
    at: nat,
    known: Map<ContentHash, IndexedTransactionInfo>,
    answers: Answers,
) -> Seq<ResolveStageView>
    decreases pending.len() - at,
{
    if at >= pending.len() {
        Seq::empty()
    } else {
        write_for(pending[at as int], known, answers) + writes_from(
            pending,
            at + 1,
            known,
            answers,
        )
    }
}

proof fn lemma_writes(
    pending: Seq<(ContentHash, u32)>,
    at: nat,
    known: Map<ContentHash, IndexedTransactionInfo>,
    answers: Answers,
)
    ensures
        writes(resolve_from(pending, known, at), answers) == writes_from(
            pending,
            at,
            known,
            answers,
        ),
    decreases pending.len() - at,
{
    let work = resolve_from(pending, known, at);
    if at < pending.len() {
        let (hash, count) = pending[at as int];
        let behind = resolve_from(pending, known, at + 1);
        lemma_writes(pending, at + 1, known, answers);
        if count == 0 {
            assert(work == behind);
            assert(write_for(pending[at as int], known, answers) =~= Seq::empty());
        } else {
            let looked = resolve_next(work, reply_from(work.stage, answers));
            assert(writes(work, answers) == writes(looked, answers));
            if (answers.held)(hash) == Some(true) {
                assert(resolve_next(looked, reply_from(looked.stage, answers)) == behind);
                assert(writes(looked, answers) == seq![looked.stage] + writes(behind, answers));
            } else if fetchable(known, hash) {
                let fetched = resolve_next(looked, reply_from(looked.stage, answers));
                assert(writes(looked, answers) == writes(fetched, answers));
                if (answers.fetched)(hash) is Some {
                    assert(resolve_next(fetched, reply_from(fetched.stage, answers)) == behind);
                    assert(writes(fetched, answers) == seq![fetched.stage] + writes(
                        behind,
                        answers,
                    ));
                } else {
                    assert(fetched == behind);
                }
            } else {
                assert(looked == behind);
            }
        }
        assert(Seq::<ResolveStageView>::empty() + writes(behind, answers) =~= writes(
            behind,
            answers,
        ));
    }
}

/// The whole work writes, for every pending pair in turn, what is to be written
/// for it, and nothing else.
pub proof fn every_pending_pair_is_written_once(
    pending: Seq<(ContentHash, u32)>,
    known: Map<ContentHash, IndexedTransactionInfo>,
    answers: Answers,
)
    ensures
        writes(resolve_from(pending, known, 0), answers) == writes_from(
            pending,
            0,
            known,
            answers,
        ),
{
    lemma_writes(pending, 0, known, answers);
}

/// If peers bring only content that has the hash it was asked for by, then only
/// such content is stored.
pub proof fn stored_content_has_its_hash(
    pending: Seq<(ContentHash, u32)>,
    known: Map<ContentHash, IndexedTransactionInfo>,
    answers: Answers,
)
    requires
        forall|hash: ContentHash|
            #[trigger] (answers.fetched)(hash) matches Some(data) ==> blake2_256(data) == hash@,
    ensures
        forall|i: int|
            0 <= i < writes(resolve_from(pending, known, 0), answers).len() ==> (
            #[trigger] writes(
                resolve_from(pending, known, 0),
                answers,
            )[i] matches ResolveStageView::Store { hash, data, .. } ==> blake2_256(data) == hash@),
{
    lemma_writes(pending, 0, known, answers);
    lemma_stored_content(pending, 0, known, answers);
}

proof fn lemma_stored_content(
    pending: Seq<(ContentHash, u32)>,
    at: nat,
    known: Map<ContentHash, IndexedTransactionInfo>,
    answers: Answers,
)
    requires
        forall|hash: ContentHash|
            #[trigger] (answers.fetched)(hash) matches Some(data) ==> blake2_256(data) == hash@,
    ensures
        forall|i: int|
            0 <= i < writes_from(pending, at, known, answers).len() ==> (
            #[trigger] writes_from(pending, at, known, answers)[i] matches ResolveStageView::Store {
                hash,
                data,
                ..
            } ==> blake2_256(data) == hash@),
    decreases pending.len() - at,
{
    if at < pending.len() {
        let first = write_for(pending[at as int], known, answers);
        let rest = writes_from(pending, at + 1, known, answers);
        lemma_stored_content(pending, at + 1, known, answers);
        assert forall|i: int| 0 <= i < (first + rest).len() implies (
        #[trigger] (first + rest)[i] matches ResolveStageView::Store { hash, data, .. }
            ==> blake2_256(data) == hash@) by {
            if i >= first.len() {
                assert((first + rest)[i] == rest[i - first.len()]);
            }
        }
    }
}

/// How many references to `hash` a list of writes adds.
pub open spec fn references_written(written: Seq<ResolveStageView>, hash: ContentHash) -> nat
    decreases written.len(),
{
    if written.len() == 0 {
        0
    } else {
        references_written(written.drop_first(), hash) + match written[0] {
            ResolveStageView::Bump { hash: of, count } if of == hash => count as nat,
            ResolveStageView::Store { hash: of, count, .. } if of == hash => count as nat,
            _ => 0,
        }
    }
}

proof fn lemma_references_written(
    pending: Seq<(ContentHash, u32)>,
    at: nat,
    known: Map<ContentHash, IndexedTransactionInfo>,
    answers: Answers,
    hash: ContentHash,
)
    requires
        hashes_differ(pending),
    ensures
        references_written(writes_from(pending, at, known, answers), hash) == if (exists|i: int|
            at <= i < pending.len() && (#[trigger] pending[i]).0 == hash) && resolvable(
            known,
            answers,
            hash,
        ) {
            count_of(pairs_as_map(pending), hash)
        } else {
            0
        },
    decreases pending.len() - at,
{
    if at < pending.len() {
        let pair = pending[at as int];
        let first = write_for(pair, known, answers);
        let rest = writes_from(pending, at + 1, known, answers);
        lemma_references_written(pending, at + 1, known, answers, hash);
        if first.len() == 0 {
            assert(first + rest =~= rest);
        } else {
            assert((first + rest).drop_first() =~= rest);
            assert((first + rest)[0] == first[0]);
        }
        if pair.0 == hash {
            lemma_pair_value(pending, at as int);
            assert forall|i: int| at + 1 <= i < pending.len() implies (#[trigger] pending[i]).0
                != hash by {
                assert(pending[at as int].0 != pending[i].0);
            }
        } else {
            assert((exists|i: int| at <= i < pending.len() && (#[trigger] pending[i]).0 == hash)
                == (exists|i: int|
                at + 1 <= i < pending.len() && (#[trigger] pending[i]).0 == hash));
        }
    }
}

/// Every pending hash that can be resolved gains exactly the references that
/// were left for it, and no other hash gains any.
pub proof fn pending_references_are_made_up(
    pending: Seq<(ContentHash, u32)>,
    known: Map<ContentHash, IndexedTransactionInfo>,
    answers: Answers,
    hash: ContentHash,
)
    requires
        hashes_differ(pending),
    ensures
        references_written(writes(resolve_from(pending, known, 0), answers), hash)
            == if resolvable(known, answers, hash) {
            count_of(pairs_as_map(pending), hash)
        } else {
            0
        },
{
    lemma_writes(pending, 0, known, answers);
    lemma_references_written(pending, 0, known, answers, hash);
    assert(has_pair(pending, hash) == (exists|i: int|
        0 <= i < pending.len() && (#[trigger] pending[i]).0 == hash));
}

} // verus!

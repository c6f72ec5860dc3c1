//! Fetching content from one peer after the other.

use crate::bitswap::{
    fetched_data_has_the_wanted_hash, outcome_of, reply_outcome, BitswapError, BitswapReply,
    Outcome,
};
use crate::hashing::blake2_256;
use vstd::prelude::*;

verus! {

/// How many peers are asked for one piece of content.
pub const MAX_PEERS_PER_HASH: usize = 8;

/// How many seconds a peer has to answer.
pub const BITSWAP_PER_PEER_TIMEOUT_SECS: u64 = 5;

/// What comes of asking a peer; `None` where it did not answer in time.
pub type PeerAnswer = Option<Result<Option<Vec<u8>>, BitswapError>>;

/// What an answer says.
pub open spec fn answer_outcome(answer: PeerAnswer) -> Option<Outcome> {
    match answer {
        Some(result) => Some(outcome_of(result)),
        None => None,
    }
}

/// The data that an answer brings.
pub open spec fn answer_data(outcome: Option<Outcome>) -> Option<Seq<u8>> {
    match outcome {
        Some(Ok(Some(data))) => Some(data),
        _ => None,
    }
}

/// Where a fetch stands.
#[derive(Clone, Debug, PartialEq, Eq)]
pub enum PeerStage {
    /// The peer at this position is to be asked.
    Ask(usize),
    /// No one is to be asked any more; this is the content, if any peer had it.
    Finished(Option<Vec<u8>>),
}

/// What a [`PeerStage`] says.
#[verifier::ext_equal]
pub enum PeerStageView {
    Ask(nat),
    Finished(Option<Seq<u8>>),
}

impl View for PeerStage {
    type V = PeerStageView;

    open spec fn view(&self) -> PeerStageView {
        match self {
            PeerStage::Ask(at) => PeerStageView::Ask(*at as nat),
            PeerStage::Finished(Some(data)) => PeerStageView::Finished(Some(data@)),
            PeerStage::Finished(None) => PeerStageView::Finished(None),
        }
    }
}

/// How many of so many peers are asked; `None` where the peers are not known.
pub open spec fn peers_asked(peers: Option<usize>) -> nat {
    match peers {
        Some(count) => if count <= MAX_PEERS_PER_HASH {
            count as nat
        } else {
            MAX_PEERS_PER_HASH as nat
        },
        None => 0,
    }
}

/// Where a fetch stands before the peer at `at` of `asked` peers.
pub open spec fn peer_stage(at: nat, asked: nat) -> PeerStageView {
    if at < asked {
        PeerStageView::Ask(at)
    } else {
        PeerStageView::Finished(None)
    }
}

/// What a fetch makes of an answer: the first data ends it, everything else
/// sends it on to the next peer.
pub open spec fn peer_next(
    stage: PeerStageView,
    asked: nat,
    outcome: Option<Outcome>,
) -> PeerStageView {
    match stage {
        PeerStageView::Ask(at) => match answer_data(outcome) {
            Some(data) => PeerStageView::Finished(Some(data)),
            None => peer_stage(at + 1, asked),
        },
        PeerStageView::Finished(_) => stage,
    }
}

/// A fetch of one piece of content from peers, one after the other.
pub struct PeerFetch {
    asked: usize,
    stage: PeerStage,
}

impl PeerFetch {
    /// Where the fetch stands.
    pub closed spec fn at(self) -> PeerStageView {
        self.stage@
    }

    /// How many peers it asks at most.
    pub closed spec fn asked(self) -> nat {
        self.asked as nat
    }

    /// The peer to ask is one of those that are asked.
    pub closed spec fn wf(self) -> bool {
        self.stage matches PeerStage::Ask(at) ==> at < self.asked
    }

    /// A fetch from so many peers; `None` where the peers are not known.
    pub fn new(peers: Option<usize>) -> (fetch: Self)
        ensures
            fetch.wf(),
            fetch.asked() == peers_asked(peers),
            fetch.at() == peer_stage(0, peers_asked(peers)),
    {
        let asked: usize = match peers {
            Some(count) => if count <= MAX_PEERS_PER_HASH {
                count
            } else {
                MAX_PEERS_PER_HASH
            },
            None => 0,
        };
        let stage: PeerStage = if 0 < asked {
            PeerStage::Ask(0)
        } else {
            PeerStage::Finished(None)
        };
        PeerFetch { asked, stage }
    }

    /// Where the fetch stands.
    pub fn stage(&self) -> (stage: &PeerStage)
        ensures
            stage@ == self.at(),
    {
        &self.stage
    }

    /// Goes on with the answer of the peer that was to be asked.
    pub fn take(&mut self, answer: PeerAnswer)
        requires
            old(self).wf(),
        ensures
            final(self).wf(),
            final(self).asked() == old(self).asked(),
            final(self).at() == peer_next(
                old(self).at(),
                old(self).asked(),
                answer_outcome(answer),
            ),
    {
        match self.stage {
            PeerStage::Ask(at) => {
                match answer {
                    Some(Ok(Some(data))) => {
                        self.stage = PeerStage::Finished(Some(data));
                    },
                    _ => {
                        if at + 1 < self.asked {
                            self.stage = PeerStage::Ask(at + 1);
                        } else {
                            self.stage = PeerStage::Finished(None);
                        }
                    },
                }
            },
            PeerStage::Finished(_) => {},
        }
    }

    /// The content, if any peer that was asked had it.
    pub fn into_data(self) -> (data: Option<Vec<u8>>)
        ensures
            match data {
                Some(found) => self.at() == PeerStageView::Finished(Some(found@)),
                None => self.at() is Ask || self.at() == PeerStageView::Finished(None),
            },
    {
        match self.stage {
            PeerStage::Ask(_) => None,
            PeerStage::Finished(data) => data,
        }
    }
}

/// Where a fetch from `asked` peers ends that stands at `stage`, with these
/// answers.
pub open spec fn peers_end(
    stage: PeerStageView,
    asked: nat,
    answers: Seq<Option<Outcome>>,
) -> PeerStageView
    decreases
            asked - match stage {
                PeerStageView::Ask(at) => at,
                PeerStageView::Finished(_) => asked,
            },
{
    match stage {
        PeerStageView::Ask(at) => if at < asked {
            peers_end(peer_next(stage, asked, answers[at as int]), asked, answers)
        } else {
            stage
        },
        PeerStageView::Finished(_) => stage,
    }
}

/// The first data among the answers from `at` on.
pub open spec fn first_data(answers: Seq<Option<Outcome>>, at: int) -> Option<Seq<u8>>
    decreases answers.len() - at,
{
    if at >= answers.len() {
        None
    } else {
        match answer_data(answers[at]) {
            Some(data) => Some(data),
            None => first_data(answers, at + 1),
        }
    }
}

proof fn lemma_peers_end(asked: nat, answers: Seq<Option<Outcome>>, at: nat)
    requires
        answers.len() == asked,
        at <= asked,
    ensures
        peers_end(peer_stage(at, asked), asked, answers) == PeerStageView::Finished(
            first_data(answers, at as int),
        ),
    decreases asked - at,
{
    if at < asked {
        let next = peer_next(PeerStageView::Ask(at), asked, answers[at as int]);
        match answer_data(answers[at as int]) {
            Some(data) => {
                assert(peers_end(next, asked, answers) == next);
            },
            None => {
                lemma_peers_end(asked, answers, at + 1);
            },
        }
    }
}

/// A fetch ends with the first data that any of the peers it asks answers with.
pub proof fn fetch_ends_with_first_data(peers: Option<usize>, answers: Seq<Option<Outcome>>)
    requires
        answers.len() == peers_asked(peers),
    ensures
        peers_end(peer_stage(0, peers_asked(peers)), peers_asked(peers), answers)
            == PeerStageView::Finished(first_data(answers, 0)),
{
    lemma_peers_end(peers_asked(peers), answers, 0);
}

/// Data that comes of asking peers for a hash has that hash, whatever the peers
/// answered.
pub proof fn data_from_peers_has_the_wanted_hash(
    hash: Seq<u8>,
    replies: Seq<BitswapReply>,
    answers: Seq<Option<Outcome>>,
    at: int,
)
    requires
        0 <= at,
        replies.len() == answers.len(),
        forall|i: int|
            0 <= i < answers.len() ==> (#[trigger] answers[i] is None || answers[i] == Some(
                reply_outcome(hash, replies[i]),
            )),
    ensures
        first_data(answers, at) matches Some(data) ==> blake2_256(data) == hash,
    decreases answers.len() - at,
{
    if at < answers.len() {
        fetched_data_has_the_wanted_hash(hash, replies[at]);
        data_from_peers_has_the_wanted_hash(hash, replies, answers, at + 1);
    }
}

/// At most eight peers are asked, and all where there are no more; none where the
/// peers are not known.
pub proof fn at_most_eight_peers_are_asked(peers: usize)
    ensures
        peers <= 8 ==> peers_asked(Some(peers)) == peers,
        peers > 8 ==> peers_asked(Some(peers)) == 8,
        peers_asked(None) == 0,
{
}

/// The peers are asked from the first on; where there is none to ask, the fetch
/// has ended without data.
pub proof fn peers_are_asked_from_the_first(asked: nat)
    ensures
        asked > 0 ==> peer_stage(0, asked) == PeerStageView::Ask(0),
        asked == 0 ==> peer_stage(0, asked) == PeerStageView::Finished(None),
{
}

/// Data ends the fetch with that data. No data, an error or silence leads to the
/// next peer, or to the end without data behind the last one. A fetch that has
/// ended stays as it is.
pub proof fn each_answer_ends_the_fetch_or_leads_on(
    at: nat,
    asked: nat,
    outcome: Option<Outcome>,
    ended: Option<Seq<u8>>,
)
    ensures
        ({
            let next = peer_next(PeerStageView::Ask(at), asked, outcome);
            &&& outcome matches Some(Ok(Some(data))) ==> next == PeerStageView::Finished(Some(data))
            &&& !(outcome matches Some(Ok(Some(_)))) && at + 1 < asked ==> next
                == PeerStageView::Ask(at + 1)
            &&& !(outcome matches Some(Ok(Some(_)))) && at + 1 >= asked ==> next
                == PeerStageView::Finished(None)
        }),
        peer_next(PeerStageView::Finished(ended), asked, outcome) == PeerStageView::Finished(ended),
{
}

/// The data that a fetch ends with is that of the first peer asked whose answer
/// has any; it ends without data only if none of them has.
pub proof fn fetch_takes_the_first_data(peers: Option<usize>, answers: Seq<Option<Outcome>>)
    requires
        answers.len() == peers_asked(peers),
    ensures
        ({
            let end = peers_end(
                peer_stage(0, peers_asked(peers)),
                peers_asked(peers),
                answers,
            );
            &&& end is Finished
            &&& end matches PeerStageView::Finished(Some(data)) ==> exists|i: int|
                0 <= i < answers.len() && #[trigger] answers[i] == Some(
                    Outcome::Ok(Some(data)),
                ) && forall|j: int|
                    0 <= j < i ==> !(#[trigger] answers[j] matches Some(Ok(Some(_))))
            &&& end == PeerStageView::Finished(None) ==> forall|i: int|
                0 <= i < answers.len() ==> !(#[trigger] answers[i] matches Some(Ok(Some(_))))
        }),
{
    fetch_ends_with_first_data(peers, answers);
    lemma_first_data(answers, 0);
}

proof fn lemma_first_data(answers: Seq<Option<Outcome>>, at: int)
    requires
        0 <= at <= answers.len(),
    ensures
        first_data(answers, at) matches Some(data) ==> exists|i: int|
            at <= i < answers.len() && #[trigger] answers[i] == Some(Outcome::Ok(Some(data)))
                && forall|j: int|
                at <= j < i ==> !(#[trigger] answers[j] matches Some(Ok(Some(_)))),
        first_data(answers, at) is None ==> forall|i: int|
            at <= i < answers.len() ==> !(#[trigger] answers[i] matches Some(Ok(Some(_)))),
    decreases answers.len() - at,
{
    if at < answers.len() {
        lemma_first_data(answers, at + 1);
        if let Some(data) = first_data(answers, at) {
            if answer_data(answers[at]) is Some {
                assert(answers[at] == Some(Outcome::Ok(Some(data))));
            } else {
                let i = choose|i: int|
                    at + 1 <= i < answers.len() && #[trigger] answers[i] == Some(
                        Outcome::Ok(Some(data)),
                    ) && forall|j: int|
                        at + 1 <= j < i ==> !(#[trigger] answers[j] matches Some(Ok(Some(_))));
                assert forall|j: int| at <= j < i implies !(
                #[trigger] answers[j] matches Some(Ok(Some(_)))) by {
                    if j > at {
                        assert(at + 1 <= j);
                    }
                }
            }
        } else {
            assert forall|i: int| at <= i < answers.len() implies !(
            #[trigger] answers[i] matches Some(Ok(Some(_)))) by {
                if i > at {
                    assert(at + 1 <= i);
                }
            }
        }
    }
}

/// What a stage says is what it holds.
pub proof fn stages_say_what_they_hold(stage: PeerStage)
    ensures
        match stage {
            PeerStage::Ask(at) => stage@ == PeerStageView::Ask(at as nat),
            PeerStage::Finished(None) => stage@ == PeerStageView::Finished(None),
            PeerStage::Finished(Some(data)) => stage@ == PeerStageView::Finished(Some(data@)),
        },
{
}

} // verus!

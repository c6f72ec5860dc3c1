//! Counting references to content.

use crate::bytes::{same_hash, ContentHash};
use crate::content_map::ContentMap;
use vstd::prelude::*;

verus! {

/// How often `hash` stands in `hashes`.
pub open spec fn occurrences(hashes: Seq<ContentHash>, hash: ContentHash) -> nat
    decreases hashes.len(),
{
    if hashes.len() == 0 {
        0
    } else {
        occurrences(hashes.drop_last(), hash) + if hashes.last() == hash {
            1nat
        } else {
            0
        }
    }
}

/// The count of `hash`; one that has none counts as zero.
pub open spec fn count_of(counts: Map<ContentHash, u32>, hash: ContentHash) -> nat {
    if counts.contains_key(hash) {
        counts[hash] as nat
    } else {
        0
    }
}

/// `counts` after one more reference for every one of `hashes`.
pub open spec fn with_references(
    counts: Map<ContentHash, u32>,
    hashes: Seq<ContentHash>,
) -> Map<ContentHash, u32>
    decreases hashes.len(),
{
    if hashes.len() == 0 {
        counts
    } else {
        let before = with_references(counts, hashes.drop_last());
        before.insert(hashes.last(), (count_of(before, hashes.last()) + 1) as u32)
    }
}

/// Whether the counts after one more reference for every one of `hashes` still
/// fit into 32 bits.
pub open spec fn references_fit(
    counts: Map<ContentHash, u32>,
    hashes: Seq<ContentHash>,
) -> bool {
    forall|hash: ContentHash|
        count_of(counts, hash) + #[trigger] occurrences(hashes, hash) <= u32::MAX
}

/// How often `hash` stands in `hashes`.
pub fn count_occurrences(hashes: &[ContentHash], hash: &ContentHash) -> (count: usize)
    ensures
        count == occurrences(hashes@, *hash),
{
    let mut count: usize = 0;
    let mut i: usize = 0;
    while i < hashes.len()
        invariant
            i <= hashes@.len(),
            count <= i,
            count == occurrences(hashes@.take(i as int), *hash),
        decreases hashes@.len() - i,
    {
        assert(hashes@.take(i + 1).drop_last() =~= hashes@.take(i as int));
        if same_hash(&hashes[i], hash) {
            count += 1;
        }
        i += 1;
    }
    assert(hashes@.take(i as int) =~= hashes@);
    count
}

/// Whether one more reference for every one of `hashes` still fits.
pub fn can_add_references(counts: &ContentMap<u32>, hashes: &[ContentHash]) -> (can: bool)
    requires
        counts.wf(),
    ensures
        can == references_fit(counts@, hashes@),
{
    let mut i: usize = 0;
    while i < hashes.len()
        invariant
            i <= hashes@.len(),
            counts.wf(),
            forall|j: int|
                0 <= j < i ==> count_of(counts@, #[trigger] hashes@[j]) + occurrences(
                    hashes@,
                    hashes@[j],
                ) <= u32::MAX,
        decreases hashes@.len() - i,
    {
        let count: u32 = match counts.get(&hashes[i]) {
            Some(count) => count,
            None => 0,
        };
        let more: usize = count_occurrences(hashes, &hashes[i]);
        if more as u64 > (u32::MAX - count) as u64 {
            assert(count_of(counts@, hashes@[i as int]) + occurrences(hashes@, hashes@[i as int])
                > u32::MAX);
            return false;
        }
        i += 1;
    }
    assert forall|hash: ContentHash|
        count_of(counts@, hash) + #[trigger] occurrences(hashes@, hash) <= u32::MAX by {
        if occurrences(hashes@, hash) > 0 {
            let j = lemma_occurs(hashes@, hash);
            assert(hashes@[j] == hash);
        }
    }
    true
}

/// Adds one reference for every one of `hashes`.
pub fn add_references(counts: &mut ContentMap<u32>, hashes: &[ContentHash])
    requires
        old(counts).wf(),
        references_fit(old(counts)@, hashes@),
    ensures
        final(counts).wf(),
        final(counts)@ == with_references(old(counts)@, hashes@),
{
    let ghost before = counts@;
    let mut i: usize = 0;
    assert(hashes@.take(0) =~= Seq::empty());
    while i < hashes.len()
        invariant
            i <= hashes@.len(),
            counts.wf(),
            references_fit(before, hashes@),
            counts@ == with_references(before, hashes@.take(i as int)),
        decreases hashes@.len() - i,
    {
        let hash: ContentHash = hashes[i];
        proof {
            let done = hashes@.take(i as int);
            let longer = hashes@.take(i + 1);
            assert(longer.drop_last() =~= done);
            lemma_fit_prefix(before, hashes@, i as int);
            references_are_counted(before, done);
            assert(count_of(counts@, hash) == count_of(before, hash) + occurrences(done, hash));
            assert(occurrences(longer, hash) == occurrences(done, hash) + 1);
            lemma_prefix_occurrences(hashes@, hash, i + 1);
            assert(count_of(before, hash) + occurrences(hashes@, hash) <= u32::MAX);
        }
        let count: u32 = match counts.get(&hash) {
            Some(count) => count,
            None => 0,
        };
        counts.insert(hash, count + 1);
        i += 1;
    }
    assert(hashes@.take(i as int) =~= hashes@);
}

proof fn lemma_occurs(hashes: Seq<ContentHash>, hash: ContentHash) -> (at: int)
    requires
        occurrences(hashes, hash) > 0,
    ensures
        0 <= at < hashes.len(),
        hashes[at] == hash,
    decreases hashes.len(),
{
    if hashes.last() == hash {
        hashes.len() - 1
    } else {
        lemma_occurs(hashes.drop_last(), hash)
    }
}

proof fn lemma_prefix_occurrences(hashes: Seq<ContentHash>, hash: ContentHash, n: int)
    requires
        0 <= n <= hashes.len(),
    ensures
        occurrences(hashes.take(n), hash) <= occurrences(hashes, hash),
    decreases hashes.len(),
{
    if n == hashes.len() {
        assert(hashes.take(n) =~= hashes);
    } else {
        assert(hashes.drop_last().take(n) =~= hashes.take(n));
        lemma_prefix_occurrences(hashes.drop_last(), hash, n);
    }
}

proof fn lemma_fit_prefix(counts: Map<ContentHash, u32>, hashes: Seq<ContentHash>, n: int)
    requires
        references_fit(counts, hashes),
        0 <= n <= hashes.len(),
    ensures
        references_fit(counts, hashes.take(n)),
{
    assert forall|hash: ContentHash|
        count_of(counts, hash) + #[trigger] occurrences(hashes.take(n), hash) <= u32::MAX by {
        lemma_prefix_occurrences(hashes, hash, n);
        assert(count_of(counts, hash) + occurrences(hashes, hash) <= u32::MAX);
    }
}

/// As long as the counts fit, a hash gains as many references as it occurs.
pub proof fn references_are_counted(counts: Map<ContentHash, u32>, hashes: Seq<ContentHash>)
    requires
        references_fit(counts, hashes),
    ensures
        forall|hash: ContentHash| #[trigger]
            count_of(with_references(counts, hashes), hash) == count_of(counts, hash) + occurrences(
                hashes,
                hash,
            ),
    decreases hashes.len(),
{
    if hashes.len() > 0 {
        let shorter = hashes.drop_last();
        assert(hashes.take(hashes.len() - 1) =~= shorter);
        lemma_fit_prefix(counts, hashes, hashes.len() - 1);
        references_are_counted(counts, shorter);
        let before = with_references(counts, shorter);
        assert(count_of(before, hashes.last()) == count_of(counts, hashes.last()) + occurrences(
            shorter,
            hashes.last(),
        ));
        assert(count_of(counts, hashes.last()) + occurrences(hashes, hashes.last()) <= u32::MAX);
        assert forall|hash: ContentHash| #[trigger]
            count_of(with_references(counts, hashes), hash) == count_of(counts, hash) + occurrences(
                hashes,
                hash,
            ) by {
            assert(count_of(before, hash) == count_of(counts, hash) + occurrences(shorter, hash));
        }
    }
}

/// Adding references in two parts is adding them at once.
pub proof fn references_add_up(
    counts: Map<ContentHash, u32>,
    first: Seq<ContentHash>,
    second: Seq<ContentHash>,
)
    ensures
        with_references(with_references(counts, first), second) == with_references(
            counts,
            first + second,
        ),
    decreases second.len(),
{
    if second.len() == 0 {
        assert(first + second =~= first);
    } else {
        assert((first + second).drop_last() =~= first + second.drop_last());
        references_add_up(counts, first, second.drop_last());
    }
}

/// The occurrences in two parts add up.
pub proof fn occurrences_add_up(
    first: Seq<ContentHash>,
    second: Seq<ContentHash>,
    hash: ContentHash,
)
    ensures
        occurrences(first + second, hash) == occurrences(first, hash) + occurrences(second, hash),
    decreases second.len(),
{
    if second.len() == 0 {
        assert(first + second =~= first);
    } else {
        assert((first + second).drop_last() =~= first + second.drop_last());
        occurrences_add_up(first, second.drop_last(), hash);
    }
}

/// How often a hash stands in a list is how often it is in the bag of the list.
pub proof fn occurrences_are_those_in_the_bag(hashes: Seq<ContentHash>, hash: ContentHash)
    ensures
        occurrences(hashes, hash) == hashes.to_multiset().count(hash),
    decreases hashes.len(),
{
    broadcast use vstd::seq_lib::group_to_multiset_ensures;

    if hashes.len() > 0 {
        occurrences_are_those_in_the_bag(hashes.drop_last(), hash);
        assert(hashes =~= hashes.drop_last().push(hashes.last()));
    }
}

/// Adding references gives a count to the hashes that had one and to those that
/// are added, and to no other; a count that is not added to stays.
pub proof fn references_touch_only_their_hashes(
    counts: Map<ContentHash, u32>,
    hashes: Seq<ContentHash>,
    hash: ContentHash,
)
    ensures
        with_references(counts, hashes).contains_key(hash) <==> counts.contains_key(hash)
            || hashes.contains(hash),
        !hashes.contains(hash) && counts.contains_key(hash) ==> with_references(
            counts,
            hashes,
        )[hash] == counts[hash],
    decreases hashes.len(),
{
    if hashes.len() > 0 {
        let front = hashes.drop_last();
        references_touch_only_their_hashes(counts, front, hash);
        assert(hashes[hashes.len() - 1] == hashes.last());
        if front.contains(hash) {
            let i = choose|i: int| 0 <= i < front.len() && front[i] == hash;
            assert(hashes[i] == hash);
        }
        if hashes.contains(hash) && hash != hashes.last() {
            let i = choose|i: int| 0 <= i < hashes.len() && hashes[i] == hash;
            assert(front[i] == hash);
        }
    }
}

/// The count of a hash is the number that is kept for it, and nothing is kept of
/// one that has no reference.
pub proof fn count_is_what_is_kept(counts: Map<ContentHash, u32>, hash: ContentHash)
    ensures
        counts.contains_key(hash) ==> count_of(counts, hash) == counts[hash],
        !counts.contains_key(hash) ==> count_of(counts, hash) == 0,
{
}

/// References fit exactly if no hash ends up with more of them than 32 bits can
/// count.
pub proof fn references_fit_up_to_the_limit(
    counts: Map<ContentHash, u32>,
    hashes: Seq<ContentHash>,
)
    ensures
        references_fit(counts, hashes) <==> (forall|hash: ContentHash|
            counts.contains_key(hash) ==> (#[trigger] counts[hash]) + hashes.to_multiset().count(
                hash,
            ) <= 0xffff_ffff) && (forall|hash: ContentHash|
            !counts.contains_key(hash) ==> #[trigger] hashes.to_multiset().count(hash)
                <= 0xffff_ffff),
{
    assert forall|hash: ContentHash| #[trigger]
        occurrences(hashes, hash) == hashes.to_multiset().count(hash) by {
        occurrences_are_those_in_the_bag(hashes, hash);
    }
    if references_fit(counts, hashes) {
        assert forall|hash: ContentHash| counts.contains_key(hash) implies (
        #[trigger] counts[hash]) + hashes.to_multiset().count(hash) <= 0xffff_ffff by {
            assert(count_of(counts, hash) + occurrences(hashes, hash) <= u32::MAX);
        }
        assert forall|hash: ContentHash|
            !counts.contains_key(hash) implies #[trigger] hashes.to_multiset().count(hash)
            <= 0xffff_ffff by {
            assert(count_of(counts, hash) + occurrences(hashes, hash) <= u32::MAX);
        }
    } else {
        let hash = choose|hash: ContentHash|
            count_of(counts, hash) + #[trigger] occurrences(hashes, hash) > u32::MAX;
        assert(occurrences(hashes, hash) == hashes.to_multiset().count(hash));
        assert(counts.contains_key(hash) ==> count_of(counts, hash) == counts[hash]);
    }
}

} // verus!

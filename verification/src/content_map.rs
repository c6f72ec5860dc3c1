//! Values by content hash, in the order in which the hashes came.

use crate::bytes::{same_hash, ContentHash};
use std::collections::HashMap;
use vstd::prelude::*;

verus! {

broadcast use vstd::std_specs::hash::group_hash_axioms;

/// The number under which a hash is filed: its first eight bytes.
pub open spec fn file_number(hash: ContentHash) -> u64 {
    (hash[0] + 0x100 * hash[1] + 0x1_0000 * hash[2] + 0x100_0000 * hash[3] + 0x1_0000_0000 * hash[4]
        + 0x100_0000_0000 * hash[5] + 0x1_0000_0000_0000 * hash[6] + 0x100_0000_0000_0000
        * hash[7]) as u64
}

fn file_of(hash: &ContentHash) -> (number: u64)
    ensures
        number == file_number(*hash),
{
    hash[0] as u64 + 0x100 * hash[1] as u64 + 0x1_0000 * hash[2] as u64 + 0x100_0000 * hash[3]
        as u64 + 0x1_0000_0000 * hash[4] as u64 + 0x100_0000_0000 * hash[5] as u64
        + 0x1_0000_0000_0000 * hash[6] as u64 + 0x100_0000_0000_0000 * hash[7] as u64
}

/// Whether a list of pairs holds a pair for `hash`.
pub open spec fn has_pair<V>(pairs: Seq<(ContentHash, V)>, hash: ContentHash) -> bool {
    exists|i: int| 0 <= i < pairs.len() && (#[trigger] pairs[i]).0 == hash
}

/// The value that a list of pairs holds for `hash`.
pub open spec fn pair_value<V>(pairs: Seq<(ContentHash, V)>, hash: ContentHash) -> V {
    let at = choose|i: int| 0 <= i < pairs.len() && (#[trigger] pairs[i]).0 == hash;
    pairs[at].1
}

/// What a list of pairs says as a map.
pub open spec fn pairs_as_map<V>(pairs: Seq<(ContentHash, V)>) -> Map<ContentHash, V> {
    Map::new(|hash: ContentHash| has_pair(pairs, hash), |hash: ContentHash| pair_value(pairs, hash))
}

/// Whether no hash occurs twice.
pub open spec fn hashes_differ<V>(pairs: Seq<(ContentHash, V)>) -> bool {
    forall|i: int, j: int|
        0 <= i < j < pairs.len() ==> (#[trigger] pairs[i]).0 != (#[trigger] pairs[j]).0
}

/// Values by content hash.
#[verifier::reject_recursive_types(V)]
pub struct ContentMap<V> {
    entries: Vec<(ContentHash, V)>,
    files: HashMap<u64, Vec<usize>>,
}

impl<V: Copy> View for ContentMap<V> {
    type V = Map<ContentHash, V>;

    open spec fn view(&self) -> Map<ContentHash, V> {
        pairs_as_map(self.pairs())
    }
}

impl<V: Copy> ContentMap<V> {
    /// The pairs in the order in which their hashes came.
    pub closed spec fn pairs(self) -> Seq<(ContentHash, V)> {
        self.entries@
    }

    /// No hash occurs twice, and every pair is found where it is filed.
    pub closed spec fn wf(self) -> bool {
        &&& hashes_differ(self.entries@)
        &&& forall|i: int|
            0 <= i < self.entries@.len() ==> #[trigger] self.filed(i)
        &&& forall|number: u64, k: int|
            self.files@.contains_key(number) && 0 <= k < self.files@[number]@.len() ==> (
            #[trigger] self.files@[number]@[k]) < self.entries@.len()
    }

    spec fn filed(self, i: int) -> bool {
        let number = file_number(self.entries@[i].0);
        &&& self.files@.contains_key(number)
        &&& exists|k: int|
            0 <= k < self.files@[number]@.len() && #[trigger] self.files@[number]@[k] == i
    }

    /// No values.
    pub fn new() -> (map: Self)
        ensures
            map.wf(),
            map.pairs() == Seq::<(ContentHash, V)>::empty(),
            map@ == Map::<ContentHash, V>::empty(),
    {
        let map = ContentMap { entries: Vec::new(), files: HashMap::new() };
        assert(map@ =~= Map::<ContentHash, V>::empty());
        map
    }

    /// How many hashes have a value.
    pub fn len(&self) -> (count: usize)
        ensures
            count == self.pairs().len(),
    {
        self.entries.len()
    }

    /// The pair at `at`, in the order in which the hashes came.
    pub fn pair(&self, at: usize) -> (pair: (ContentHash, V))
        requires
            at < self.pairs().len(),
        ensures
            pair == self.pairs()[at as int],
    {
        self.entries[at]
    }

    fn position(&self, hash: &ContentHash) -> (found: Option<usize>)
        requires
            self.wf(),
        ensures
            match found {
                Some(at) => at < self.entries@.len() && self.entries@[at as int].0 == *hash,
                None => !has_pair(self.entries@, *hash),
            },
    {
        let number: u64 = file_of(hash);
        let positions: &Vec<usize> = match self.files.get(&number) {
            Some(positions) => positions,
            None => {
                proof {
                    if has_pair(self.entries@, *hash) {
                        let i = choose|i: int|
                            0 <= i < self.entries@.len() && (#[trigger] self.entries@[i]).0
                                == *hash;
                        assert(self.filed(i));
                    }
                }
                return None;
            },
        };
        let mut k: usize = 0;
        while k < positions.len()
            invariant
                k <= positions@.len(),
                self.wf(),
                number == file_number(*hash),
                self.files@.contains_key(number),
                positions@ == self.files@[number]@,
                forall|j: int|
                    0 <= j < k ==> self.entries@[(#[trigger] positions@[j]) as int].0 != *hash,
            decreases positions@.len() - k,
        {
            let at: usize = positions[k];
            assert(self.files@[number]@[k as int] == at);
            if same_hash(&self.entries[at].0, hash) {
                return Some(at);
            }
            k += 1;
        }
        proof {
            if has_pair(self.entries@, *hash) {
                let i = choose|i: int|
                    0 <= i < self.entries@.len() && (#[trigger] self.entries@[i]).0 == *hash;
                assert(self.filed(i));
            }
        }
        None
    }

    /// The value of `hash`, if it has one.
    pub fn get(&self, hash: &ContentHash) -> (value: Option<V>)
        requires
            self.wf(),
        ensures
            match value {
                Some(found) => self@.contains_key(*hash) && found == self@[*hash],
                None => !self@.contains_key(*hash),
            },
    {
        match self.position(hash) {
            Some(at) => {
                proof {
                    lemma_pair_value(self.entries@, at as int);
                }
                Some(self.entries[at].1)
            },
            None => None,
        }
    }

    /// Gives `hash` the value `value`, in place of one that it had.
    pub fn insert(&mut self, hash: ContentHash, value: V)
        requires
            old(self).wf(),
        ensures
            final(self).wf(),
            final(self)@ == old(self)@.insert(hash, value),
            old(self)@.contains_key(hash) ==> exists|at: int|
                0 <= at < old(self).pairs().len() && old(self).pairs()[at].0 == hash
                    && final(self).pairs() == #[trigger] old(self).pairs().update(
                    at,
                    (hash, value),
                ),
            !old(self)@.contains_key(hash) ==> final(self).pairs() == old(self).pairs().push(
                (hash, value),
            ),
    {
        match self.position(&hash) {
            Some(at) => {
                let ghost before = self.entries@;
                self.entries.set(at, (hash, value));
                proof {
                    lemma_update(before, at as int, value);
                    assert forall|i: int|
                        0 <= i < self.entries@.len() implies #[trigger] self.filed(i) by {
                        assert(old(self).filed(i));
                    }
                }
            },
            None => {
                let number: u64 = file_of(&hash);
                let ghost at = self.entries@.len() as int;
                let mut positions: Vec<usize> = match self.files.remove(&number) {
                    Some(positions) => positions,
                    None => Vec::new(),
                };
                let ghost before = positions@;
                positions.push(self.entries.len());
                assert(positions@[before.len() as int] == at);
                self.files.insert(number, positions);
                let ghost pairs = self.entries@;
                self.entries.push((hash, value));
                proof {
                    lemma_push(pairs, hash, value);
                    assert forall|i: int|
                        0 <= i < self.entries@.len() implies #[trigger] self.filed(i) by {
                        let file = file_number(self.entries@[i].0);
                        if i == at {
                            assert(self.files@[file]@[before.len() as int] == i);
                        } else {
                            assert(old(self).filed(i));
                            let k = choose|k: int|
                                0 <= k < old(self).files@[file]@.len()
                                    && #[trigger] old(self).files@[file]@[k] == i;
                            assert(self.files@[file]@[k] == i);
                        }
                    }
                    assert forall|file: u64, k: int|
                        self.files@.contains_key(file) && 0 <= k
                            < self.files@[file]@.len() implies (#[trigger] self.files@[file]@[k])
                        < self.entries@.len() by {
                        if file == number {
                            if k < before.len() {
                                assert(old(self).files@[file]@[k] == self.files@[file]@[k]);
                            }
                        } else {
                            assert(old(self).files@[file]@[k] < old(self).entries@.len());
                        }
                    }
                }
            },
        }
    }
}

/// No hash has two values in a map.
pub proof fn no_hash_occurs_twice<V: Copy>(map: ContentMap<V>)
    requires
        map.wf(),
    ensures
        hashes_differ(map.pairs()),
{
}

/// Every pair of a list without double hashes is in its map, with its value.
pub proof fn lemma_pair_value<V>(pairs: Seq<(ContentHash, V)>, at: int)
    requires
        hashes_differ(pairs),
        0 <= at < pairs.len(),
    ensures
        pairs_as_map(pairs).contains_key(pairs[at].0),
        pairs_as_map(pairs)[pairs[at].0] == pairs[at].1,
{
    let hash = pairs[at].0;
    assert(has_pair(pairs, hash));
    let other = choose|i: int| 0 <= i < pairs.len() && (#[trigger] pairs[i]).0 == hash;
    assert(other == at);
}

proof fn lemma_update<V>(pairs: Seq<(ContentHash, V)>, at: int, value: V)
    requires
        hashes_differ(pairs),
        0 <= at < pairs.len(),
    ensures
        ({
            let hash = pairs[at].0;
            let after = pairs.update(at, (hash, value));
            &&& hashes_differ(after)
            &&& has_pair(pairs, hash)
            &&& pairs_as_map(after) == pairs_as_map(pairs).insert(hash, value)
        }),
{
    let hash = pairs[at].0;
    let after = pairs.update(at, (hash, value));
    assert forall|i: int, j: int| 0 <= i < j < after.len() implies (#[trigger] after[i]).0 != (
    #[trigger] after[j]).0 by {
        assert(pairs[i].0 != pairs[j].0);
    }
    assert forall|h: ContentHash| has_pair(after, h) == #[trigger] has_pair(pairs, h) by {
        if has_pair(pairs, h) {
            let i = choose|i: int| 0 <= i < pairs.len() && (#[trigger] pairs[i]).0 == h;
            assert(after[i].0 == h);
        }
        if has_pair(after, h) {
            let i = choose|i: int| 0 <= i < after.len() && (#[trigger] after[i]).0 == h;
            assert(pairs[i].0 == h);
        }
    }
    assert(has_pair(pairs, hash));
    assert forall|h: ContentHash| has_pair(pairs, h) implies #[trigger] pairs_as_map(after)[h]
        == pairs_as_map(pairs).insert(hash, value)[h] by {
        let i = choose|i: int| 0 <= i < pairs.len() && (#[trigger] pairs[i]).0 == h;
        lemma_pair_value(pairs, i);
        lemma_pair_value(after, i);
        if i == at {
            assert(h == hash);
        } else {
            assert(h != hash);
        }
    }
    assert(pairs_as_map(after) =~= pairs_as_map(pairs).insert(hash, value));
}

proof fn lemma_push<V>(pairs: Seq<(ContentHash, V)>, hash: ContentHash, value: V)
    requires
        hashes_differ(pairs),
        !has_pair(pairs, hash),
    ensures
        hashes_differ(pairs.push((hash, value))),
        pairs_as_map(pairs.push((hash, value))) == pairs_as_map(pairs).insert(hash, value),
{
    let after = pairs.push((hash, value));
    let last = pairs.len() as int;
    assert forall|i: int, j: int| 0 <= i < j < after.len() implies (#[trigger] after[i]).0 != (
    #[trigger] after[j]).0 by {
        assert(pairs[i].0 == after[i].0);
        if j < last {
            assert(pairs[j].0 == after[j].0);
        }
    }
    assert(after[last].0 == hash);
    assert forall|h: ContentHash|
        has_pair(after, h) == (#[trigger] has_pair(pairs, h) || h == hash) by {
        if has_pair(pairs, h) {
            let i = choose|i: int| 0 <= i < pairs.len() && (#[trigger] pairs[i]).0 == h;
            assert(after[i].0 == h);
        }
        if has_pair(after, h) && h != hash {
            let i = choose|i: int| 0 <= i < after.len() && (#[trigger] after[i]).0 == h;
            assert(pairs[i].0 == h);
        }
    }
    assert forall|h: ContentHash| has_pair(after, h) implies #[trigger] pairs_as_map(after)[h]
        == pairs_as_map(pairs).insert(hash, value)[h] by {
        if h == hash {
            lemma_pair_value(after, last);
        } else {
            assert(has_pair(pairs, h));
            let i = choose|i: int| 0 <= i < pairs.len() && (#[trigger] pairs[i]).0 == h;
            lemma_pair_value(pairs, i);
            assert(after[i].0 == h);
            lemma_pair_value(after, i);
        }
    }
    assert(pairs_as_map(after) =~= pairs_as_map(pairs).insert(hash, value));
}

} // verus!

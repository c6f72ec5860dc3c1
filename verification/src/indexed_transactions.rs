//! What the runtime says of the transactions that it indexed in a block.

use crate::bytes::ContentHash;
use crate::content_id::RAW_CODEC;
use vstd::prelude::*;

verus! {

/// The code of how content is encoded.
pub type CidCodec = u64;

/// The functions by which content can be hashed.
#[derive(Clone, Copy, Debug, PartialEq, Eq, Structural)]
#[non_exhaustive]
pub enum HashingAlgorithm {
    Blake2b256,
    Sha2_256,
    Keccak256,
}

/// A transaction that the runtime indexed.
#[derive(Clone, Copy, Debug, PartialEq, Eq)]
pub struct IndexedTransactionInfo {
    pub content_hash: ContentHash,
    pub size: u32,
    pub hashing: HashingAlgorithm,
    pub cid_codec: CidCodec,
}

/// What the database needs to know of an indexed transaction.
#[derive(Clone, Copy, Debug, PartialEq, Eq)]
pub struct IndexedTransactionMeta {
    pub content_hash: ContentHash,
    pub size: u32,
}

/// Whether content is of the kind that is kept here: raw bytes under their
/// Blake2b hash.
pub open spec fn supported(info: IndexedTransactionInfo) -> bool {
    info.hashing == HashingAlgorithm::Blake2b256 && info.cid_codec == RAW_CODEC
}

/// Those of `meta` that are supported, in their order.
pub open spec fn supported_entries(meta: Seq<IndexedTransactionInfo>) -> Seq<
    IndexedTransactionInfo,
> {
    meta.filter(|info: IndexedTransactionInfo| supported(info))
}

/// The content hashes of `meta`, in their order.
pub open spec fn content_hashes(meta: Seq<IndexedTransactionInfo>) -> Seq<ContentHash> {
    meta.map_values(|info: IndexedTransactionInfo| info.content_hash)
}

/// What the database needs to know of `meta`, in its order.
pub open spec fn database_meta(meta: Seq<IndexedTransactionInfo>) -> Seq<
    IndexedTransactionMeta,
> {
    meta.map_values(
        |info: IndexedTransactionInfo|
            IndexedTransactionMeta { content_hash: info.content_hash, size: info.size },
    )
}

/// Whether content is of the kind that is kept here.
pub fn is_supported(info: &IndexedTransactionInfo) -> (yes: bool)
    ensures
        yes == supported(*info),
        yes <==> info.hashing is Blake2b256 && info.cid_codec == 0x55,
{
    info.hashing == HashingAlgorithm::Blake2b256 && info.cid_codec == RAW_CODEC
}

/// Those of `meta` that are supported, in their order.
pub fn select_supported(meta: &[IndexedTransactionInfo]) -> (selected: Vec<IndexedTransactionInfo>)
    ensures
        selected@ == supported_entries(meta@),
{
    let mut selected: Vec<IndexedTransactionInfo> = Vec::new();
    let mut i: usize = 0;
    assert(meta@.take(0) =~= Seq::empty());
    proof {
        reveal(Seq::filter);
    }
    while i < meta.len()
        invariant
            i <= meta@.len(),
            selected@ == supported_entries(meta@.take(i as int)),
        decreases meta@.len() - i,
    {
        proof {
            reveal(Seq::filter);
            let longer = meta@.take(i + 1);
            assert(longer.drop_last() =~= meta@.take(i as int));
            assert(longer.last() == meta@[i as int]);
        }
        if is_supported(&meta[i]) {
            selected.push(meta[i]);
        }
        i += 1;
    }
    assert(meta@.take(i as int) =~= meta@);
    selected
}

/// What the database needs to know of `meta`, in its order.
pub fn to_database_meta(meta: &[IndexedTransactionInfo]) -> (reduced: Vec<IndexedTransactionMeta>)
    ensures
        reduced@ == database_meta(meta@),
{
    let mut reduced: Vec<IndexedTransactionMeta> = Vec::new();
    let mut i: usize = 0;
    while i < meta.len()
        invariant
            i <= meta@.len(),
            reduced@ == database_meta(meta@.take(i as int)),
        decreases meta@.len() - i,
    {
        reduced.push(
            IndexedTransactionMeta { content_hash: meta[i].content_hash, size: meta[i].size },
        );
        i += 1;
        assert(database_meta(meta@.take(i as int)) =~= database_meta(
            meta@.take(i - 1),
        ).push(database_meta(meta@)[i - 1]));
    }
    assert(meta@.take(i as int) =~= meta@);
    reduced
}

/// Content is supported exactly if it is raw and known by its Blake2b hash.
pub proof fn only_raw_blake2_content_is_supported(info: IndexedTransactionInfo)
    ensures
        supported(info) <==> info.hashing is Blake2b256 && info.cid_codec == 0x55,
{
}

/// Selecting from two lists is selecting from the one, then the other.
pub proof fn selections_join(
    first: Seq<IndexedTransactionInfo>,
    second: Seq<IndexedTransactionInfo>,
)
    ensures
        supported_entries(first + second) == supported_entries(first) + supported_entries(second),
    decreases second.len(),
{
    reveal(Seq::filter);
    if second.len() == 0 {
        assert(first + second =~= first);
        assert(supported_entries(first) + supported_entries(second) =~= supported_entries(first));
    } else {
        assert((first + second).drop_last() =~= first + second.drop_last());
        selections_join(first, second.drop_last());
        assert(supported_entries(first + second) =~= supported_entries(first) + supported_entries(
            second,
        ));
    }
}

/// Of a single entry the selection keeps that entry if it is raw content under
/// its Blake2b hash, and else nothing.
pub proof fn selection_of_one_entry(info: IndexedTransactionInfo)
    ensures
        supported_entries(seq![info]) == if info.hashing is Blake2b256 && info.cid_codec == 0x55 {
            seq![info]
        } else {
            Seq::empty()
        },
        supported_entries(Seq::empty()) == Seq::<IndexedTransactionInfo>::empty(),
{
    reveal(Seq::filter);
    let one = seq![info];
    assert(one.drop_last() =~= Seq::empty());
    assert(supported_entries(one.drop_last()) =~= Seq::empty());
    assert(supported_entries(one) =~= if info.hashing is Blake2b256 && info.cid_codec == 0x55 {
        one
    } else {
        Seq::empty()
    });
}

/// Every entry that is selected is raw content under its Blake2b hash, and every
/// entry of that kind is selected as often as it stands in the list.
pub proof fn selection_keeps_raw_blake2_content(meta: Seq<IndexedTransactionInfo>)
    ensures
        forall|i: int|
            0 <= i < supported_entries(meta).len() ==> {
                let entry = #[trigger] supported_entries(meta)[i];
                entry.hashing is Blake2b256 && entry.cid_codec == 0x55 && meta.contains(entry)
            },
        forall|info: IndexedTransactionInfo|
            info.hashing is Blake2b256 && info.cid_codec == 0x55 ==> #[trigger] supported_entries(
                meta,
            ).to_multiset().count(info) == meta.to_multiset().count(info),
    decreases meta.len(),
{
    broadcast use vstd::seq_lib::group_to_multiset_ensures;

    if meta.len() == 0 {
        reveal(Seq::filter);
        assert(supported_entries(meta) =~= meta);
    } else {
        let front = meta.drop_last();
        let last = meta.last();
        selection_keeps_raw_blake2_content(front);
        selections_join(front, seq![last]);
        selection_of_one_entry(last);
        assert(meta =~= front.push(last));
        assert(front + seq![last] =~= meta);
        assert forall|i: int| 0 <= i < supported_entries(meta).len() implies {
            let entry = #[trigger] supported_entries(meta)[i];
            entry.hashing is Blake2b256 && entry.cid_codec == 0x55 && meta.contains(entry)
        } by {
            if i < supported_entries(front).len() {
                let entry = supported_entries(front)[i];
                assert(front.contains(entry));
                let k = choose|k: int| 0 <= k < front.len() && front[k] == entry;
                assert(meta[k] == entry);
            } else {
                assert(meta[meta.len() - 1] == last);
            }
        }
        if last.hashing is Blake2b256 && last.cid_codec == 0x55 {
            assert(supported_entries(meta) =~= supported_entries(front).push(last));
        } else {
            assert(supported_entries(meta) =~= supported_entries(front));
        }
    }
}

/// What is handed to the database and what is counted of a list of entries keeps
/// their order: content hash and size come from the entry at the same place.
pub proof fn entries_are_reduced_in_place(meta: Seq<IndexedTransactionInfo>)
    ensures
        database_meta(meta).len() == meta.len(),
        content_hashes(meta).len() == meta.len(),
        forall|i: int|
            0 <= i < meta.len() ==> {
                &&& (#[trigger] database_meta(meta)[i]).content_hash == meta[i].content_hash
                &&& database_meta(meta)[i].size == meta[i].size
            },
        forall|i: int|
            0 <= i < meta.len() ==> #[trigger] content_hashes(meta)[i] == meta[i].content_hash,
{
}

} // verus!

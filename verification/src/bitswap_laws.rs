//! What each part of a peer's reply comes to.

use crate::bitswap::{
    asks_for, block_outcome, cid_given, cid_supported, outcome_of, prefix_decoded, prefixed_cid,
    presence_outcome, presences_outcome, reply_outcome, wanted_cid, BitswapError, BitswapErrorView,
    BitswapMessage, BitswapReply, BlockPresence, Outcome, Prefix,
};
use crate::content_id::{
    cid_decoded, cid_read_error, cid_reads_back, cid_text, Cid, CidVersion, CidView,
};
use crate::hashing::blake2_256;
use crate::text::{decimal_text, signed_text};
use crate::varint::{varint_decoded, varint_error_text};
use vstd::prelude::*;

verus! {

/// What is wanted for a hash is raw content under that Blake2b hash of 256 bits,
/// in the second layout.
pub proof fn wanted_content_is_raw_under_its_hash(hash: Seq<u8>)
    ensures
        ({
            let cid = wanted_cid(hash);
            &&& cid.version is V1
            &&& cid.codec == 0x55
            &&& cid.code == 0xb220
            &&& cid.digest == hash
        }),
{
}

/// An identifier is supported exactly if it has the second layout around a
/// Blake2b hash of 32 bytes, however the content is encoded.
pub proof fn supported_identifiers_hold_a_blake2_hash(cid: CidView)
    ensures
        cid_supported(cid) <==> cid.version is V1 && cid.code == 0xb220 && cid.digest.len() == 32,
{
}

/// A prefix is four numbers and nothing behind them: the layout, the encoding of
/// the content, the hash function and the length of the digest. The layout is
/// zero or one, and the length fits into a byte.
pub proof fn prefix_is_four_numbers(bytes: Seq<u8>, prefix: Prefix)
    ensures
        prefix_decoded(bytes) == Ok::<Prefix, Seq<char>>(prefix) <==> {
            &&& varint_decoded(bytes) matches Ok((version, behind_version))
            &&& varint_decoded(behind_version) matches Ok((codec, behind_codec))
            &&& varint_decoded(behind_codec) matches Ok((mh_type, behind_type))
            &&& varint_decoded(behind_type) matches Ok((mh_len, behind))
            &&& behind.len() == 0
            &&& prefix.version is V0 ==> version == 0
            &&& prefix.version is V1 ==> version == 1
            &&& prefix.codec == codec
            &&& prefix.mh_type == mh_type
            &&& prefix.mh_len == mh_len
        },
{
}

/// Why four numbers are no prefix: bytes behind them come first, then a layout
/// that there is not, then a length that does not fit into a byte.
pub proof fn four_numbers_that_are_no_prefix(
    bytes: Seq<u8>,
    version: u64,
    behind_version: Seq<u8>,
    codec: u64,
    behind_codec: Seq<u8>,
    mh_type: u64,
    behind_type: Seq<u8>,
    mh_len: u64,
    behind: Seq<u8>,
)
    requires
        varint_decoded(bytes) is Ok,
        varint_decoded(bytes)->Ok_0 == (version, behind_version),
        varint_decoded(behind_version) is Ok,
        varint_decoded(behind_version)->Ok_0 == (codec, behind_codec),
        varint_decoded(behind_codec) is Ok,
        varint_decoded(behind_codec)->Ok_0 == (mh_type, behind_type),
        varint_decoded(behind_type) is Ok,
        varint_decoded(behind_type)->Ok_0 == (mh_len, behind),
    ensures
        behind.len() > 0 ==> prefix_decoded(bytes) == Err::<Prefix, Seq<char>>(
            "bitswap block prefix had trailing bytes"@,
        ),
        behind.len() == 0 && version > 1 ==> prefix_decoded(bytes) == Err::<Prefix, Seq<char>>(
            "unsupported CID version "@ + decimal_text(version as nat),
        ),
        behind.len() == 0 && version <= 1 && mh_len > 255 ==> prefix_decoded(bytes) == Err::<
            Prefix,
            Seq<char>,
        >("multihash length "@ + decimal_text(mh_len as nat) + " does not fit into u8"@),
        behind.len() == 0 && version <= 1 && mh_len <= 255 ==> prefix_decoded(bytes) is Ok,
{
}

/// A prefix in which one of the four numbers cannot be read is refused with the
/// words for the first that cannot.
pub proof fn first_unreadable_number_decides(bytes: Seq<u8>)
    ensures
        match varint_decoded(bytes) {
            Err(first) => prefix_decoded(bytes) == Err::<Prefix, Seq<char>>(
                varint_error_text(first),
            ),
            Ok((_, a)) => match varint_decoded(a) {
                Err(second) => prefix_decoded(bytes) == Err::<Prefix, Seq<char>>(
                    varint_error_text(second),
                ),
                Ok((_, b)) => match varint_decoded(b) {
                    Err(third) => prefix_decoded(bytes) == Err::<Prefix, Seq<char>>(
                        varint_error_text(third),
                    ),
                    Ok((_, c)) => varint_decoded(c) matches Err(fourth) ==> prefix_decoded(bytes)
                        == Err::<Prefix, Seq<char>>(varint_error_text(fourth)),
                },
            },
        },
{
}

/// The identifier of a block takes the encoding and the hash function from the
/// prefix and the digest from the data. The first layout is refused, and what is
/// no prefix is refused with its words.
pub proof fn block_identifier_joins_prefix_and_digest(prefix: Seq<u8>, digest: Seq<u8>)
    ensures
        match prefix_decoded(prefix) {
            Ok(read) => {
                &&& read.version is V0 ==> prefixed_cid(prefix, digest) == Err::<
                    CidView,
                    Seq<char>,
                >("bitswap block prefix used unsupported CIDv0"@)
                &&& read.version is V1 ==> (prefixed_cid(prefix, digest) matches Ok(cid) && {
                    &&& cid.version is V1
                    &&& cid.codec == read.codec
                    &&& cid.code == read.mh_type
                    &&& cid.digest == digest
                })
            },
            Err(words) => prefixed_cid(prefix, digest) == Err::<CidView, Seq<char>>(words),
        },
{
}

/// A block is taken exactly if its prefix is that of raw content under a Blake2b
/// hash in the second layout and its data has the wanted hash; what is taken is
/// the data as it came.
pub proof fn block_is_taken_if_prefix_and_hash_fit(
    hash: Seq<u8>,
    prefix: Seq<u8>,
    data: Seq<u8>,
    digest: Seq<u8>,
)
    requires
        hash.len() == 32,
        digest.len() == 32,
    ensures
        block_outcome(hash, prefix, data, digest) is Ok <==> {
            &&& prefix_decoded(prefix) matches Ok(read)
            &&& read.version is V1
            &&& read.codec == 0x55
            &&& read.mh_type == 0xb220
            &&& digest == hash
        },
        block_outcome(hash, prefix, data, digest) is Ok ==> block_outcome(
            hash,
            prefix,
            data,
            digest,
        ) == Outcome::Ok(Some(data)),
{
}

/// Why a block is not taken: its prefix is none or of the first layout; it is
/// under another hash function; its data has another hash; or it is content in
/// another encoding. The first of these that holds is reported.
pub proof fn block_is_refused_for_the_first_reason(
    hash: Seq<u8>,
    prefix: Seq<u8>,
    data: Seq<u8>,
    digest: Seq<u8>,
)
    requires
        hash.len() == 32,
        digest.len() == 32,
    ensures
        match prefix_decoded(prefix) {
            Err(words) => block_outcome(hash, prefix, data, digest) == Outcome::Err(
                BitswapErrorView::DecodeError(words),
            ),
            Ok(read) => {
                let cid = CidView {
                    version: CidVersion::V1,
                    codec: read.codec,
                    code: read.mh_type,
                    digest,
                };
                let outcome = block_outcome(hash, prefix, data, digest);
                &&& read.version is V0 ==> outcome == Outcome::Err(
                    BitswapErrorView::DecodeError("bitswap block prefix used unsupported CIDv0"@),
                )
                &&& read.version is V1 && read.mh_type != 0xb220 ==> outcome == Outcome::Err(
                    BitswapErrorView::DecodeError(
                        "peer returned unsupported CID "@ + cid_text(cid),
                    ),
                )
                &&& read.version is V1 && read.mh_type == 0xb220 && digest != hash ==> outcome
                    == Outcome::Err(BitswapErrorView::HashMismatch)
                &&& read.version is V1 && read.mh_type == 0xb220 && digest == hash && read.codec
                    != 0x55 ==> outcome == Outcome::Err(
                    BitswapErrorView::DecodeError("peer returned unexpected CID "@ + cid_text(cid)),
                )
            },
        },
{
}

/// A peer's word on the wanted content settles the matter: one is that it does
/// not have it, zero that it has it but did not send it, and any other number is
/// no word. A word on other content settles nothing, and one on no content at all
/// is refused with the words for that.
pub proof fn word_on_the_wanted_content_settles(
    hash: Seq<u8>,
    cid: CidView,
    words: Seq<char>,
    presence: i32,
)
    ensures
        ({
            let wanted = cid.version is V1 && cid.codec == 0x55 && cid.code == 0xb220
                && cid.digest == hash;
            let outcome = presence_outcome(hash, Ok(cid), presence);
            &&& !wanted ==> outcome is None
            &&& wanted && presence == 1 ==> outcome == Some(Outcome::Ok(None))
            &&& wanted && presence == 0 ==> outcome == Some(
                Outcome::Err(
                    BitswapErrorView::DecodeError(
                        "peer advertised HAVE without returning block data"@,
                    ),
                ),
            )
            &&& wanted && presence != 0 && presence != 1 ==> outcome == Some(
                Outcome::Err(
                    BitswapErrorView::DecodeError(
                        "peer returned unknown block presence type "@ + signed_text(
                            presence as int,
                        ),
                    ),
                ),
            )
        }),
        presence_outcome(hash, Err(words), presence) == Some(
            Outcome::Err(BitswapErrorView::DecodeError(words)),
        ),
{
    if cid.version is V1 && cid.codec == 0x55 && cid.code == 0xb220 && cid.digest == hash {
        assert(cid == wanted_cid(hash));
    }
}

/// The identifier that a peer gave is the one at the front of the bytes; where
/// there is none, the words are those for these bytes.
pub proof fn given_identifier_is_at_the_front(bytes: Seq<u8>)
    ensures
        cid_decoded(bytes) matches Some(cid) ==> cid_given(bytes) == Ok::<CidView, Seq<char>>(cid),
        cid_decoded(bytes) is None ==> cid_given(bytes) == Err::<CidView, Seq<char>>(
            cid_read_error(bytes),
        ),
{
}

/// Words on other content are passed over: the first that is not decides, and
/// where all are, the peer does not have the content.
pub proof fn first_word_that_settles_decides(
    hash: Seq<u8>,
    others: Seq<BlockPresence>,
    word: BlockPresence,
    more: Seq<BlockPresence>,
)
    requires
        forall|i: int|
            0 <= i < others.len() ==> presence_outcome(
                hash,
                cid_given((#[trigger] others[i]).cid@),
                others[i].presence,
            ) is None,
    ensures
        presences_outcome(hash, others) == Outcome::Ok(None),
        presence_outcome(hash, cid_given(word.cid@), word.presence) matches Some(outcome)
            ==> presences_outcome(hash, others.push(word) + more) == outcome,
    decreases others.len(),
{
    let all = others.push(word) + more;
    if others.len() == 0 {
        assert(all[0] == word);
    } else {
        let rest = others.drop_first();
        assert(all[0] == others[0]);
        assert(all.drop_first() =~= rest.push(word) + more);
        assert forall|i: int| 0 <= i < rest.len() implies presence_outcome(
            hash,
            cid_given((#[trigger] rest[i]).cid@),
            rest[i].presence,
        ) is None by {
            assert(rest[i] == others[i + 1]);
        }
        first_word_that_settles_decides(hash, rest, word, more);
    }
}

/// Where a peer sends blocks, the first alone decides; where it sends none, its
/// words do.
pub proof fn first_block_decides_before_words(hash: Seq<u8>, response: BitswapMessage)
    ensures
        ({
            let outcome = reply_outcome(hash, BitswapReply::Response(response));
            &&& response.payload@.len() > 0 ==> outcome == block_outcome(
                hash,
                response.payload@[0].prefix@,
                response.payload@[0].data@,
                blake2_256(response.payload@[0].data@),
            )
            &&& response.payload@.len() == 0 ==> outcome == presences_outcome(
                hash,
                response.block_presences@,
            )
        }),
{
}

/// A request that failed is reported as such, and an answer that is no message as
/// one that cannot be decoded, each in the words that came with it.
pub proof fn failures_are_passed_on(hash: Seq<u8>, text: String)
    ensures
        reply_outcome(hash, BitswapReply::Failed(text)) == Outcome::Err(
            BitswapErrorView::RequestFailed(text@),
        ),
        reply_outcome(hash, BitswapReply::Undecodable(text)) == Outcome::Err(
            BitswapErrorView::DecodeError(text@),
        ),
{
}

/// A request has one entry, which is no cancellation and wants the block itself
/// and word if it is not there. The bytes in it read as the identifier of raw
/// content under the wanted Blake2b hash. There is nothing else in the request,
/// and it adds to what was wanted before.
pub proof fn request_names_the_wanted_content(message: BitswapMessage, hash: Seq<u8>)
    requires
        asks_for(message, hash),
        hash.len() == 32,
    ensures
        message.wantlist is Some,
        ({
            let wantlist = message.wantlist->0;
            let entry = wantlist.entries@[0];
            &&& wantlist.entries@.len() == 1
            &&& !wantlist.full
            &&& !entry.cancel
            &&& entry.send_dont_have
            &&& entry.want_type == 0
            &&& entry.priority == 0
            &&& cid_decoded(entry.block@) matches Some(cid) && {
                &&& cid.version is V1
                &&& cid.codec == 0x55
                &&& cid.code == 0xb220
                &&& cid.digest == hash
            }
        }),
        message.blocks@.len() == 0,
        message.payload@.len() == 0,
        message.block_presences@.len() == 0,
        message.pending_bytes == 0,
{
    let bytes = message.wantlist->0.entries@[0].block@;
    cid_reads_back(wanted_cid(hash), Seq::empty());
    assert(bytes + Seq::empty() =~= bytes);
}

/// What a result of a fetch says is what it holds: its data, that there is none,
/// or its error with its words.
pub proof fn results_say_what_they_hold(data: Vec<u8>, text: String)
    ensures
        outcome_of(Ok(Some(data))) == Outcome::Ok(Some(data@)),
        outcome_of(Ok(None)) == Outcome::Ok(None),
        outcome_of(Err(BitswapError::HashMismatch)) == Outcome::Err(BitswapErrorView::HashMismatch),
        outcome_of(Err(BitswapError::DecodeError(text))) == Outcome::Err(
            BitswapErrorView::DecodeError(text@),
        ),
        outcome_of(Err(BitswapError::RequestFailed(text))) == Outcome::Err(
            BitswapErrorView::RequestFailed(text@),
        ),
{
}

/// What an identifier says is what its fields hold.
pub proof fn identifiers_say_what_they_hold(cid: Cid)
    ensures
        cid@.version == cid.version,
        cid@.codec == cid.codec,
        cid@.code == cid.hash.code,
        cid@.digest == cid.hash.digest@,
{
}

} // verus!

//! Asking a peer for content over bitswap, and judging what it answers.

use crate::bytes::{same_bytes, ContentHash};
use crate::content_id::{
    cid_decoded, cid_encoded, cid_read_error, cid_reads_back, cid_text, cid_to_bytes, cid_to_text,
    read_cid, same_cid, wrap_multihash, Cid, CidVersion, CidView, BLAKE2B_256_MULTIHASH_CODE,
    RAW_CODEC,
};
use crate::hashing::{blake2_256, blake_two_256};
use crate::text::{decimal, decimal_text, hex, hex_text, signed_decimal, signed_text};
use crate::varint::{
    decode_varint, varint_decoded, varint_encoded, varint_error_text, varint_needs_no_more,
    varint_reads_back,
};
use vstd::array::array_as_slice;
use vstd::prelude::*;

verus! {

/// What the code of a wanted block is on the wire.
pub const WANT_BLOCK: i32 = 0;

/// What a peer says of content that it has.
pub const PRESENCE_HAVE: i32 = 0;

/// What a peer says of content that it does not have.
pub const PRESENCE_DONT_HAVE: i32 = 1;

/// One piece of content that is wanted.
#[derive(Clone, Debug, PartialEq, Eq)]
pub struct Entry {
    /// The bytes of the content identifier.
    pub block: Vec<u8>,
    pub priority: i32,
    pub cancel: bool,
    pub want_type: i32,
    pub send_dont_have: bool,
}

/// What is wanted.
#[derive(Clone, Debug, PartialEq, Eq)]
pub struct Wantlist {
    pub entries: Vec<Entry>,
    /// Whether this replaces everything that was wanted before.
    pub full: bool,
}

/// A piece of content that a peer sends.
#[derive(Clone, Debug, PartialEq, Eq)]
pub struct Block {
    /// The content identifier without its digest.
    pub prefix: Vec<u8>,
    pub data: Vec<u8>,
}

/// What a peer says of a piece of content without sending it.
#[derive(Clone, Debug, PartialEq, Eq)]
pub struct BlockPresence {
    /// The bytes of the content identifier.
    pub cid: Vec<u8>,
    pub presence: i32,
}

/// A message of the protocol, in either direction.
#[derive(Clone, Debug, PartialEq, Eq)]
pub struct BitswapMessage {
    pub wantlist: Option<Wantlist>,
    pub blocks: Vec<Vec<u8>>,
    pub payload: Vec<Block>,
    pub block_presences: Vec<BlockPresence>,
    pub pending_bytes: i32,
}

/// What became of a request.
#[derive(Clone, Debug, PartialEq, Eq)]
pub enum BitswapReply {
    /// The peer answered with this message.
    Response(BitswapMessage),
    /// The peer answered with bytes that are no message; the words say why.
    Undecodable(String),
    /// No answer came; the words say why.
    Failed(String),
}

/// Bitswap client errors.
#[derive(Clone, Debug, PartialEq, Eq)]
pub enum BitswapError {
    /// Returned data did not match the requested content hash.
    HashMismatch,
    /// Failed to decode or validate a bitswap payload.
    DecodeError(String),
    /// Request/response exchange failed.
    RequestFailed(String),
}

/// What a [`BitswapError`] says.
#[verifier::ext_equal]
pub enum BitswapErrorView {
    HashMismatch,
    DecodeError(Seq<char>),
    RequestFailed(Seq<char>),
}

impl View for BitswapError {
    type V = BitswapErrorView;

    open spec fn view(&self) -> BitswapErrorView {
        match self {
            BitswapError::HashMismatch => BitswapErrorView::HashMismatch,
            BitswapError::DecodeError(text) => BitswapErrorView::DecodeError(text@),
            BitswapError::RequestFailed(text) => BitswapErrorView::RequestFailed(text@),
        }
    }
}

/// Content, the fact that there is none, or an error.
pub type Outcome = Result<Option<Seq<u8>>, BitswapErrorView>;

/// What the result of a fetch says.
pub open spec fn outcome_of(result: Result<Option<Vec<u8>>, BitswapError>) -> Outcome {
    match result {
        Ok(Some(data)) => Ok(Some(data@)),
        Ok(None) => Ok(None),
        Err(error) => Err(error@),
    }
}

/// All of a content identifier but its digest.
#[derive(Clone, Copy, Debug, PartialEq, Eq, Structural)]
pub struct Prefix {
    pub version: CidVersion,
    pub codec: u64,
    pub mh_type: u64,
    pub mh_len: u8,
}

/// The identifier of the content whose Blake2b hash is `hash`.
pub open spec fn wanted_cid(hash: Seq<u8>) -> CidView {
    CidView {
        version: CidVersion::V1,
        codec: RAW_CODEC,
        code: BLAKE2B_256_MULTIHASH_CODE,
        digest: hash,
    }
}

/// Whether an identifier is of a kind that the protocol serves here: the second
/// layout, around a Blake2b hash of 256 bits.
pub open spec fn cid_supported(cid: CidView) -> bool {
    cid.version == CidVersion::V1 && cid.code == BLAKE2B_256_MULTIHASH_CODE && cid.digest.len()
        == 32
}

/// The four numbers at the front of `bytes`, with the bytes behind them.
pub open spec fn four_varints(bytes: Seq<u8>) -> Result<
    (u64, u64, u64, u64, Seq<u8>),
    Seq<char>,
> {
    match varint_decoded(bytes) {
        Err(e) => Err(varint_error_text(e)),
        Ok((a, behind_a)) => match varint_decoded(behind_a) {
            Err(e) => Err(varint_error_text(e)),
            Ok((b, behind_b)) => match varint_decoded(behind_b) {
                Err(e) => Err(varint_error_text(e)),
                Ok((c, behind_c)) => match varint_decoded(behind_c) {
                    Err(e) => Err(varint_error_text(e)),
                    Ok((d, behind_d)) => Ok((a, b, c, d, behind_d)),
                },
            },
        },
    }
}

/// The prefix that `bytes` is, or the words for why it is none.
pub open spec fn prefix_decoded(bytes: Seq<u8>) -> Result<Prefix, Seq<char>> {
    match four_varints(bytes) {
        Err(words) => Err(words),
        Ok((version, codec, mh_type, mh_len, behind)) => if behind.len() != 0 {
            Err("bitswap block prefix had trailing bytes"@)
        } else if version > 1 {
            Err("unsupported CID version "@ + decimal_text(version as nat))
        } else if mh_len > 0xff {
            Err(
                "multihash length "@ + decimal_text(mh_len as nat)
                    + " does not fit into u8"@,
            )
        } else {
            Ok(
                Prefix {
                    version: if version == 0 {
                        CidVersion::V0
                    } else {
                        CidVersion::V1
                    },
                    codec,
                    mh_type,
                    mh_len: mh_len as u8,
                },
            )
        },
    }
}

/// The identifier of a block with this prefix whose data has this digest, or
/// the words for why it has none.
pub open spec fn prefixed_cid(prefix: Seq<u8>, digest: Seq<u8>) -> Result<CidView, Seq<char>> {
    match prefix_decoded(prefix) {
        Err(words) => Err(words),
        Ok(prefix) => if prefix.version == CidVersion::V1 {
            Ok(
                CidView {
                    version: CidVersion::V1,
                    codec: prefix.codec,
                    code: prefix.mh_type,
                    digest,
                },
            )
        } else {
            Err("bitswap block prefix used unsupported CIDv0"@)
        },
    }
}

/// What comes of a block that a peer sent when `hash` was wanted, where the
/// data of the block has the digest `digest`. The data is held against the
/// wanted hash before the rest of the identifier is.
pub open spec fn block_outcome(
    hash: Seq<u8>,
    prefix: Seq<u8>,
    data: Seq<u8>,
    digest: Seq<u8>,
) -> Outcome {
    match prefixed_cid(prefix, digest) {
        Err(words) => Err(BitswapErrorView::DecodeError(words)),
        Ok(cid) => if !cid_supported(cid) {
            Err(BitswapErrorView::DecodeError("peer returned unsupported CID "@ + cid_text(cid)))
        } else if digest != hash {
            Err(BitswapErrorView::HashMismatch)
        } else if cid != wanted_cid(hash) {
            Err(BitswapErrorView::DecodeError("peer returned unexpected CID "@ + cid_text(cid)))
        } else {
            Ok(Some(data))
        },
    }
}

/// What comes of a peer's word on a piece of content when `hash` was wanted:
/// `None` where it is on other content. `read` is the identifier it gave, or
/// the words for why that is none.
pub open spec fn presence_outcome(
    hash: Seq<u8>,
    read: Result<CidView, Seq<char>>,
    presence: i32,
) -> Option<Outcome> {
    match read {
        Err(words) => Some(Err(BitswapErrorView::DecodeError(words))),
        Ok(cid) => if cid != wanted_cid(hash) {
            None
        } else if presence == PRESENCE_DONT_HAVE {
            Some(Ok(None))
        } else if presence == PRESENCE_HAVE {
            Some(
                Err(
                    BitswapErrorView::DecodeError(
                        "peer advertised HAVE without returning block data"@,
                    ),
                ),
            )
        } else {
            Some(
                Err(
                    BitswapErrorView::DecodeError(
                        "peer returned unknown block presence type "@ + signed_text(
                            presence as int,
                        ),
                    ),
                ),
            )
        },
    }
}

/// The identifier that a peer gave, or the words for why that is none.
pub open spec fn cid_given(bytes: Seq<u8>) -> Result<CidView, Seq<char>> {
    match cid_decoded(bytes) {
        Some(cid) => Ok(cid),
        None => Err(cid_read_error(bytes)),
    }
}

/// What comes of a peer's words on content: the first that settles the matter
/// does. Where none does, the peer does not have it.
pub open spec fn presences_outcome(hash: Seq<u8>, presences: Seq<BlockPresence>) -> Outcome
    decreases presences.len(),
{
    if presences.len() == 0 {
        Ok(None)
    } else {
        match presence_outcome(hash, cid_given(presences[0].cid@), presences[0].presence) {
            Some(outcome) => outcome,
            None => presences_outcome(hash, presences.drop_first()),
        }
    }
}

/// What comes of a peer's message when `hash` was wanted: its first block
/// settles the matter, if it sent one.
pub open spec fn response_outcome(hash: Seq<u8>, response: BitswapMessage) -> Outcome {
    if response.payload@.len() > 0 {
        let block = response.payload@[0];
        block_outcome(hash, block.prefix@, block.data@, blake2_256(block.data@))
    } else {
        presences_outcome(hash, response.block_presences@)
    }
}

/// What comes of a request for the content with the hash `hash`.
pub open spec fn reply_outcome(hash: Seq<u8>, reply: BitswapReply) -> Outcome {
    match reply {
        BitswapReply::Response(response) => response_outcome(hash, response),
        BitswapReply::Undecodable(text) => Err(BitswapErrorView::DecodeError(text@)),
        BitswapReply::Failed(text) => Err(BitswapErrorView::RequestFailed(text@)),
    }
}

/// The prefix that goes with raw content under its Blake2b hash.
pub open spec fn raw_prefix() -> Seq<u8> {
    varint_encoded(1) + varint_encoded(RAW_CODEC as nat) + varint_encoded(
        BLAKE2B_256_MULTIHASH_CODE as nat,
    ) + varint_encoded(32)
}

/// Whether a reply brings a block, and the first is raw content under its
/// Blake2b hash.
pub open spec fn sends_raw_block(reply: BitswapReply) -> bool {
    match reply {
        BitswapReply::Response(response) => response.payload@.len() > 0
            && response.payload@[0].prefix@ == raw_prefix(),
        _ => false,
    }
}

/// The data of the first block in a reply.
pub open spec fn first_block_data(reply: BitswapReply) -> Seq<u8> {
    reply->Response_0.payload@[0].data@
}

/// Whether a message asks for the content with the hash `hash`, and for word if it
/// is not there, and does nothing else.
pub open spec fn asks_for(message: BitswapMessage, hash: Seq<u8>) -> bool {
    &&& message.wantlist matches Some(wantlist) && {
        &&& !wantlist.full
        &&& wantlist.entries@.len() == 1
        &&& wantlist.entries@[0].block@ == cid_encoded(wanted_cid(hash))
        &&& wantlist.entries@[0].priority == 0
        &&& !wantlist.entries@[0].cancel
        &&& wantlist.entries@[0].want_type == 0
        &&& wantlist.entries@[0].send_dont_have
    }
    &&& message.blocks@.len() == 0
    &&& message.payload@.len() == 0
    &&& message.block_presences@.len() == 0
    &&& message.pending_bytes == 0
}

/// `bytes` as lower-case hexadecimal, two digits to the byte.
pub fn hex_encode(bytes: &[u8]) -> (text: String)
    ensures
        text@ == hex_text(bytes@),
{
    hex(bytes)
}

fn decode_error(context: &str, detail: &str) -> (error: BitswapError)
    ensures
        error@ == BitswapErrorView::DecodeError(context@ + detail@),
{
    let mut text = context.to_owned();
    text.append(detail);
    BitswapError::DecodeError(text)
}

/// The prefix of a block, from the bytes that a peer sent.
pub fn decode_prefix(bytes: &[u8]) -> (decoded: Result<Prefix, BitswapError>)
    ensures
        match prefix_decoded(bytes@) {
            Ok(prefix) => decoded == Ok::<Prefix, BitswapError>(prefix),
            Err(words) => decoded matches Err(error) && error@ == BitswapErrorView::DecodeError(
                words,
            ),
        },
{
    let (version, rest): (u64, &[u8]) = match decode_varint(bytes) {
        Ok(decoded) => decoded,
        Err(text) => {
            return Err(BitswapError::DecodeError(text));
        },
    };
    let (codec, rest): (u64, &[u8]) = match decode_varint(rest) {
        Ok(decoded) => decoded,
        Err(text) => {
            return Err(BitswapError::DecodeError(text));
        },
    };
    let (mh_type, rest): (u64, &[u8]) = match decode_varint(rest) {
        Ok(decoded) => decoded,
        Err(text) => {
            return Err(BitswapError::DecodeError(text));
        },
    };
    let (mh_len, rest): (u64, &[u8]) = match decode_varint(rest) {
        Ok(decoded) => decoded,
        Err(text) => {
            return Err(BitswapError::DecodeError(text));
        },
    };
    if rest.len() != 0 {
        return Err(
            BitswapError::DecodeError("bitswap block prefix had trailing bytes".to_owned()),
        );
    }
    if version > 1 {
        return Err(decode_error("unsupported CID version ", decimal(version).as_str()));
    }
    if mh_len > 0xff {
        let mut text = "multihash length ".to_owned();
        text.append(decimal(mh_len).as_str());
        text.append(" does not fit into u8");
        return Err(BitswapError::DecodeError(text));
    }
    let version: CidVersion = if version == 0 {
        CidVersion::V0
    } else {
        CidVersion::V1
    };
    Ok(Prefix { version, codec, mh_type, mh_len: mh_len as u8 })
}

/// Whether an identifier is of a kind that the protocol serves here.
pub fn is_cid_supported(cid: &Cid) -> (supported: bool)
    ensures
        supported == cid_supported(cid@),
{
    cid.version == CidVersion::V1 && cid.hash.code == BLAKE2B_256_MULTIHASH_CODE
        && cid.hash.digest.len() == 32
}

/// Bitswap client.
#[derive(Debug)]
pub struct BitswapClient;

impl Default for BitswapClient {
    fn default() -> (client: Self)
        ensures
            client == BitswapClient,
    {
        BitswapClient
    }
}

impl BitswapClient {
    /// Create a new [`BitswapClient`].
    pub fn new() -> (client: Self)
        ensures
            client == BitswapClient,
    {
        BitswapClient
    }

    /// The identifier of the content with this hash.
    pub fn cid_for_hash(content_hash: ContentHash) -> (cid: Result<Cid, BitswapError>)
        ensures
            cid matches Ok(made) && made@ == wanted_cid(content_hash@),
    {
        match wrap_multihash(BLAKE2B_256_MULTIHASH_CODE, array_as_slice(&content_hash)) {
            Ok(hash) => Ok(Cid { version: CidVersion::V1, codec: RAW_CODEC, hash }),
            Err(text) => Err(BitswapError::DecodeError(text)),
        }
    }

    /// The identifier of a block with this prefix whose data has this digest.
    pub fn cid_from_prefix_and_digest(prefix: &[u8], digest: [u8; 32]) -> (cid: Result<
        Cid,
        BitswapError,
    >)
        ensures
            match prefixed_cid(prefix@, digest@) {
                Ok(view) => cid matches Ok(made) && made@ == view,
                Err(words) => cid matches Err(error) && error@ == BitswapErrorView::DecodeError(
                    words,
                ),
            },
    {
        let prefix: Prefix = match decode_prefix(prefix) {
            Ok(prefix) => prefix,
            Err(error) => {
                return Err(error);
            },
        };
        match wrap_multihash(prefix.mh_type, array_as_slice(&digest)) {
            Err(text) => Err(BitswapError::DecodeError(text)),
            Ok(hash) => match prefix.version {
                CidVersion::V1 => Ok(Cid { version: CidVersion::V1, codec: prefix.codec, hash }),
                CidVersion::V0 => Err(
                    BitswapError::DecodeError(
                        "bitswap block prefix used unsupported CIDv0".to_owned(),
                    ),
                ),
            },
        }
    }

    /// The identifier of a block that a peer sent.
    pub fn cid_from_block_prefix(prefix: &[u8], data: &[u8]) -> (cid: Result<Cid, BitswapError>)
        ensures
            match prefixed_cid(prefix@, blake2_256(data@)) {
                Ok(view) => cid matches Ok(made) && made@ == view,
                Err(words) => cid matches Err(error) && error@ == BitswapErrorView::DecodeError(
                    words,
                ),
            },
            cid matches Ok(made) ==> made@.digest.len() == 32,
    {
        Self::cid_from_prefix_and_digest(prefix, blake_two_256(data))
    }

    /// The message that asks a peer for the content with this hash, and for its
    /// word if it does not have it.
    pub fn want_request(&self, content_hash: ContentHash) -> (request: Result<
        BitswapMessage,
        BitswapError,
    >)
        ensures
            request matches Ok(message) && asks_for(message, content_hash@),
    {
        let cid: Cid = match Self::cid_for_hash(content_hash) {
            Ok(cid) => cid,
            Err(error) => {
                return Err(error);
            },
        };
        let mut entries: Vec<Entry> = Vec::new();
        entries.push(
            Entry {
                block: cid_to_bytes(&cid),
                priority: 0,
                cancel: false,
                want_type: WANT_BLOCK,
                send_dont_have: true,
            },
        );
        Ok(
            BitswapMessage {
                wantlist: Some(Wantlist { entries, full: false }),
                blocks: Vec::new(),
                payload: Vec::new(),
                block_presences: Vec::new(),
                pending_bytes: 0,
            },
        )
    }

    /// Judges a block that a peer sent when `content_hash` was wanted; `digest`
    /// is the Blake2b hash of the data in it.
    pub fn accept_block(
        &self,
        content_hash: ContentHash,
        block: Block,
        digest: [u8; 32],
    ) -> (result: Result<Option<Vec<u8>>, BitswapError>)
        ensures
            outcome_of(result) == block_outcome(
                content_hash@,
                block.prefix@,
                block.data@,
                digest@,
            ),
    {
        let cid: Cid = match Self::cid_for_hash(content_hash) {
            Ok(cid) => cid,
            Err(error) => {
                return Err(error);
            },
        };
        let block_cid: Cid = match Self::cid_from_prefix_and_digest(
            block.prefix.as_slice(),
            digest,
        ) {
            Ok(cid) => cid,
            Err(error) => {
                return Err(error);
            },
        };
        if !is_cid_supported(&block_cid) {
            return Err(
                decode_error(
                    "peer returned unsupported CID ",
                    cid_to_text(&block_cid).as_str(),
                ),
            );
        }
        if !same_bytes(array_as_slice(&digest), array_as_slice(&content_hash)) {
            return Err(BitswapError::HashMismatch);
        }
        if !same_cid(&block_cid, &cid) {
            return Err(
                decode_error("peer returned unexpected CID ", cid_to_text(&block_cid).as_str()),
            );
        }
        Ok(Some(block.data))
    }

    /// Judges a peer's word on a piece of content when `content_hash` was
    /// wanted; `read` is the identifier that it gave, or the words for why that
    /// is none. `None` where the word is on other content.
    pub fn accept_presence(
        &self,
        content_hash: ContentHash,
        read: Result<Cid, String>,
        presence: i32,
    ) -> (verdict: Option<Result<Option<Vec<u8>>, BitswapError>>)
        ensures
            ({
                let given: Result<CidView, Seq<char>> = match read {
                    Ok(cid) => Ok(cid@),
                    Err(text) => Err(text@),
                };
                match presence_outcome(content_hash@, given, presence) {
                    Some(outcome) => verdict matches Some(result) && outcome_of(result) == outcome,
                    None => verdict is None,
                }
            }),
    {
        let cid: Cid = match Self::cid_for_hash(content_hash) {
            Ok(cid) => cid,
            Err(error) => {
                return Some(Err(error));
            },
        };
        match read {
            Err(text) => Some(Err(BitswapError::DecodeError(text))),
            Ok(presence_cid) => {
                if !same_cid(&presence_cid, &cid) {
                    None
                } else if presence == PRESENCE_DONT_HAVE {
                    Some(Ok(None))
                } else if presence == PRESENCE_HAVE {
                    Some(
                        Err(
                            BitswapError::DecodeError(
                                "peer advertised HAVE without returning block data".to_owned(),
                            ),
                        ),
                    )
                } else {
                    Some(
                        Err(
                            decode_error(
                                "peer returned unknown block presence type ",
                                signed_decimal(presence).as_str(),
                            ),
                        ),
                    )
                }
            },
        }
    }

    /// Judges a peer's words on content when `content_hash` was wanted and no
    /// block came.
    pub fn accept_presences(
        &self,
        content_hash: ContentHash,
        presences: &[BlockPresence],
    ) -> (result: Result<Option<Vec<u8>>, BitswapError>)
        ensures
            outcome_of(result) == presences_outcome(content_hash@, presences@),
    {
        let mut i: usize = 0;
        assert(presences@.skip(0) =~= presences@);
        while i < presences.len()
            invariant
                i <= presences@.len(),
                presences_outcome(content_hash@, presences@) == presences_outcome(
                    content_hash@,
                    presences@.skip(i as int),
                ),
            decreases presences@.len() - i,
        {
            let read: Result<Cid, String> = read_cid(presences[i].cid.as_slice());
            assert(presences@.skip(i as int)[0] == presences@[i as int]);
            assert(presences@.skip(i as int).drop_first() =~= presences@.skip(i + 1));
            match self.accept_presence(content_hash, read, presences[i].presence) {
                Some(result) => {
                    return result;
                },
                None => {},
            }
            i += 1;
        }
        Ok(None)
    }

    /// What comes of asking a peer for the content with this hash: the content,
    /// `None` where the peer does not have it, or why neither is known. `reply`
    /// is what became of the request of [`BitswapClient::want_request`].
    pub fn fetch(&self, content_hash: ContentHash, reply: BitswapReply) -> (result: Result<
        Option<Vec<u8>>,
        BitswapError,
    >)
        ensures
            outcome_of(result) == reply_outcome(content_hash@, reply),
            result matches Ok(Some(data)) ==> blake2_256(data@) == content_hash@,
            sends_raw_block(reply) && blake2_256(first_block_data(reply)) != content_hash@
                ==> outcome_of(result) == Outcome::Err(BitswapErrorView::HashMismatch),
    {
        proof {
            fetched_data_has_the_wanted_hash(content_hash@, reply);
            lemma_raw_prefix();
        }
        let response: BitswapMessage = match reply {
            BitswapReply::Response(response) => response,
            BitswapReply::Undecodable(text) => {
                return Err(BitswapError::DecodeError(text));
            },
            BitswapReply::Failed(text) => {
                return Err(BitswapError::RequestFailed(text));
            },
        };
        let mut payload: Vec<Block> = response.payload;
        if payload.len() > 0 {
            let block: Block = payload.remove(0);
            let digest: [u8; 32] = blake_two_256(block.data.as_slice());
            return self.accept_block(content_hash, block, digest);
        }
        self.accept_presences(content_hash, response.block_presences.as_slice())
    }
}

proof fn lemma_presences_bring_no_data(hash: Seq<u8>, presences: Seq<BlockPresence>)
    ensures
        !(presences_outcome(hash, presences) matches Ok(Some(_))),
        presences_outcome(hash, presences) != Outcome::Err(BitswapErrorView::HashMismatch),
    decreases presences.len(),
{
    if presences.len() > 0 {
        lemma_presences_bring_no_data(hash, presences.drop_first());
    }
}

/// Whether a reply brings a block, and the first is of a supported kind.
pub open spec fn sends_supported_block(reply: BitswapReply) -> bool {
    match reply {
        BitswapReply::Response(response) => {
            &&& response.payload@.len() > 0
            &&& prefixed_cid(
                response.payload@[0].prefix@,
                blake2_256(response.payload@[0].data@),
            ) matches Ok(cid)
            &&& cid_supported(cid)
        },
        _ => false,
    }
}

/// Data that comes of a request has the hash that was asked for. A supported
/// block whose data has another hash is reported as a mismatch of hashes, and
/// nothing else is.
pub proof fn fetched_data_has_the_wanted_hash(hash: Seq<u8>, reply: BitswapReply)
    ensures
        reply_outcome(hash, reply) matches Ok(Some(data)) ==> blake2_256(data) == hash,
        reply_outcome(hash, reply) == Outcome::Err(BitswapErrorView::HashMismatch)
            <==> sends_supported_block(reply) && blake2_256(first_block_data(reply)) != hash,
{
    if let BitswapReply::Response(response) = reply {
        lemma_presences_bring_no_data(hash, response.block_presences@);
    }
}

/// A peer that sends the wanted content under its own prefix is believed,
/// whatever else it sends.
pub proof fn wanted_data_is_accepted(hash: Seq<u8>, response: BitswapMessage)
    requires
        hash.len() == 32,
        response.payload@.len() > 0,
        response.payload@[0].prefix@ == raw_prefix(),
        blake2_256(response.payload@[0].data@) == hash,
    ensures
        reply_outcome(hash, BitswapReply::Response(response)) == Outcome::Ok(
            Some(response.payload@[0].data@),
        ),
{
    lemma_raw_prefix();
}

proof fn lemma_raw_prefix()
    ensures
        prefix_decoded(raw_prefix()) == Ok::<Prefix, Seq<char>>(
            Prefix {
                version: CidVersion::V1,
                codec: RAW_CODEC,
                mh_type: BLAKE2B_256_MULTIHASH_CODE,
                mh_len: 32,
            },
        ),
{
    let behind_code = varint_encoded(32) + Seq::empty();
    let behind_codec = varint_encoded(BLAKE2B_256_MULTIHASH_CODE as nat) + behind_code;
    let behind_version = varint_encoded(RAW_CODEC as nat) + behind_codec;
    assert(raw_prefix() =~= varint_encoded(1) + behind_version);
    varint_reads_back(1, behind_version);
    varint_reads_back(RAW_CODEC, behind_codec);
    varint_reads_back(BLAKE2B_256_MULTIHASH_CODE, behind_code);
    varint_reads_back(32, Seq::empty());
}

/// A peer that sends no data and first says that it does not have the wanted
/// content is believed.
pub proof fn dont_have_is_believed(hash: Seq<u8>, response: BitswapMessage)
    requires
        hash.len() == 32,
        response.payload@.len() == 0,
        response.block_presences@.len() > 0,
        response.block_presences@[0].cid@ == cid_encoded(wanted_cid(hash)),
        response.block_presences@[0].presence == PRESENCE_DONT_HAVE,
    ensures
        reply_outcome(hash, BitswapReply::Response(response)) == Outcome::Ok(None),
{
    cid_reads_back(wanted_cid(hash), Seq::empty());
    assert(cid_encoded(wanted_cid(hash)) + Seq::empty() =~= cid_encoded(wanted_cid(hash)));
}

/// Requests for two pieces of content are told apart by the bytes of their
/// identifiers.
pub proof fn wanted_identifiers_differ(a: Seq<u8>, b: Seq<u8>)
    requires
        a.len() == 32,
        b.len() == 32,
        a != b,
    ensures
        cid_encoded(wanted_cid(a)) != cid_encoded(wanted_cid(b)),
{
    cid_reads_back(wanted_cid(a), Seq::empty());
    cid_reads_back(wanted_cid(b), Seq::empty());
}

/// No prefix is the front of another one: with more bytes behind it, what was a
/// prefix is refused for those bytes.
pub proof fn no_prefix_extends_another(prefix: Seq<u8>, rest: Seq<u8>)
    requires
        prefix_decoded(prefix) is Ok,
        rest.len() > 0,
    ensures
        prefix_decoded(prefix + rest) == Err::<Prefix, Seq<char>>(
            "bitswap block prefix had trailing bytes"@,
        ),
{
    if let Ok((_, behind_version)) = varint_decoded(prefix) {
        varint_needs_no_more(prefix, rest);
        if let Ok((_, behind_codec)) = varint_decoded(behind_version) {
            varint_needs_no_more(behind_version, rest);
            if let Ok((_, behind_type)) = varint_decoded(behind_codec) {
                varint_needs_no_more(behind_codec, rest);
                varint_needs_no_more(behind_type, rest);
            }
        }
    }
}

} // verus!

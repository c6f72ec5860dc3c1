//! Content identifiers: which content is meant, how it is encoded, and by
//! which hash it is known.

use crate::bytes::same_bytes;
use crate::text::decimal_text;
use crate::varint::{varint_decoded, varint_encoded, varint_reads_back};
use vstd::prelude::*;

verus! {

/// The code of content that is nothing but its bytes.
pub const RAW_CODEC: u64 = 0x55;

/// The code of Blake2b hashes of 256 bits.
pub const BLAKE2B_256_MULTIHASH_CODE: u64 = 0xb220;

/// The longest digest that an identifier can hold, in bytes.
pub const MAX_DIGEST_LEN: usize = 64;

/// The two layouts of an identifier.
#[derive(Clone, Copy, Debug, PartialEq, Eq, Structural)]
pub enum CidVersion {
    V0,
    V1,
}

/// A digest, with the code of the function that made it.
#[derive(Clone, Debug, PartialEq, Eq)]
pub struct Multihash {
    pub code: u64,
    pub digest: Vec<u8>,
}

/// A content identifier.
#[derive(Clone, Debug, PartialEq, Eq)]
pub struct Cid {
    pub version: CidVersion,
    pub codec: u64,
    pub hash: Multihash,
}

/// What a content identifier says.
#[verifier::ext_equal]
pub struct CidView {
    pub version: CidVersion,
    pub codec: u64,
    pub code: u64,
    pub digest: Seq<u8>,
}

impl View for Cid {
    type V = CidView;

    open spec fn view(&self) -> CidView {
        CidView {
            version: self.version,
            codec: self.codec,
            code: self.hash.code,
            digest: self.hash.digest@,
        }
    }
}

impl CidView {
    /// Whether this is an identifier of the second layout whose digest is no
    /// longer than one can be.
    pub open spec fn is_v1(self) -> bool {
        self.version == CidVersion::V1 && self.digest.len() <= MAX_DIGEST_LEN
    }
}

/// The bytes of an identifier of the second layout.
pub open spec fn cid_encoded(cid: CidView) -> Seq<u8> {
    varint_encoded(1) + varint_encoded(cid.codec as nat) + varint_encoded(cid.code as nat)
        + varint_encoded(cid.digest.len()) + cid.digest
}

/// The hash code and the digest at the front of `bytes`.
pub open spec fn multihash_decoded(bytes: Seq<u8>) -> Option<(u64, Seq<u8>)> {
    match varint_decoded(bytes) {
        Ok((code, behind_code)) => match varint_decoded(behind_code) {
            Ok((size, behind_size)) => if size <= MAX_DIGEST_LEN && size <= behind_size.len() {
                Some((code, behind_size.take(size as int)))
            } else {
                None
            },
            Err(_) => None,
        },
        Err(_) => None,
    }
}

/// The identifier at the front of `bytes`, if there is one. The first layout is
/// a bare SHA2-256 hash of 32 bytes, known by its first two bytes.
pub open spec fn cid_decoded(bytes: Seq<u8>) -> Option<CidView> {
    match varint_decoded(bytes) {
        Ok((version, behind_version)) => match varint_decoded(behind_version) {
            Ok((codec, behind_codec)) => if version == 0x12 && codec == 0x20 {
                if behind_codec.len() >= 32 {
                    Some(
                        CidView {
                            version: CidVersion::V0,
                            codec: 0x70,
                            code: 0x12,
                            digest: behind_codec.take(32),
                        },
                    )
                } else {
                    None
                }
            } else if version == 1 {
                match multihash_decoded(behind_codec) {
                    Some((code, digest)) => Some(
                        CidView { version: CidVersion::V1, codec, code, digest },
                    ),
                    None => None,
                }
            } else {
                None
            },
            Err(_) => None,
        },
        Err(_) => None,
    }
}

/// The bit at position `at` of `bytes`, counted from the high bit of the first
/// byte; behind the end all bits are zero.
pub open spec fn bit_at(bytes: Seq<u8>, at: int) -> int {
    if at / 8 < bytes.len() {
        (bytes[at / 8] as int / vstd::arithmetic::power2::pow2((7 - at % 8) as nat) as int) % 2
    } else {
        0
    }
}

/// `bytes` in lower-case base 32 without padding: a letter or digit for every
/// five bits.
pub open spec fn base32_text(bytes: Seq<u8>) -> Seq<char> {
    Seq::new(
        (8 * bytes.len() + 4) / 5,
        |i: int|
            "abcdefghijklmnopqrstuvwxyz234567"@[16 * bit_at(bytes, 5 * i) + 8 * bit_at(
                bytes,
                5 * i + 1,
            ) + 4 * bit_at(bytes, 5 * i + 2) + 2 * bit_at(bytes, 5 * i + 3) + bit_at(
                bytes,
                5 * i + 4,
            )],
    )
}

/// An identifier of the second layout as it is printed.
pub open spec fn cid_text(cid: CidView) -> Seq<char> {
    seq!['b'] + base32_text(cid_encoded(cid))
}

/// The words in which `cid::Cid::read_bytes` reports that it found no
/// identifier at the front of `bytes`.
pub uninterp spec fn cid_read_error(bytes: Seq<u8>) -> Seq<char>;

/// Calls `cid::multihash::Multihash::wrap`, for digests of up to 64 bytes, and
/// the `Display` of its error. Claimed: the code and the digest are kept, and
/// only a digest that is too long is refused, in these words.
#[verifier::external_body]
pub(crate) fn wrap_multihash(code: u64, digest: &[u8]) -> (wrapped: Result<Multihash, String>)
    ensures
        match wrapped {
            Ok(hash) => digest@.len() <= MAX_DIGEST_LEN && hash.code == code && hash.digest@
                == digest@,
            Err(text) => digest@.len() > MAX_DIGEST_LEN && text@ == "Invalid multihash size "@
                + decimal_text(digest@.len()) + "."@,
        },
{
    ::cid::multihash::Multihash::<64>::wrap(code, digest)
        .map(|hash| Multihash { code: hash.code(), digest: hash.digest().to_vec() })
        .map_err(|err| err.to_string())
}

/// Calls `cid::Cid::to_bytes` on an identifier of the second layout. Claimed:
/// the bytes are those of [`cid_encoded`].
#[verifier::external_body]
pub(crate) fn cid_to_bytes(cid: &Cid) -> (bytes: Vec<u8>)
    requires
        cid@.is_v1(),
    ensures
        bytes@ == cid_encoded(cid@),
{
    let hash = ::cid::multihash::Multihash::<64>::wrap(cid.hash.code, &cid.hash.digest).unwrap();
    ::cid::Cid::new_v1(cid.codec, hash).to_bytes()
}

/// Calls the `Display` of `cid::Cid` on an identifier of the second layout.
/// Claimed: the text is that of [`cid_text`].
#[verifier::external_body]
pub(crate) fn cid_to_text(cid: &Cid) -> (text: String)
    requires
        cid@.is_v1(),
    ensures
        text@ == cid_text(cid@),
{
    let hash = ::cid::multihash::Multihash::<64>::wrap(cid.hash.code, &cid.hash.digest).unwrap();
    ::cid::Cid::new_v1(cid.codec, hash).to_string()
}

/// Calls `cid::Cid::read_bytes` and, where that fails, the `Display` of its
/// error. Claimed: the identifier is that of [`cid_decoded`]; the words of a
/// failure depend on the bytes alone.
#[verifier::external_body]
pub(crate) fn read_cid(bytes: &[u8]) -> (read: Result<Cid, String>)
    ensures
        match cid_decoded(bytes@) {
            Some(found) => read matches Ok(cid) && cid@ == found,
            None => read matches Err(text) && text@ == cid_read_error(bytes@),
        },
{
    match ::cid::Cid::read_bytes(bytes) {
        Ok(cid) => Ok(Cid {
            version: match cid.version() {
                ::cid::Version::V0 => CidVersion::V0,
                ::cid::Version::V1 => CidVersion::V1,
            },
            codec: cid.codec(),
            hash: Multihash { code: cid.hash().code(), digest: cid.hash().digest().to_vec() },
        }),
        Err(err) => Err(err.to_string()),
    }
}

/// Whether two identifiers say the same.
pub fn same_cid(a: &Cid, b: &Cid) -> (same: bool)
    ensures
        same == (a@ == b@),
{
    a.version == b.version && a.codec == b.codec && a.hash.code == b.hash.code && same_bytes(
        a.hash.digest.as_slice(),
        b.hash.digest.as_slice(),
    )
}

/// What is written of an identifier of the second layout reads back as that
/// identifier, whatever stands behind it.
pub proof fn cid_reads_back(cid: CidView, rest: Seq<u8>)
    requires
        cid.is_v1(),
    ensures
        cid_decoded(cid_encoded(cid) + rest) == Some(cid),
{
    let size = cid.digest.len() as u64;
    let behind_size = cid.digest + rest;
    let behind_code = varint_encoded(size as nat) + behind_size;
    let behind_codec = varint_encoded(cid.code as nat) + behind_code;
    let behind_version = varint_encoded(cid.codec as nat) + behind_codec;
    assert(cid_encoded(cid) + rest =~= varint_encoded(1) + behind_version);
    varint_reads_back(1, behind_version);
    varint_reads_back(cid.codec, behind_codec);
    varint_reads_back(cid.code, behind_code);
    varint_reads_back(size, behind_size);
    assert(behind_size.take(size as int) =~= cid.digest);
}

} // verus!

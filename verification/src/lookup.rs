//! Where a block is found in the database, and what its header says of it.

use crate::hashing::{blake2_hasher_256, database_hash};
use crate::scale::{
    array_decoded, compact_decoded, compact_encoded, compact_reads_back, compact_size, decode_array,
    decode_compact,
};
use crate::text::{hex, hex_text};
use vstd::prelude::*;

verus! {

/// How many columns the database has.
pub const NUM_COLUMNS: u32 = 13;

/// The column of facts about the chain as a whole.
pub const META: u32 = 0;

/// The column from block numbers to lookup keys.
pub const KEY_LOOKUP: u32 = 3;

/// The column of headers.
pub const HEADER: u32 = 4;

/// The column of bodies that are kept as they are.
pub const BODY: u32 = 5;

/// The column of data that was cut out of bodies.
pub const TRANSACTION: u32 = 11;

/// The column of bodies that are kept as an index.
pub const BODY_INDEX: u32 = 12;

/// The key of the best block, `best`.
pub fn best_block_key() -> (key: [u8; 4])
    ensures
        key@ == seq![0x62u8, 0x65u8, 0x73u8, 0x74u8],
{
    [0x62, 0x65, 0x73, 0x74]
}

/// The key of the last finalized block, `final`.
pub fn finalized_block_key() -> (key: [u8; 5])
    ensures
        key@ == seq![0x66u8, 0x69u8, 0x6eu8, 0x61u8, 0x6cu8],
{
    [0x66, 0x69, 0x6e, 0x61, 0x6c]
}

/// The key of the hash of the first block, `gen`.
pub fn genesis_hash_key() -> (key: [u8; 3])
    ensures
        key@ == seq![0x67u8, 0x65u8, 0x6eu8],
{
    [0x67, 0x65, 0x6e]
}

/// The four bytes of a block number, the most significant first.
pub open spec fn number_key(n: u32) -> Seq<u8> {
    seq![
        (n / 0x100_0000) as u8,
        (n / 0x1_0000 % 0x100) as u8,
        (n / 0x100 % 0x100) as u8,
        (n % 0x100) as u8,
    ]
}

/// The block number at the front of a lookup key.
pub open spec fn key_number(key: Seq<u8>) -> Option<u32> {
    if key.len() >= 4 {
        Some((key[0] * 0x100_0000 + key[1] * 0x1_0000 + key[2] * 0x100 + key[3]) as u32)
    } else {
        None
    }
}

/// The block hash behind the number in a lookup key, as it is printed.
pub open spec fn key_hash_text(key: Seq<u8>) -> Option<Seq<char>> {
    if key.len() > 4 {
        Some("0x"@ + hex_text(key.skip(4)))
    } else {
        None
    }
}

/// The number in a header. It stands behind the hash of the parent; where the
/// header is too short for that hash, at the front. What cannot be read counts
/// as zero.
pub open spec fn header_number(header: Seq<u8>) -> u32 {
    let behind_parent = match array_decoded(header) {
        Ok((_, behind)) => behind,
        Err(_) => header,
    };
    match compact_decoded(behind_parent) {
        Ok((number, _)) => number,
        Err(_) => 0,
    }
}

/// The key under which the lookup key of block `n` is kept.
pub fn number_index_key(n: u32) -> (key: [u8; 4])
    ensures
        key@ == number_key(n),
{
    [
        (n / 0x100_0000) as u8,
        (n / 0x1_0000 % 0x100) as u8,
        (n / 0x100 % 0x100) as u8,
        (n % 0x100) as u8,
    ]
}

/// The block number at the front of a lookup key, if the key is long enough.
pub fn number_from_lookup_key(lookup_key: &[u8]) -> (number: Option<u32>)
    ensures
        number == key_number(lookup_key@),
{
    if lookup_key.len() >= 4 {
        Some(
            lookup_key[0] as u32 * 0x100_0000 + lookup_key[1] as u32 * 0x1_0000 + lookup_key[2]
                as u32 * 0x100 + lookup_key[3] as u32,
        )
    } else {
        None
    }
}

/// The block hash in a lookup key, as it is printed, if the key has one.
pub fn hash_from_lookup_key(lookup_key: &[u8]) -> (hash: Option<String>)
    ensures
        match key_hash_text(lookup_key@) {
            Some(text) => hash matches Some(printed) && printed@ == text,
            None => hash is None,
        },
{
    if lookup_key.len() > 4 {
        let tail: &[u8] = vstd::slice::slice_subrange(lookup_key, 4, lookup_key.len());
        assert(tail@ =~= lookup_key@.skip(4));
        let mut printed = "0x".to_owned();
        printed.append(hex(tail).as_str());
        Some(printed)
    } else {
        None
    }
}

/// The number in a header, and `hash`, the hash of the header, in hexadecimal.
pub fn header_summary(header_bytes: &[u8], hash: [u8; 32]) -> (summary: (u32, String))
    ensures
        summary.0 == header_number(header_bytes@),
        summary.1@ == hex_text(hash@),
{
    let behind_parent: &[u8] = match decode_array(header_bytes) {
        Ok((_, behind)) => behind,
        Err(_) => header_bytes,
    };
    let number: u32 = match decode_compact(behind_parent) {
        Ok((number, _)) => number,
        Err(_) => 0,
    };
    (number, hex(vstd::array::array_as_slice(&hash)))
}

/// The number in a header, and the hash of the header in hexadecimal.
pub fn decode_header_number_hash(header_bytes: &[u8]) -> (decoded: (u32, String))
    ensures
        decoded.0 == header_number(header_bytes@),
        decoded.1@ == hex_text(database_hash(header_bytes@)),
        decoded.1@.len() == 64,
{
    header_summary(header_bytes, blake2_hasher_256(header_bytes))
}

/// The key of a block number gives that number back, whatever stands behind it.
pub proof fn number_key_reads_back(n: u32, rest: Seq<u8>)
    ensures
        key_number(number_key(n) + rest) == Some(n),
{
}

/// No two block numbers have one key.
pub proof fn number_keys_differ(a: u32, b: u32)
    requires
        a != b,
    ensures
        number_key(a) != number_key(b),
{
    number_key_reads_back(a, Seq::empty());
    number_key_reads_back(b, Seq::empty());
}

/// The keys of block numbers stand in the order of the numbers: at the first
/// byte at which two keys differ, that of the smaller number is smaller.
pub proof fn number_keys_keep_order(a: u32, b: u32) -> (at: int)
    requires
        a < b,
    ensures
        0 <= at < 4,
        number_key(a).take(at) == number_key(b).take(at),
        number_key(a)[at] < number_key(b)[at],
{
    let first = number_key(a);
    let second = number_key(b);
    let at = if first[0] != second[0] {
        0
    } else if first[1] != second[1] {
        1
    } else if first[2] != second[2] {
        2
    } else {
        3int
    };
    assert(first.take(at) =~= second.take(at));
    at
}

/// A key of a block number has four bytes. A lookup key with fewer has no number,
/// and what stands behind them does not matter to the number.
pub proof fn numbers_take_four_bytes(n: u32, key: Seq<u8>)
    ensures
        number_key(n).len() == 4,
        key.len() < 4 ==> key_number(key) is None,
        key.len() >= 4 ==> key_number(key) is Some && number_key(key_number(key)->0) == key.take(4),
{
    if key.len() >= 4 {
        lemma_bytes_of_number(key[0], key[1], key[2], key[3]);
        assert(number_key(key_number(key)->0) =~= key.take(4));
    }
}

proof fn lemma_bytes_of_number(a: u8, b: u8, c: u8, d: u8)
    ensures
        ({
            let n = (a * 0x100_0000 + b * 0x1_0000 + c * 0x100 + d) as u32;
            number_key(n) == seq![a, b, c, d]
        }),
{
    let n = (a * 0x100_0000 + b * 0x1_0000 + c * 0x100 + d) as u32;
    assert(n == a * 0x100_0000 + b * 0x1_0000 + c * 0x100 + d);
    assert(n / 0x100_0000 == a);
    assert(n / 0x1_0000 == a * 0x100 + b);
    assert(n / 0x100 == a * 0x1_0000 + b * 0x100 + c);
    assert(number_key(n) =~= seq![a, b, c, d]);
}

/// The hash in a lookup key is all that stands behind the number, if anything
/// does, and is printed in hexadecimal behind `0x`.
pub proof fn hash_stands_behind_the_number(n: u32, hash: Seq<u8>, key: Seq<u8>)
    ensures
        hash.len() > 0 ==> (key_hash_text(number_key(n) + hash) matches Some(text) && {
            &&& text.len() == 2 + 2 * hash.len()
            &&& text[0] == '0'
            &&& text[1] == 'x'
            &&& text.skip(2) == hex_text(hash)
        }),
        key.len() <= 4 ==> key_hash_text(key) is None,
{
    reveal_strlit("0x");
    if hash.len() > 0 {
        assert((number_key(n) + hash).skip(4) =~= hash);
        assert(key_hash_text(number_key(n) + hash)->0.skip(2) =~= hex_text(hash));
    }
}

/// The number of a header is the one that stands in compact form behind the hash
/// of its parent, whatever comes after it.
pub proof fn header_number_stands_behind_the_parent(parent: Seq<u8>, n: u32, rest: Seq<u8>)
    requires
        parent.len() == 32,
    ensures
        header_number(parent + compact_encoded(n) + rest) == n,
{
    let header = parent + compact_encoded(n) + rest;
    compact_reads_back(n, rest);
    assert(header.skip(32) =~= compact_encoded(n) + rest);
}

/// A header without room for the hash of a parent has its number in front.
pub proof fn short_header_has_its_number_in_front(n: u32, rest: Seq<u8>)
    requires
        compact_size(n) + rest.len() < 32,
    ensures
        header_number(compact_encoded(n) + rest) == n,
{
    compact_reads_back(n, rest);
}

/// A number that cannot be read counts as zero.
pub proof fn unreadable_header_number_is_zero(header: Seq<u8>)
    ensures
        header.len() >= 32 && compact_decoded(header.skip(32)) is Err ==> header_number(header)
            == 0,
        header.len() < 32 && compact_decoded(header) is Err ==> header_number(header) == 0,
{
}

} // verus!

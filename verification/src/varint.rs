//! Unsigned integers in groups of seven bits, the least significant group
//! first; the high bit of a byte says that another one follows.

use vstd::prelude::*;

verus! {

/// What can be wrong with the bytes of a number.
pub enum VarintError {
    /// The bytes end before the number does.
    Insufficient,
    /// The number goes on behind the last byte that 64 bits can need.
    Overflow,
    /// The number ends in a group that adds nothing to it.
    NotMinimal,
}

/// How many bytes at the front say that another byte follows.
pub open spec fn continued_bytes(bytes: Seq<u8>) -> nat
    decreases bytes.len(),
{
    if bytes.len() == 0 || bytes[0] < 0x80 {
        0
    } else {
        1 + continued_bytes(bytes.drop_first())
    }
}

/// The number that the low seven bits of `bytes` make up, the least
/// significant group first.
pub open spec fn base128_value(bytes: Seq<u8>) -> nat
    decreases bytes.len(),
{
    if bytes.len() == 0 {
        0
    } else {
        bytes[0] as nat % 128 + 128 * base128_value(bytes.drop_first())
    }
}

/// The number at the front of `bytes`, with the bytes behind it. It takes ten
/// bytes at most; of a tenth byte only the lowest bit is kept.
pub open spec fn varint_decoded(bytes: Seq<u8>) -> Result<(u64, Seq<u8>), VarintError> {
    let last = continued_bytes(bytes) as int;
    if last >= 10 {
        Err(VarintError::Overflow)
    } else if last == bytes.len() {
        Err(VarintError::Insufficient)
    } else if last > 0 && bytes[last] == 0 {
        Err(VarintError::NotMinimal)
    } else {
        Ok(
            (
                (base128_value(bytes.take(last + 1)) % 0x1_0000_0000_0000_0000) as u64,
                bytes.skip(last + 1),
            ),
        )
    }
}

/// The bytes of `n`, as few as can be.
pub open spec fn varint_encoded(n: nat) -> Seq<u8>
    decreases n,
{
    if n < 128 {
        seq![n as u8]
    } else {
        seq![(n % 128 + 128) as u8] + varint_encoded(n / 128)
    }
}

/// The words in which a failure is reported.
pub open spec fn varint_error_text(error: VarintError) -> Seq<char> {
    match error {
        VarintError::Insufficient => "not enough input bytes"@,
        VarintError::Overflow => "input bytes exceed maximum"@,
        VarintError::NotMinimal => "encoding is not minimal"@,
    }
}

/// Calls `unsigned_varint::decode::u64` and, where that fails, the `Display` of
/// its error. Claimed: the number and the rest of the bytes are those of
/// [`varint_decoded`], and a failure is told in the words of
/// [`varint_error_text`].
#[verifier::external_body]
pub(crate) fn decode_varint(bytes: &[u8]) -> (decoded: Result<(u64, &[u8]), String>)
    ensures
        match varint_decoded(bytes@) {
            Ok((n, rest)) => decoded matches Ok((number, tail)) && number == n && tail@ == rest,
            Err(error) => decoded matches Err(text) && text@ == varint_error_text(error),
        },
{
    unsigned_varint::decode::u64(bytes).map_err(|err| err.to_string())
}

/// A number is written in as many bytes as its groups of seven bits ask for,
/// and what is written stands for it.
proof fn lemma_encoded_groups(n: nat, rest: Seq<u8>, limit: nat)
    requires
        n < vstd::arithmetic::power::pow(128, limit),
        limit > 0,
    ensures
        0 < varint_encoded(n).len() <= limit,
        base128_value(varint_encoded(n)) == n,
        continued_bytes(varint_encoded(n) + rest) == varint_encoded(n).len() - 1,
        varint_encoded(n).len() > 1 ==> varint_encoded(n).last() != 0,
    decreases n,
{
    let bytes = varint_encoded(n);
    if n < 128 {
        assert(bytes.drop_first() =~= Seq::<u8>::empty());
        assert((bytes + rest)[0] == bytes[0]);
        reveal_with_fuel(base128_value, 2);
    } else {
        let tail = varint_encoded(n / 128);
        vstd::arithmetic::power::lemma_pow1(128);
        vstd::arithmetic::power::lemma_pow0(128);
        if limit == 1 {
            assert(false);
        }
        assert(vstd::arithmetic::power::pow(128, limit) == 128 * vstd::arithmetic::power::pow(
            128,
            (limit - 1) as nat,
        )) by {
            reveal(vstd::arithmetic::power::pow);
        }
        lemma_encoded_groups(n / 128, rest, (limit - 1) as nat);
        assert(bytes.drop_first() =~= tail);
        assert((bytes + rest).drop_first() =~= tail + rest);
        assert(bytes.last() == tail.last());
        if tail.len() == 1 {
            assert(n / 128 > 0);
            if n / 128 >= 128 {
                assert(varint_encoded(n / 128 / 128).len() > 0);
            }
        }
    }
}

/// What is written of a number of 64 bits reads back as that number, whatever
/// stands behind it.
pub proof fn varint_reads_back(n: u64, rest: Seq<u8>)
    ensures
        varint_decoded(varint_encoded(n as nat) + rest) == Ok::<(u64, Seq<u8>), VarintError>(
            (n, rest),
        ),
{
    let bytes = varint_encoded(n as nat);
    assert(vstd::arithmetic::power::pow(128, 10) > n) by {
        reveal(vstd::arithmetic::power::pow);
        reveal_with_fuel(vstd::arithmetic::power::pow, 11);
    }
    lemma_encoded_groups(n as nat, rest, 10);
    let all = bytes + rest;
    let last = bytes.len() - 1;
    assert(all.take(last + 1) =~= bytes);
    assert(all.skip(last + 1) =~= rest);
    assert(all[last] == bytes.last());
}

/// A number that reads at all reads the same with more bytes behind it.
pub proof fn varint_needs_no_more(bytes: Seq<u8>, rest: Seq<u8>)
    ensures
        varint_decoded(bytes) matches Ok((n, behind)) ==> varint_decoded(bytes + rest) == Ok::<
            (u64, Seq<u8>),
            VarintError,
        >((n, behind + rest)),
{
    lemma_continued(bytes, rest);
    let last = continued_bytes(bytes) as int;
    if last < bytes.len() {
        assert((bytes + rest).take(last + 1) =~= bytes.take(last + 1));
        assert((bytes + rest).skip(last + 1) =~= bytes.skip(last + 1) + rest);
    }
}

proof fn lemma_continued(bytes: Seq<u8>, rest: Seq<u8>)
    ensures
        continued_bytes(bytes) <= bytes.len(),
        continued_bytes(bytes) < bytes.len() ==> continued_bytes(bytes + rest) == continued_bytes(
            bytes,
        ),
    decreases bytes.len(),
{
    if bytes.len() > 0 {
        assert((bytes + rest)[0] == bytes[0]);
        assert((bytes + rest).drop_first() =~= bytes.drop_first() + rest);
        lemma_continued(bytes.drop_first(), rest);
    }
}

} // verus!

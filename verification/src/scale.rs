//! The pieces of the SCALE encoding that stored values are made of: compact
//! integers, runs of 32 bytes and runs of bytes behind their length.

use vstd::prelude::*;

verus! {

/// The number whose bytes are `bytes`, the least significant first.
pub open spec fn little_endian(bytes: Seq<u8>) -> nat
    decreases bytes.len(),
{
    if bytes.len() == 0 {
        0
    } else {
        bytes[0] as nat + 256 * little_endian(bytes.drop_first())
    }
}

/// The words for an input that ends too early.
pub open spec fn short_input_text() -> Seq<char> {
    "Not enough data to fill buffer"@
}

/// The words for a compact integer in a form that is too long or too short for
/// it.
pub open spec fn out_of_range_text() -> Seq<char> {
    "out of range decoding Compact<u32>"@
}

/// The words for a run of bytes that is shorter than the length in front of it.
pub open spec fn short_vector_text() -> Seq<char> {
    "Not enough data to decode vector"@
}

/// A compact integer in a form of `width` bytes, with the bytes behind it: the
/// bytes are read as one number and divided by `dropped`, which takes off the
/// bits that chose the form. A value up to `above` has a shorter form, so it is
/// refused here.
pub open spec fn compact_wide(
    bytes: Seq<u8>,
    width: int,
    dropped: nat,
    above: nat,
) -> Result<(u32, Seq<u8>), Seq<char>> {
    if bytes.len() < width {
        Err(short_input_text())
    } else if little_endian(bytes.take(width)) / dropped > above {
        Ok(((little_endian(bytes.take(width)) / dropped) as u32, bytes.skip(width)))
    } else {
        Err(out_of_range_text())
    }
}

/// The compact integer of 32 bits at the front of `bytes`, with the bytes
/// behind it, or the words for what is wrong. The two lowest bits of the first
/// byte choose the form: one, two or four bytes without those bits, or four
/// bytes behind the first. A value in a longer form than it needs is refused.
pub open spec fn compact_decoded(bytes: Seq<u8>) -> Result<(u32, Seq<u8>), Seq<char>> {
    if bytes.len() == 0 {
        Err(short_input_text())
    } else if bytes[0] % 4 == 0 {
        Ok(((bytes[0] / 4) as u32, bytes.skip(1)))
    } else if bytes[0] % 4 == 1 {
        compact_wide(bytes, 2, 4, 0x3f)
    } else if bytes[0] % 4 == 2 {
        compact_wide(bytes, 4, 4, 0x3fff)
    } else if bytes[0] == 3 {
        compact_wide(bytes.skip(1), 4, 1, 0x3fff_ffff)
    } else {
        Err(out_of_range_text())
    }
}

/// How many bytes the compact form of `n` takes.
pub open spec fn compact_size(n: u32) -> nat {
    if n <= 0x3f {
        1
    } else if n <= 0x3fff {
        2
    } else if n <= 0x3fff_ffff {
        4
    } else {
        5
    }
}

/// The 32 bytes at the front of `bytes`, with the bytes behind them.
pub open spec fn array_decoded(bytes: Seq<u8>) -> Result<(Seq<u8>, Seq<u8>), Seq<char>> {
    if bytes.len() < 32 {
        Err(short_input_text())
    } else {
        Ok((bytes.take(32), bytes.skip(32)))
    }
}

/// The run of bytes behind its compact length at the front of `bytes`, with the
/// bytes behind it.
pub open spec fn bytes_decoded(bytes: Seq<u8>) -> Result<(Seq<u8>, Seq<u8>), Seq<char>> {
    match compact_decoded(bytes) {
        Ok((len, behind)) => if len <= behind.len() {
            Ok((behind.take(len as int), behind.skip(len as int)))
        } else {
            Err(short_vector_text())
        },
        Err(text) => Err(text),
    }
}

/// Calls `Compact::<u32>::decode` of `parity_scale_codec` on a slice and, where
/// that fails, the `Display` of its error. Claimed: the value, the rest of the
/// bytes and the words of a failure are those of [`compact_decoded`].
#[verifier::external_body]
pub(crate) fn decode_compact(bytes: &[u8]) -> (decoded: Result<(u32, &[u8]), String>)
    ensures
        match compact_decoded(bytes@) {
            Ok((n, rest)) => decoded matches Ok((value, tail)) && value == n && tail@ == rest,
            Err(words) => decoded matches Err(text) && text@ == words,
        },
{
    let mut input = bytes;
    <parity_scale_codec::Compact<u32> as parity_scale_codec::Decode>::decode(&mut input)
        .map(|compact| (compact.0, input))
        .map_err(|err| err.to_string())
}

/// Calls `Compact::<u32>::compact_len` of `parity_scale_codec`. Claimed: the
/// length is that of [`compact_size`].
#[verifier::external_body]
pub(crate) fn compact_len(n: u32) -> (len: usize)
    ensures
        len == compact_size(n),
{
    <parity_scale_codec::Compact<u32> as parity_scale_codec::CompactLen<u32>>::compact_len(&n)
}

/// Calls `<[u8; 32]>::decode` of `parity_scale_codec` on a slice and, where that
/// fails, the `Display` of its error. Claimed: the value, the rest of the bytes
/// and the words of a failure are those of [`array_decoded`].
#[verifier::external_body]
pub(crate) fn decode_array(bytes: &[u8]) -> (decoded: Result<([u8; 32], &[u8]), String>)
    ensures
        match array_decoded(bytes@) {
            Ok((array, rest)) => decoded matches Ok((value, tail)) && value@ == array && tail@
                == rest,
            Err(words) => decoded matches Err(text) && text@ == words,
        },
{
    let mut input = bytes;
    <[u8; 32] as parity_scale_codec::Decode>::decode(&mut input)
        .map(|array| (array, input))
        .map_err(|err| err.to_string())
}

/// Calls `Vec::<u8>::decode` of `parity_scale_codec` on a slice and, where that
/// fails, the `Display` of its error. Claimed: the value, the rest of the bytes
/// and the words of a failure are those of [`bytes_decoded`].
#[verifier::external_body]
pub(crate) fn decode_bytes(bytes: &[u8]) -> (decoded: Result<(Vec<u8>, &[u8]), String>)
    ensures
        match bytes_decoded(bytes@) {
            Ok((run, rest)) => decoded matches Ok((value, tail)) && value@ == run && tail@ == rest,
            Err(words) => decoded matches Err(text) && text@ == words,
        },
{
    let mut input = bytes;
    <Vec<u8> as parity_scale_codec::Decode>::decode(&mut input)
        .map(|run| (run, input))
        .map_err(|err| err.to_string())
}

/// Calls `Input::read_byte` of `parity_scale_codec` on a slice and, where that
/// fails, the `Display` of its error. Claimed: it takes the first byte off, and
/// fails only where there is none.
#[verifier::external_body]
pub(crate) fn read_byte(bytes: &[u8]) -> (read: Result<(u8, &[u8]), String>)
    ensures
        match read {
            Ok((byte, tail)) => bytes@.len() > 0 && byte == bytes@[0] && tail@ == bytes@.skip(1),
            Err(text) => bytes@.len() == 0 && text@ == short_input_text(),
        },
{
    let mut input = bytes;
    parity_scale_codec::Input::read_byte(&mut input)
        .map(|byte| (byte, input))
        .map_err(|err| err.to_string())
}

proof fn lemma_two_bytes(bytes: Seq<u8>)
    requires
        bytes.len() == 2,
    ensures
        little_endian(bytes) < 0x1_0000,
{
    reveal_with_fuel(little_endian, 3);
}

proof fn lemma_four_bytes(bytes: Seq<u8>)
    requires
        bytes.len() == 4,
    ensures
        little_endian(bytes) < 0x1_0000_0000,
{
    reveal_with_fuel(little_endian, 5);
}

/// A compact integer that reads at all takes as many bytes as the shortest form
/// of its value.
pub proof fn compact_form_is_shortest(bytes: Seq<u8>)
    ensures
        compact_decoded(bytes) matches Ok((n, rest)) ==> compact_size(n) <= bytes.len() && rest
            == bytes.skip(compact_size(n) as int),
{
    if bytes.len() >= 2 {
        lemma_two_bytes(bytes.take(2));
    }
    if bytes.len() >= 4 {
        lemma_four_bytes(bytes.take(4));
    }
    if bytes.len() >= 5 {
        lemma_four_bytes(bytes.skip(1).take(4));
        assert(bytes.skip(1).skip(4) =~= bytes.skip(5));
    }
}

/// The `width` bytes of `n`, the least significant first.
pub open spec fn little_endian_bytes(n: nat, width: nat) -> Seq<u8>
    decreases width,
{
    if width == 0 {
        Seq::empty()
    } else {
        seq![(n % 256) as u8] + little_endian_bytes(n / 256, (width - 1) as nat)
    }
}

/// The compact form of `n`.
pub open spec fn compact_encoded(n: u32) -> Seq<u8> {
    if n <= 0x3f {
        little_endian_bytes(4 * n as nat, 1)
    } else if n <= 0x3fff {
        little_endian_bytes(4 * n as nat + 1, 2)
    } else if n <= 0x3fff_ffff {
        little_endian_bytes(4 * n as nat + 2, 4)
    } else {
        seq![3u8] + little_endian_bytes(n as nat, 4)
    }
}

proof fn lemma_bytes_of(n: nat, width: nat)
    requires
        n < vstd::arithmetic::power::pow(256, width),
    ensures
        little_endian_bytes(n, width).len() == width,
        little_endian(little_endian_bytes(n, width)) == n,
    decreases width,
{
    reveal(vstd::arithmetic::power::pow);
    if width > 0 {
        lemma_bytes_of(n / 256, (width - 1) as nat);
        let bytes = little_endian_bytes(n, width);
        assert(bytes.drop_first() =~= little_endian_bytes(n / 256, (width - 1) as nat));
    }
}

/// What a number of 32 bits is in compact form reads back as that number,
/// whatever stands behind it.
pub proof fn compact_reads_back(n: u32, rest: Seq<u8>)
    ensures
        compact_decoded(compact_encoded(n) + rest) == Ok::<(u32, Seq<u8>), Seq<char>>((n, rest)),
        compact_encoded(n).len() == compact_size(n),
{
    let bytes = compact_encoded(n);
    let all = bytes + rest;
    assert(vstd::arithmetic::power::pow(256, 1) == 0x100 && vstd::arithmetic::power::pow(256, 2)
        == 0x1_0000 && vstd::arithmetic::power::pow(256, 4) == 0x1_0000_0000) by {
        reveal(vstd::arithmetic::power::pow);
        reveal_with_fuel(vstd::arithmetic::power::pow, 5);
    }
    if n <= 0x3f {
        lemma_bytes_of(4 * n as nat, 1);
        assert(all.skip(1) =~= rest);
    } else if n <= 0x3fff {
        lemma_bytes_of(4 * n as nat + 1, 2);
        assert(all.take(2) =~= bytes);
        assert(all.skip(2) =~= rest);
    } else if n <= 0x3fff_ffff {
        lemma_bytes_of(4 * n as nat + 2, 4);
        assert(all.take(4) =~= bytes);
        assert(all.skip(4) =~= rest);
    } else {
        lemma_bytes_of(n as nat, 4);
        assert(all.skip(1).take(4) =~= little_endian_bytes(n as nat, 4));
        assert(all.skip(1).skip(4) =~= rest);
    }
}

proof fn lemma_bytes_from(bytes: Seq<u8>)
    ensures
        little_endian_bytes(little_endian(bytes), bytes.len()) == bytes,
    decreases bytes.len(),
{
    if bytes.len() > 0 {
        let rest = bytes.drop_first();
        lemma_bytes_from(rest);
        let n = little_endian(bytes);
        assert(n % 256 == bytes[0] && n / 256 == little_endian(rest));
        assert(little_endian_bytes(n, bytes.len()) =~= bytes);
    } else {
        assert(little_endian_bytes(0, 0) =~= bytes);
    }
}

/// What reads as a number in compact form is the compact form of that number.
pub proof fn compact_is_what_was_written(bytes: Seq<u8>)
    ensures
        compact_decoded(bytes) matches Ok((n, rest)) ==> bytes == compact_encoded(n) + rest,
{
    if let Ok((n, rest)) = compact_decoded(bytes) {
        compact_form_is_shortest(bytes);
        let size = compact_size(n) as int;
        let front = bytes.take(size);
        assert(bytes =~= front + rest);
        if size == 1 {
            reveal_with_fuel(little_endian, 2);
            assert(front.drop_first() =~= Seq::empty());
            lemma_bytes_from(front);
            assert(little_endian(front) == bytes[0]);
        } else if size == 2 {
            lemma_bytes_from(front);
            lemma_low_bits(front);
            lemma_two_bytes(front);
        } else if size == 4 {
            lemma_bytes_from(front);
            lemma_low_bits(front);
            lemma_four_bytes(front);
        } else {
            let four = bytes.skip(1).take(4);
            lemma_bytes_from(four);
            lemma_four_bytes(four);
            assert(front =~= seq![3u8] + four);
        }
    }
}

proof fn lemma_low_bits(bytes: Seq<u8>)
    requires
        bytes.len() > 0,
    ensures
        little_endian(bytes) % 4 == bytes[0] % 4,
{
}

} // verus!

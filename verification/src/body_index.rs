//! The index of a block body: its extrinsics in order, where data that is kept
//! on its own has been cut out and stands as the hash of that data.

use crate::bytes::ContentHash;
use crate::scale::{
    array_decoded, bytes_decoded, compact_decoded, compact_encoded, compact_form_is_shortest,
    compact_is_what_was_written, compact_len, compact_reads_back, compact_size, decode_array,
    decode_bytes, decode_compact, read_byte, short_input_text,
};
use vstd::prelude::*;

verus! {

/// An extrinsic as the index of a block body keeps it.
#[derive(Clone, Debug, PartialEq, Eq)]
pub enum DbExtrinsic {
    /// One whose data is kept on its own, under `hash`; `header` is what is left
    /// of the extrinsic in front of that data.
    Indexed { hash: ContentHash, header: Vec<u8> },
    /// One that is kept as it is.
    Full(Vec<u8>),
}

/// What an entry of the index says.
#[verifier::ext_equal]
pub enum DbExtrinsicView {
    Indexed { hash: Seq<u8>, header: Seq<u8> },
    Full(Seq<u8>),
}

impl View for DbExtrinsic {
    type V = DbExtrinsicView;

    open spec fn view(&self) -> DbExtrinsicView {
        match self {
            DbExtrinsic::Indexed { hash, header } => DbExtrinsicView::Indexed {
                hash: hash@,
                header: header@,
            },
            DbExtrinsic::Full(bytes) => DbExtrinsicView::Full(bytes@),
        }
    }
}

/// What the entries of an index say, in order.
pub open spec fn entry_views(entries: Seq<DbExtrinsic>) -> Seq<DbExtrinsicView> {
    Seq::new(entries.len(), |i: int| entries[i]@)
}

/// The words for a failure that another one caused.
pub open spec fn chained_text(context: Seq<char>, cause: Seq<char>) -> Seq<char> {
    context + ":\n\t"@ + cause + "\n"@
}

/// The entry at the front of `bytes`, with the bytes behind it: a byte for the
/// kind, then its fields.
pub open spec fn extrinsic_decoded(bytes: Seq<u8>) -> Result<
    (DbExtrinsicView, Seq<u8>),
    Seq<char>,
> {
    if bytes.len() == 0 {
        Err(
            chained_text(
                "Could not decode `DbExtrinsic`, failed to read variant byte"@,
                short_input_text(),
            ),
        )
    } else if bytes[0] == 0 {
        match array_decoded(bytes.skip(1)) {
            Ok((hash, behind_hash)) => match bytes_decoded(behind_hash) {
                Ok((header, behind)) => Ok((DbExtrinsicView::Indexed { hash, header }, behind)),
                Err(cause) => Err(
                    chained_text("Could not decode `DbExtrinsic::Indexed::header`"@, cause),
                ),
            },
            Err(cause) => Err(
                chained_text("Could not decode `DbExtrinsic::Indexed::hash`"@, cause),
            ),
        }
    } else if bytes[0] == 1 {
        match bytes_decoded(bytes.skip(1)) {
            Ok((full, behind)) => Ok((DbExtrinsicView::Full(full), behind)),
            Err(cause) => Err(chained_text("Could not decode `DbExtrinsic::Full.0`"@, cause)),
        }
    } else {
        Err("Could not decode `DbExtrinsic`, variant doesn't exist"@)
    }
}

/// `count` entries that stand one behind the other from the front of `bytes`.
pub open spec fn extrinsics_decoded(bytes: Seq<u8>, count: nat) -> Result<
    Seq<DbExtrinsicView>,
    Seq<char>,
>
    decreases count,
{
    if count == 0 {
        Ok(Seq::empty())
    } else {
        match extrinsic_decoded(bytes) {
            Ok((entry, behind)) => match extrinsics_decoded(behind, (count - 1) as nat) {
                Ok(entries) => Ok(seq![entry] + entries),
                Err(words) => Err(words),
            },
            Err(words) => Err(words),
        }
    }
}

/// The entries of an index as it is stored: their number, then one behind the
/// other. Bytes behind the last one say nothing.
pub open spec fn body_index_decoded(raw: Seq<u8>) -> Result<Seq<DbExtrinsicView>, Seq<char>> {
    match compact_decoded(raw) {
        Ok((count, behind)) => extrinsics_decoded(behind, count as nat),
        Err(words) => Err(words),
    }
}

fn chained(context: &str, cause: &str) -> (text: String)
    ensures
        text@ == chained_text(context@, cause@),
{
    let mut text = String::new();
    text.append(context);
    text.append(":\n\t");
    text.append(cause);
    text.append("\n");
    text
}

fn decode_extrinsic(bytes: &[u8]) -> (decoded: Result<(DbExtrinsic, &[u8]), String>)
    ensures
        match extrinsic_decoded(bytes@) {
            Ok((view, rest)) => decoded matches Ok((entry, tail)) && entry@ == view && tail@
                == rest,
            Err(words) => decoded matches Err(text) && text@ == words,
        },
{
    match read_byte(bytes) {
        Err(cause) => Err(
            chained(
                "Could not decode `DbExtrinsic`, failed to read variant byte",
                cause.as_str(),
            ),
        ),
        Ok((kind, fields)) => {
            if kind == 0 {
                match decode_array(fields) {
                    Err(cause) => Err(
                        chained("Could not decode `DbExtrinsic::Indexed::hash`", cause.as_str()),
                    ),
                    Ok((hash, behind_hash)) => match decode_bytes(behind_hash) {
                        Err(cause) => Err(
                            chained(
                                "Could not decode `DbExtrinsic::Indexed::header`",
                                cause.as_str(),
                            ),
                        ),
                        Ok((header, behind)) => Ok((DbExtrinsic::Indexed { hash, header }, behind)),
                    },
                }
            } else if kind == 1 {
                match decode_bytes(fields) {
                    Err(cause) => Err(
                        chained("Could not decode `DbExtrinsic::Full.0`", cause.as_str()),
                    ),
                    Ok((full, behind)) => Ok((DbExtrinsic::Full(full), behind)),
                }
            } else {
                Err("Could not decode `DbExtrinsic`, variant doesn't exist".to_owned())
            }
        },
    }
}

/// The entries of the index of a block body, from its stored bytes.
pub fn decode_body_index(raw: &[u8]) -> (decoded: Result<Vec<DbExtrinsic>, String>)
    ensures
        match body_index_decoded(raw@) {
            Ok(views) => decoded matches Ok(entries) && entry_views(entries@) == views,
            Err(words) => decoded matches Err(text) && text@ == words,
        },
{
    match decode_compact(raw) {
        Err(text) => Err(text),
        Ok((count, behind)) => {
            let mut entries: Vec<DbExtrinsic> = Vec::new();
            let mut rest: &[u8] = behind;
            let mut left: u32 = count;
            while left > 0
                invariant
                    left <= count,
                    body_index_decoded(raw@) == extrinsics_decoded(behind@, count as nat),
                    match extrinsics_decoded(rest@, left as nat) {
                        Ok(views) => extrinsics_decoded(behind@, count as nat) == Ok::<
                            Seq<DbExtrinsicView>,
                            Seq<char>,
                        >(entry_views(entries@) + views),
                        Err(words) => extrinsics_decoded(behind@, count as nat) == Err::<
                            Seq<DbExtrinsicView>,
                            Seq<char>,
                        >(words),
                    },
                decreases left,
            {
                let ghost before = entry_views(entries@);
                match decode_extrinsic(rest) {
                    Err(text) => {
                        return Err(text);
                    },
                    Ok((entry, tail)) => {
                        let ghost view = entry@;
                        proof {
                            if let Ok(views) = extrinsics_decoded(tail@, (left - 1) as nat) {
                                assert(before + (seq![view] + views) =~= before.push(view) + views);
                            }
                        }
                        entries.push(entry);
                        assert(entry_views(entries@) =~= before.push(view));
                        rest = tail;
                        left -= 1;
                    },
                }
            }
            assert(entry_views(entries@) + Seq::<DbExtrinsicView>::empty() =~= entry_views(
                entries@,
            ));
            Ok(entries)
        },
    }
}

/// The length that an extrinsic gives itself at its front.
pub open spec fn body_length(header: Seq<u8>) -> Option<u32> {
    match compact_decoded(header) {
        Ok((len, _)) => Some(len),
        Err(_) => None,
    }
}

/// Whether `header` is shorter than the extrinsic that it is the front of: the
/// data that was cut out of it came with the extrinsic itself.
pub open spec fn stores_data(header: Seq<u8>) -> bool {
    match body_length(header) {
        Some(len) => compact_size(len) + len > header.len(),
        None => false,
    }
}

/// The length that an extrinsic gives itself at its front, if that can be read.
pub fn extrinsic_body_length(header: &[u8]) -> (length: Option<u32>)
    ensures
        length == body_length(header@),
{
    match decode_compact(header) {
        Ok((length, _)) => Some(length),
        Err(_) => None,
    }
}

/// Whether an indexed extrinsic brought its data with it, rather than naming
/// data that was there before.
pub fn is_store(header: &[u8]) -> (store: bool)
    ensures
        store == stores_data(header@),
{
    match extrinsic_body_length(header) {
        Some(length) => {
            let full: u64 = compact_len(length) as u64 + length as u64;
            full > header.len() as u64
        },
        None => false,
    }
}

/// An indexed extrinsic brought its data with it exactly if the length that it
/// gives itself is more than what is left of it behind that length.
pub proof fn store_is_cut_short(header: Seq<u8>)
    ensures
        compact_decoded(header) matches Ok((len, left)) ==> stores_data(header) == (len
            > left.len()),
        compact_decoded(header) is Err ==> !stores_data(header),
{
    compact_form_is_shortest(header);
}

/// The bytes of an entry: its kind, then its fields, each run of bytes behind its
/// compact length.
pub open spec fn extrinsic_encoded(entry: DbExtrinsicView) -> Seq<u8> {
    match entry {
        DbExtrinsicView::Indexed { hash, header } => seq![0u8] + hash + compact_encoded(
            header.len() as u32,
        ) + header,
        DbExtrinsicView::Full(bytes) => seq![1u8] + compact_encoded(bytes.len() as u32) + bytes,
    }
}

/// Whether an entry can be written: a hash has 32 bytes, and a length 32 bits.
pub open spec fn writable(entry: DbExtrinsicView) -> bool {
    match entry {
        DbExtrinsicView::Indexed { hash, header } => hash.len() == 32 && header.len() <= u32::MAX,
        DbExtrinsicView::Full(bytes) => bytes.len() <= u32::MAX,
    }
}

/// The bytes of entries, one behind the other.
pub open spec fn extrinsics_encoded(entries: Seq<DbExtrinsicView>) -> Seq<u8>
    decreases entries.len(),
{
    if entries.len() == 0 {
        Seq::empty()
    } else {
        extrinsic_encoded(entries[0]) + extrinsics_encoded(entries.drop_first())
    }
}

/// An entry reads back from its bytes, whatever stands behind them.
pub proof fn extrinsic_reads_back(entry: DbExtrinsicView, rest: Seq<u8>)
    requires
        writable(entry),
    ensures
        extrinsic_decoded(extrinsic_encoded(entry) + rest) == Ok::<
            (DbExtrinsicView, Seq<u8>),
            Seq<char>,
        >((entry, rest)),
{
    let bytes = extrinsic_encoded(entry) + rest;
    match entry {
        DbExtrinsicView::Indexed { hash, header } => {
            let behind_hash = compact_encoded(header.len() as u32) + (header + rest);
            assert(bytes.skip(1) =~= hash + behind_hash);
            assert((hash + behind_hash).take(32) =~= hash);
            assert((hash + behind_hash).skip(32) =~= behind_hash);
            compact_reads_back(header.len() as u32, header + rest);
            assert((header + rest).take(header.len() as int) =~= header);
            assert((header + rest).skip(header.len() as int) =~= rest);
        },
        DbExtrinsicView::Full(full) => {
            assert(bytes.skip(1) =~= compact_encoded(full.len() as u32) + (full + rest));
            compact_reads_back(full.len() as u32, full + rest);
            assert((full + rest).take(full.len() as int) =~= full);
            assert((full + rest).skip(full.len() as int) =~= rest);
        },
    }
}

/// What reads as an entry is the bytes of that entry.
pub proof fn extrinsic_is_what_was_written(bytes: Seq<u8>)
    ensures
        extrinsic_decoded(bytes) matches Ok((entry, rest)) ==> writable(entry) && bytes
            == extrinsic_encoded(entry) + rest,
{
    if let Ok((entry, rest)) = extrinsic_decoded(bytes) {
        match entry {
            DbExtrinsicView::Indexed { hash, header } => {
                let behind_hash = bytes.skip(1).skip(32);
                compact_is_what_was_written(behind_hash);
                let behind = compact_decoded(behind_hash)->Ok_0.1;
                assert(behind =~= header + rest);
                assert(bytes =~= seq![0u8] + hash + behind_hash);
                assert(bytes =~= extrinsic_encoded(entry) + rest);
            },
            DbExtrinsicView::Full(full) => {
                compact_is_what_was_written(bytes.skip(1));
                let behind = compact_decoded(bytes.skip(1))->Ok_0.1;
                assert(behind =~= full + rest);
                assert(bytes =~= seq![1u8] + bytes.skip(1));
                assert(bytes =~= extrinsic_encoded(entry) + rest);
            },
        }
    }
}

proof fn lemma_extrinsics_read_back(entries: Seq<DbExtrinsicView>, rest: Seq<u8>)
    requires
        forall|i: int| 0 <= i < entries.len() ==> writable(#[trigger] entries[i]),
    ensures
        extrinsics_decoded(extrinsics_encoded(entries) + rest, entries.len()) == Ok::<
            Seq<DbExtrinsicView>,
            Seq<char>,
        >(entries),
    decreases entries.len(),
{
    if entries.len() > 0 {
        let behind = entries.drop_first();
        assert(extrinsics_encoded(entries) + rest =~= extrinsic_encoded(entries[0]) + (
        extrinsics_encoded(behind) + rest));
        extrinsic_reads_back(entries[0], extrinsics_encoded(behind) + rest);
        lemma_extrinsics_read_back(behind, rest);
        assert(seq![entries[0]] + behind =~= entries);
    } else {
        assert(entries =~= Seq::empty());
    }
}

/// An index reads back from its bytes: the number of its entries in compact form,
/// then the entries in order. Whatever stands behind them says nothing.
pub proof fn index_reads_back(entries: Seq<DbExtrinsicView>, rest: Seq<u8>)
    requires
        entries.len() <= u32::MAX,
        forall|i: int| 0 <= i < entries.len() ==> writable(#[trigger] entries[i]),
    ensures
        body_index_decoded(
            compact_encoded(entries.len() as u32) + extrinsics_encoded(entries) + rest,
        ) == Ok::<Seq<DbExtrinsicView>, Seq<char>>(entries),
{
    let raw = compact_encoded(entries.len() as u32) + extrinsics_encoded(entries) + rest;
    let behind = extrinsics_encoded(entries) + rest;
    assert(raw =~= compact_encoded(entries.len() as u32) + behind);
    compact_reads_back(entries.len() as u32, behind);
    lemma_extrinsics_read_back(entries, rest);
}

proof fn lemma_concat(a: Seq<u8>, b: Seq<u8>, c: Seq<u8>)
    ensures
        a + b + c == a + (b + c),
{
    assert(a + b + c =~= a + (b + c));
}

/// Whether `bytes` starts with the bytes of `entries`, all of which can be
/// written, and goes on with `rest`.
pub open spec fn starts_with_entries(
    bytes: Seq<u8>,
    entries: Seq<DbExtrinsicView>,
    rest: Seq<u8>,
) -> bool {
    &&& bytes == extrinsics_encoded(entries) + rest
    &&& forall|i: int| 0 <= i < entries.len() ==> writable(#[trigger] entries[i])
}

proof fn lemma_extrinsics_written(bytes: Seq<u8>, count: nat) -> (rest: Seq<u8>)
    requires
        extrinsics_decoded(bytes, count) is Ok,
    ensures
        extrinsics_decoded(bytes, count)->Ok_0.len() == count,
        starts_with_entries(bytes, extrinsics_decoded(bytes, count)->Ok_0, rest),
    decreases count,
{
    if count == 0 {
        assert(extrinsics_encoded(Seq::empty()) + bytes =~= bytes);
        bytes
    } else {
        extrinsic_is_what_was_written(bytes);
        let (entry, behind) = extrinsic_decoded(bytes)->Ok_0;
        let rest = lemma_extrinsics_written(behind, (count - 1) as nat);
        let tail = extrinsics_decoded(behind, (count - 1) as nat)->Ok_0;
        let entries = seq![entry] + tail;
        assert(entries.drop_first() =~= tail);
        lemma_concat(extrinsic_encoded(entry), extrinsics_encoded(tail), rest);
        assert(extrinsics_encoded(entries) == extrinsic_encoded(entry) + extrinsics_encoded(tail));
        assert forall|i: int| 0 <= i < entries.len() implies writable(#[trigger] entries[i]) by {
            if i > 0 {
                assert(entries[i] == tail[i - 1]);
            }
        }
        rest
    }
}

/// What reads as an index starts with the bytes of that index.
pub proof fn index_is_what_was_written(raw: Seq<u8>) -> (rest: Seq<u8>)
    requires
        body_index_decoded(raw) is Ok,
    ensures
        ({
            let entries = body_index_decoded(raw)->Ok_0;
            &&& entries.len() <= u32::MAX
            &&& raw == compact_encoded(entries.len() as u32) + (extrinsics_encoded(entries) + rest)
            &&& forall|i: int| 0 <= i < entries.len() ==> writable(#[trigger] entries[i])
        }),
{
    compact_is_what_was_written(raw);
    let (count, behind) = compact_decoded(raw)->Ok_0;
    lemma_extrinsics_written(behind, count as nat)
}

/// Why an entry cannot be read: there is none, it is of no kind, or one of its
/// fields ends too early or has an unreadable length, and which of them.
pub proof fn unreadable_entries_say_why(bytes: Seq<u8>)
    ensures
        extrinsic_decoded(bytes) matches Err(words) ==> {
            &&& bytes.len() == 0 ==> words
                == "Could not decode `DbExtrinsic`, failed to read variant byte"@ + ":\n\t"@
                + "Not enough data to fill buffer"@ + "\n"@
            &&& bytes.len() > 0 && bytes[0] > 1 ==> words
                == "Could not decode `DbExtrinsic`, variant doesn't exist"@
            &&& bytes.len() > 0 && bytes[0] == 0 && bytes.len() < 33 ==> words
                == "Could not decode `DbExtrinsic::Indexed::hash`"@ + ":\n\t"@
                + "Not enough data to fill buffer"@ + "\n"@
            &&& bytes.len() >= 33 && bytes[0] == 0 ==> (bytes_decoded(
                bytes.skip(33),
            ) matches Err(cause) && words
                == "Could not decode `DbExtrinsic::Indexed::header`"@ + ":\n\t"@ + cause + "\n"@)
            &&& bytes.len() > 0 && bytes[0] == 1 ==> (bytes_decoded(
                bytes.skip(1),
            ) matches Err(cause) && words == "Could not decode `DbExtrinsic::Full.0`"@ + ":\n\t"@
                + cause + "\n"@)
        },
        bytes.len() == 0 || bytes[0] > 1 ==> extrinsic_decoded(bytes) is Err,
{
    if bytes.len() >= 33 {
        assert(bytes.skip(1).skip(32) =~= bytes.skip(33));
    }
}

/// An index whose count cannot be read is refused for that; else the first entry
/// that cannot be read says why the index cannot be.
pub proof fn first_unreadable_entry_decides(
    entries: Seq<DbExtrinsicView>,
    count: u32,
    rest: Seq<u8>,
    raw: Seq<u8>,
)
    requires
        forall|i: int| 0 <= i < entries.len() ==> writable(#[trigger] entries[i]),
    ensures
        entries.len() < count ==> (extrinsic_decoded(rest) matches Err(words)
            ==> body_index_decoded(compact_encoded(count) + extrinsics_encoded(entries) + rest)
            == Err::<Seq<DbExtrinsicView>, Seq<char>>(words)),
        compact_decoded(raw) matches Err(words) ==> body_index_decoded(raw) == Err::<
            Seq<DbExtrinsicView>,
            Seq<char>,
        >(words),
{
    if entries.len() < count {
        if let Err(words) = extrinsic_decoded(rest) {
            let behind = extrinsics_encoded(entries) + rest;
            assert(compact_encoded(count) + extrinsics_encoded(entries) + rest =~= compact_encoded(
                count,
            ) + behind);
            compact_reads_back(count, behind);
            lemma_unreadable_entry(entries, count as nat, rest);
        }
    }
}

proof fn lemma_unreadable_entry(entries: Seq<DbExtrinsicView>, count: nat, rest: Seq<u8>)
    requires
        entries.len() < count,
        forall|i: int| 0 <= i < entries.len() ==> writable(#[trigger] entries[i]),
        extrinsic_decoded(rest) is Err,
    ensures
        extrinsics_decoded(extrinsics_encoded(entries) + rest, count) == Err::<
            Seq<DbExtrinsicView>,
            Seq<char>,
        >(extrinsic_decoded(rest)->Err_0),
    decreases entries.len(),
{
    if entries.len() == 0 {
        assert(extrinsics_encoded(entries) + rest =~= rest);
    } else {
        let behind = entries.drop_first();
        assert(extrinsics_encoded(entries) + rest =~= extrinsic_encoded(entries[0]) + (
        extrinsics_encoded(behind) + rest));
        extrinsic_reads_back(entries[0], extrinsics_encoded(behind) + rest);
        lemma_unreadable_entry(behind, (count - 1) as nat, rest);
    }
}

/// An extrinsic gives its length in compact form in front. It brought its data
/// with it exactly if that length is more than what is left of it behind.
pub proof fn store_says_more_than_is_left(n: u32, left: Seq<u8>)
    ensures
        body_length(compact_encoded(n) + left) == Some(n),
        stores_data(compact_encoded(n) + left) <==> n > left.len(),
{
    compact_reads_back(n, left);
    store_is_cut_short(compact_encoded(n) + left);
}

/// A header without a readable length brought nothing, and has no length.
pub proof fn header_without_length_stores_nothing(header: Seq<u8>)
    ensures
        compact_decoded(header) is Err <==> body_length(header) is None,
        compact_decoded(header) is Err ==> !stores_data(header),
{
}

/// What the entries of an index say is what each of them says, in order.
pub proof fn entries_are_viewed_in_place(entries: Seq<DbExtrinsic>)
    ensures
        entry_views(entries).len() == entries.len(),
        forall|i: int|
            0 <= i < entries.len() ==> match entries[i] {
                DbExtrinsic::Indexed { hash, header } => #[trigger] entry_views(entries)[i] == (
                DbExtrinsicView::Indexed { hash: hash@, header: header@ }),
                DbExtrinsic::Full(bytes) => entry_views(entries)[i] == DbExtrinsicView::Full(
                    bytes@,
                ),
            },
{
}

} // verus!

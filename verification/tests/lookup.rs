use parity_scale_codec::{Compact, Encode};
use storage_chain_index::lookup::{
    best_block_key, decode_header_number_hash, finalized_block_key, genesis_hash_key,
    hash_from_lookup_key, header_summary, number_from_lookup_key, number_index_key, BODY,
    BODY_INDEX, HEADER, KEY_LOOKUP, META, NUM_COLUMNS, TRANSACTION,
};
use storage_chain_index::text::{decimal, hex, pad_left, parse_u32, signed_decimal};

#[test]
fn columns_and_keys() {
    assert_eq!(
        (NUM_COLUMNS, META, KEY_LOOKUP, HEADER, BODY, TRANSACTION, BODY_INDEX),
        (13, 0, 3, 4, 5, 11, 12),
    );
    assert_eq!(&best_block_key(), b"best");
    assert_eq!(&finalized_block_key(), b"final");
    assert_eq!(&genesis_hash_key(), b"gen");
}

#[test]
fn number_index_key_is_big_endian() {
    assert_eq!(number_index_key(0x0102_a3ff), [0x01, 0x02, 0xa3, 0xff]);
    assert_eq!(number_index_key(0), [0; 4]);
    assert_eq!(number_index_key(u32::MAX), [0xff; 4]);
}

#[test]
fn number_reads_back_from_its_key() {
    for n in [0, 1, 255, 256, 65_536, 16_777_216, 4_294_967_295] {
        let mut key = number_index_key(n).to_vec();
        assert_eq!(number_from_lookup_key(&key), Some(n));
        key.extend([7; 32]);
        assert_eq!(number_from_lookup_key(&key), Some(n));
    }
}

#[test]
fn short_lookup_key_has_no_number() {
    assert_eq!(number_from_lookup_key(&[1, 2, 3]), None);
    assert_eq!(number_from_lookup_key(&[]), None);
}

#[test]
fn hash_stands_behind_the_number() {
    assert_eq!(hash_from_lookup_key(&[0, 0, 0, 1, 0xab, 0x0c]), Some("0xab0c".to_string()));
    assert_eq!(hash_from_lookup_key(&[0, 0, 0, 1]), None);
    assert_eq!(hash_from_lookup_key(&[]), None);
}

#[test]
fn header_number_stands_behind_the_parent() {
    let mut header: Vec<u8> = (0..32).collect();
    header.push(42 << 2);
    header.extend([0; 64]);
    assert_eq!(
        decode_header_number_hash(&header),
        (42, "59db3b4195d9a2c0548cfca147c4b6f652eca77b50e58f47f7774ce965aacf58".to_string()),
    );
    assert_eq!(header_summary(&header, [0x0a; 32]), (42, "0a".repeat(32)));
}

#[test]
fn header_number_in_every_form() {
    let with = |number: &[u8]| {
        let mut header = vec![0; 32];
        header.extend(number);
        header_summary(&header, [0; 32]).0
    };
    assert_eq!(with(&[0xfc]), 63);
    assert_eq!(with(&[0x01, 0x01]), 64);
    assert_eq!(with(&[0xfd, 0xff]), 16_383);
    assert_eq!(with(&[0x02, 0x00, 0x01, 0x00]), 16_384);
    assert_eq!(with(&[0xfe, 0xff, 0xff, 0xff]), 1_073_741_823);
    assert_eq!(with(&[0x03, 0x00, 0x00, 0x00, 0x40]), 1_073_741_824);
    assert_eq!(with(&[0x03, 0xff, 0xff, 0xff, 0xff]), u32::MAX);
}

#[test]
fn header_number_reads_back_from_its_compact_form() {
    for n in [0, 1, 63, 64, 16_383, 16_384, 1_073_741_823, 1_073_741_824, u32::MAX] {
        let mut header = vec![7; 32];
        header.extend(Compact(n).encode());
        header.extend([9; 5]);
        assert_eq!(header_summary(&header, [0; 32]).0, n);
    }
}

#[test]
fn header_number_that_cannot_be_read_is_zero() {
    let with = |number: &[u8]| {
        let mut header = vec![0; 32];
        header.extend(number);
        header_summary(&header, [0; 32]).0
    };
    assert_eq!(with(&[]), 0);
    assert_eq!(with(&[0x01]), 0);
    assert_eq!(with(&[0xfd, 0x00]), 0);
    assert_eq!(with(&[0x02, 0x00, 0x00, 0x00]), 0);
    assert_eq!(with(&[0x03, 0xff, 0xff, 0xff, 0x3f]), 0);
    assert_eq!(with(&[0x07, 0xff, 0xff, 0xff, 0xff, 0xff]), 0);
}

#[test]
fn header_without_room_for_a_parent_has_its_number_in_front() {
    assert_eq!(header_summary(&[8 << 2, 1, 2, 3], [0; 32]).0, 8);
    assert_eq!(header_summary(&[], [0; 32]).0, 0);
}

#[test]
fn hash_of_an_empty_header() {
    assert_eq!(
        decode_header_number_hash(&[]).1,
        "0e5751c026e543b2e8ab2eb06099daa1d1e5df47778f7787faab45cdf12fe3a8",
    );
}

#[test]
fn numbers_as_text() {
    assert_eq!(hex(&[0, 16, 255]), "0010ff");
    assert_eq!(decimal(0), "0");
    assert_eq!(decimal(u64::MAX), "18446744073709551615");
    assert_eq!(signed_decimal(0), "0");
    assert_eq!(signed_decimal(-1), "-1");
    assert_eq!(signed_decimal(i32::MIN), "-2147483648");
    assert_eq!(pad_left("abc", 5), "  abc");
    assert_eq!(pad_left("abc", 3), "abc");
    assert_eq!(pad_left("abc", 0), "abc");
    assert_eq!(pad_left("ü", 3), "  ü");
}

#[test]
fn number_keys_keep_the_order_of_numbers() {
    let numbers = [0, 1, 255, 256, 65_535, 65_536, 16_777_215, 16_777_216, u32::MAX];
    for pair in numbers.windows(2) {
        assert!(number_index_key(pair[0]) < number_index_key(pair[1]));
    }
}

#[test]
fn hex_joins_and_tells_bytes_apart() {
    assert_eq!(hex(&[1, 2, 0xfe]), hex(&[1]) + &hex(&[2, 0xfe]));
    for a in 0..=255u8 {
        assert_eq!(hex(&[a]), format!("{a:02x}"));
    }
}

#[test]
fn numbers_from_text() {
    for n in [0, 7, 10, 4_294_967_295] {
        assert_eq!(parse_u32(&decimal(n as u64)), Some(n));
    }
    assert_eq!(parse_u32("+12"), Some(12));
    assert_eq!(parse_u32("007"), Some(7));
    assert_eq!(parse_u32("4294967296"), None);
    assert_eq!(parse_u32(""), None);
    assert_eq!(parse_u32("+"), None);
    assert_eq!(parse_u32("-1"), None);
    assert_eq!(parse_u32(" 1"), None);
    assert_eq!(parse_u32("1a"), None);
}

use parity_scale_codec::Encode;
use storage_chain_index::body_index::{
    decode_body_index, extrinsic_body_length, is_store, DbExtrinsic,
};

fn indexed(hash: u8, header: &[u8]) -> Vec<u8> {
    (0u8, [hash; 32], header.to_vec()).encode()
}

fn full(bytes: &[u8]) -> Vec<u8> {
    (1u8, bytes.to_vec()).encode()
}

fn index(entries: &[Vec<u8>]) -> Vec<u8> {
    let mut raw = parity_scale_codec::Compact(entries.len() as u32).encode();
    for entry in entries {
        raw.extend(entry);
    }
    raw
}

#[test]
fn index_reads_its_entries_in_order() {
    let raw = index(&[full(&[1, 2]), indexed(7, &[3, 4, 5]), full(&[])]);
    assert_eq!(
        decode_body_index(&raw),
        Ok(vec![
            DbExtrinsic::Full(vec![1, 2]),
            DbExtrinsic::Indexed { hash: [7; 32], header: vec![3, 4, 5] },
            DbExtrinsic::Full(vec![]),
        ]),
    );
}

#[test]
fn index_of_many_entries() {
    let raw = index(&vec![indexed(1, &[9; 70]); 100]);
    let entries = decode_body_index(&raw).unwrap();
    assert_eq!(entries.len(), 100);
    assert_eq!(entries[99], DbExtrinsic::Indexed { hash: [1; 32], header: vec![9; 70] });
}

#[test]
fn empty_index() {
    assert_eq!(decode_body_index(&[0]), Ok(vec![]));
}

#[test]
fn bytes_behind_the_last_entry_say_nothing() {
    let mut raw = index(&[full(&[1])]);
    raw.extend([0xff; 5]);
    assert_eq!(decode_body_index(&raw), Ok(vec![DbExtrinsic::Full(vec![1])]));
}

#[test]
fn index_without_a_count() {
    assert_eq!(decode_body_index(&[]), Err("Not enough data to fill buffer".to_string()));
    assert_eq!(
        decode_body_index(&[0x01, 0x00]),
        Err("out of range decoding Compact<u32>".to_string()),
    );
}

#[test]
fn index_that_ends_too_early() {
    assert_eq!(
        decode_body_index(&[1 << 2]),
        Err("Could not decode `DbExtrinsic`, failed to read variant byte:\n\
             \tNot enough data to fill buffer\n"
            .to_string()),
    );
    let mut raw = index(&[indexed(7, &[1])]);
    raw.truncate(20);
    assert_eq!(
        decode_body_index(&raw),
        Err("Could not decode `DbExtrinsic::Indexed::hash`:\n\
             \tNot enough data to fill buffer\n"
            .to_string()),
    );
    let mut raw = index(&[indexed(7, &[1, 2])]);
    raw.pop();
    assert_eq!(
        decode_body_index(&raw),
        Err("Could not decode `DbExtrinsic::Indexed::header`:\n\
             \tNot enough data to decode vector\n"
            .to_string()),
    );
    let mut raw = index(&[full(&[1, 2])]);
    raw.pop();
    assert_eq!(
        decode_body_index(&raw),
        Err("Could not decode `DbExtrinsic::Full.0`:\n\
             \tNot enough data to decode vector\n"
            .to_string()),
    );
}

#[test]
fn index_with_an_entry_of_no_kind() {
    assert_eq!(
        decode_body_index(&[1 << 2, 2]),
        Err("Could not decode `DbExtrinsic`, variant doesn't exist".to_string()),
    );
}

#[test]
fn length_at_the_front_of_a_header() {
    assert_eq!(extrinsic_body_length(&[10 << 2, 0]), Some(10));
    assert_eq!(extrinsic_body_length(&[0x01, 0x01]), Some(64));
    assert_eq!(extrinsic_body_length(&[]), None);
    assert_eq!(extrinsic_body_length(&[0x01, 0x00]), None);
}

#[test]
fn store_is_shorter_than_it_says() {
    assert!(is_store(&[3 << 2, 0, 0]));
    assert!(!is_store(&[3 << 2, 0, 0, 0]));
    assert!(!is_store(&[3 << 2, 0, 0, 0, 0]));
    assert!(!is_store(&[0]));
    assert!(!is_store(&[]));
    assert!(is_store(&[0x03, 0xff, 0xff, 0xff, 0xff]));
    let mut two = vec![0x01, 0x01];
    two.extend([0; 63]);
    assert!(is_store(&two));
    two.push(0);
    assert!(!is_store(&two));
}

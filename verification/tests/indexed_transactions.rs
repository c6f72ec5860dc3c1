use storage_chain_index::indexed_transactions::{
    is_supported, select_supported, to_database_meta, HashingAlgorithm, IndexedTransactionInfo,
    IndexedTransactionMeta,
};

fn info(h: [u8; 32]) -> IndexedTransactionInfo {
    IndexedTransactionInfo {
        content_hash: h,
        size: 0,
        hashing: HashingAlgorithm::Blake2b256,
        cid_codec: 0x55,
    }
}

#[test]
fn is_supported_accepts_blake2_raw() {
    assert!(is_supported(&info([0u8; 32])));
}

#[test]
fn is_supported_rejects_sha2() {
    let mut i = info([0u8; 32]);
    i.hashing = HashingAlgorithm::Sha2_256;
    assert!(!is_supported(&i));
}

#[test]
fn is_supported_rejects_keccak() {
    let mut i = info([0u8; 32]);
    i.hashing = HashingAlgorithm::Keccak256;
    assert!(!is_supported(&i));
}

#[test]
fn is_supported_rejects_dag_pb() {
    let mut i = info([0u8; 32]);
    i.cid_codec = 0x70;
    assert!(!is_supported(&i));
}

#[test]
fn supported_entries_keep_their_order() {
    let mut sha = info([2; 32]);
    sha.hashing = HashingAlgorithm::Sha2_256;
    let mut sized = info([3; 32]);
    sized.size = 7;
    let selected = select_supported(&[info([1; 32]), sha, sized, info([1; 32])]);
    assert_eq!(selected, vec![info([1; 32]), sized, info([1; 32])]);
    assert_eq!(
        to_database_meta(&selected),
        vec![
            IndexedTransactionMeta { content_hash: [1; 32], size: 0 },
            IndexedTransactionMeta { content_hash: [3; 32], size: 7 },
            IndexedTransactionMeta { content_hash: [1; 32], size: 0 },
        ],
    );
}

#[test]
fn nothing_is_supported_in_nothing() {
    assert!(select_supported(&[]).is_empty());
    assert!(to_database_meta(&[]).is_empty());
}

use storage_chain_index::bitswap::{
    decode_prefix, hex_encode, is_cid_supported, BitswapClient, BitswapError, BitswapMessage,
    BitswapReply, Block, BlockPresence, Prefix,
};
use storage_chain_index::content_id::{same_cid, Cid, CidVersion, Multihash};

const DATA: &[u8] = b"hello world";

const RAW_PREFIX: &[u8] = &[0x01, 0x55, 0xa0, 0xe4, 0x02, 0x20];

fn bytes(hex: &str) -> Vec<u8> {
    (0..hex.len() / 2)
        .map(|i| u8::from_str_radix(&hex[2 * i..2 * i + 2], 16).unwrap())
        .collect()
}

fn data_hash() -> [u8; 32] {
    let mut hash = [0; 32];
    hash.copy_from_slice(&bytes(
        "256c83b297114d201b30179f3f0ef0cace9783622da5974326b436178aeef610",
    ));
    hash
}

fn data_cid() -> Vec<u8> {
    bytes("0155a0e40220256c83b297114d201b30179f3f0ef0cace9783622da5974326b436178aeef610")
}

fn message() -> BitswapMessage {
    BitswapMessage {
        wantlist: None,
        blocks: vec![],
        payload: vec![],
        block_presences: vec![],
        pending_bytes: 0,
    }
}

fn with_block(prefix: &[u8], data: &[u8]) -> BitswapReply {
    let mut response = message();
    response.payload.push(Block { prefix: prefix.to_vec(), data: data.to_vec() });
    BitswapReply::Response(response)
}

fn with_presences(presences: &[(Vec<u8>, i32)]) -> BitswapReply {
    let mut response = message();
    for (cid, presence) in presences {
        response.block_presences.push(BlockPresence { cid: cid.clone(), presence: *presence });
    }
    BitswapReply::Response(response)
}

fn fetch(reply: BitswapReply) -> Result<Option<Vec<u8>>, BitswapError> {
    BitswapClient::new().fetch(data_hash(), reply)
}

fn refused(words: &str) -> Result<Option<Vec<u8>>, BitswapError> {
    Err(BitswapError::DecodeError(words.to_string()))
}

#[test]
fn hex_encode_writes_two_digits_to_the_byte() {
    assert_eq!(hex_encode(&[0x00, 0x0f, 0xa5, 0xff]), "000fa5ff");
    assert_eq!(hex_encode(&[]), "");
}

#[test]
fn default_client_is_a_new_client() {
    assert_eq!(
        format!("{:?}", BitswapClient::default()),
        format!("{:?}", BitswapClient::new()),
    );
}

#[test]
fn cid_for_hash_is_raw_blake2() {
    let cid = BitswapClient::cid_for_hash(data_hash()).unwrap();
    assert_eq!(
        cid,
        Cid {
            version: CidVersion::V1,
            codec: 0x55,
            hash: Multihash { code: 0xb220, digest: data_hash().to_vec() },
        },
    );
    assert!(is_cid_supported(&cid));
}

#[test]
fn support_asks_for_version_code_and_length() {
    let good = BitswapClient::cid_for_hash([1; 32]).unwrap();
    let mut old = good.clone();
    old.version = CidVersion::V0;
    assert!(!is_cid_supported(&old));
    let mut sha = good.clone();
    sha.hash.code = 0x12;
    assert!(!is_cid_supported(&sha));
    let mut short = good.clone();
    short.hash.digest.pop();
    assert!(!is_cid_supported(&short));
    let mut dag = good.clone();
    dag.codec = 0x70;
    assert!(is_cid_supported(&dag));
    assert!(!same_cid(&dag, &good));
}

#[test]
fn want_request_names_the_content_once() {
    let request = BitswapClient::new().want_request(data_hash()).unwrap();
    let wantlist = request.wantlist.unwrap();
    assert!(!wantlist.full);
    assert_eq!(wantlist.entries.len(), 1);
    let entry = &wantlist.entries[0];
    assert_eq!(entry.block, data_cid());
    assert_eq!(entry.priority, 0);
    assert!(!entry.cancel);
    assert_eq!(entry.want_type, 0);
    assert!(entry.send_dont_have);
    assert!(request.blocks.is_empty());
    assert!(request.payload.is_empty());
    assert!(request.block_presences.is_empty());
    assert_eq!(request.pending_bytes, 0);
}

#[test]
fn requests_for_two_hashes_differ() {
    let client = BitswapClient::new();
    assert_ne!(client.want_request([1; 32]).unwrap(), client.want_request([2; 32]).unwrap());
}

#[test]
fn prefix_of_raw_blake2_content() {
    assert_eq!(
        decode_prefix(RAW_PREFIX).unwrap(),
        Prefix { version: CidVersion::V1, codec: 0x55, mh_type: 0xb220, mh_len: 32 },
    );
}

#[test]
fn prefix_with_the_longest_digest_length() {
    let prefix = decode_prefix(&[0x00, 0x70, 0x12, 0xff, 0x01]).unwrap();
    assert_eq!(
        prefix,
        Prefix { version: CidVersion::V0, codec: 0x70, mh_type: 0x12, mh_len: 255 },
    );
}

#[test]
fn prefix_that_is_none() {
    let words = |prefix: &[u8]| match decode_prefix(prefix) {
        Err(BitswapError::DecodeError(words)) => words,
        other => panic!("{other:?}"),
    };
    assert_eq!(words(&[0x01, 0x55, 0x12, 0x20, 0x00]), "bitswap block prefix had trailing bytes");
    assert_eq!(words(&[0x02, 0x55, 0x12, 0x20]), "unsupported CID version 2");
    assert_eq!(
        words(&[0x01, 0x55, 0x12, 0x80, 0x02]),
        "multihash length 256 does not fit into u8",
    );
    assert_eq!(words(&[]), "not enough input bytes");
    assert_eq!(words(&[0x01, 0x55, 0x12]), "not enough input bytes");
    assert_eq!(words(&[0x81, 0x00, 0x55, 0x12, 0x20]), "encoding is not minimal");
    assert_eq!(words(&[0xff; 12]), "input bytes exceed maximum");
    assert_eq!(words(&[0x03, 0x55, 0x12, 0x80, 0x02, 0x00]), "bitswap block prefix had trailing bytes");
    assert_eq!(words(&[0x03, 0x55, 0x12, 0x80, 0x02]), "unsupported CID version 3");
}

#[test]
fn no_prefix_extends_another() {
    let mut longer = RAW_PREFIX.to_vec();
    longer.push(0x00);
    assert!(decode_prefix(RAW_PREFIX).is_ok());
    assert!(matches!(
        decode_prefix(&longer),
        Err(BitswapError::DecodeError(words)) if words == "bitswap block prefix had trailing bytes",
    ));
    longer.extend([0xff; 20]);
    assert!(decode_prefix(&longer).is_err());
}

#[test]
fn block_cid_takes_its_digest_from_the_data() {
    let cid = BitswapClient::cid_from_block_prefix(RAW_PREFIX, DATA).unwrap();
    assert!(same_cid(&cid, &BitswapClient::cid_for_hash(data_hash()).unwrap()));
    assert_eq!(cid.hash.digest.len(), 32);
    let given = BitswapClient::cid_from_prefix_and_digest(RAW_PREFIX, [9; 32]).unwrap();
    assert_eq!(given.hash.digest, vec![9; 32]);
}

#[test]
fn fetch_returns_the_wanted_block() {
    assert_eq!(fetch(with_block(RAW_PREFIX, DATA)), Ok(Some(DATA.to_vec())));
}

#[test]
fn fetch_returns_an_empty_block() {
    let mut hash = [0; 32];
    hash.copy_from_slice(&bytes(
        "0e5751c026e543b2e8ab2eb06099daa1d1e5df47778f7787faab45cdf12fe3a8",
    ));
    assert_eq!(
        BitswapClient::new().fetch(hash, with_block(RAW_PREFIX, &[])),
        Ok(Some(vec![])),
    );
}

#[test]
fn fetch_looks_at_the_first_block_only() {
    let mut response = message();
    response.payload.push(Block { prefix: RAW_PREFIX.to_vec(), data: DATA.to_vec() });
    response.payload.push(Block { prefix: vec![], data: vec![] });
    response.block_presences.push(BlockPresence { cid: data_cid(), presence: 1 });
    assert_eq!(fetch(BitswapReply::Response(response)), Ok(Some(DATA.to_vec())));
}

#[test]
fn fetch_refuses_other_data() {
    assert_eq!(
        fetch(with_block(RAW_PREFIX, b"other")),
        Err(BitswapError::HashMismatch),
    );
    assert_eq!(
        BitswapClient::new().fetch([0; 32], with_block(RAW_PREFIX, &[1, 2, 3])),
        Err(BitswapError::HashMismatch),
    );
}

#[test]
fn fetch_compares_the_hash_before_the_codec() {
    assert_eq!(
        fetch(with_block(&[0x01, 0x70, 0xa0, 0xe4, 0x02, 0x20], b"other")),
        Err(BitswapError::HashMismatch),
    );
}

#[test]
fn fetch_refuses_another_codec() {
    assert_eq!(
        fetch(with_block(&[0x01, 0x70, 0xa0, 0xe4, 0x02, 0x20], DATA)),
        refused(
            "peer returned unexpected CID bafykbzaceaswza5ss4iu2ia3galz6pyo6dfm5f4dmiw2lf2de22dmf4k533ba"
        ),
    );
}

#[test]
fn fetch_refuses_another_hash_function() {
    assert_eq!(
        fetch(with_block(&[0x01, 0x55, 0x12, 0x20], DATA)),
        refused(
            "peer returned unsupported CID bafkreibfnsb3ffyrjuqbwmaxt47q54gkz2lygyrnuwlugjvugylyv3xwca"
        ),
    );
}

#[test]
fn fetch_refuses_the_first_layout() {
    assert_eq!(
        fetch(with_block(&[0x00, 0x70, 0x12, 0x20], DATA)),
        refused("bitswap block prefix used unsupported CIDv0"),
    );
}

#[test]
fn accepting_a_block_compares_its_digest() {
    let client = BitswapClient::new();
    let block = Block { prefix: RAW_PREFIX.to_vec(), data: vec![1, 2, 3] };
    assert_eq!(client.accept_block([7; 32], block.clone(), [7; 32]), Ok(Some(vec![1, 2, 3])));
    assert_eq!(client.accept_block([7; 32], block, [8; 32]), Err(BitswapError::HashMismatch));
}

#[test]
fn fetch_believes_dont_have() {
    assert_eq!(fetch(with_presences(&[(data_cid(), 1)])), Ok(None));
}

#[test]
fn fetch_refuses_have_without_data() {
    assert_eq!(
        fetch(with_presences(&[(data_cid(), 0)])),
        refused("peer advertised HAVE without returning block data"),
    );
}

#[test]
fn fetch_refuses_unknown_presence() {
    assert_eq!(
        fetch(with_presences(&[(data_cid(), 2)])),
        refused("peer returned unknown block presence type 2"),
    );
    assert_eq!(
        fetch(with_presences(&[(data_cid(), -17)])),
        refused("peer returned unknown block presence type -17"),
    );
    assert_eq!(
        fetch(with_presences(&[(data_cid(), i32::MIN)])),
        refused("peer returned unknown block presence type -2147483648"),
    );
}

#[test]
fn fetch_skips_presence_of_other_content() {
    let other = BitswapClient::new().want_request([3; 32]).unwrap().wantlist.unwrap().entries[0]
        .block
        .clone();
    assert_eq!(fetch(with_presences(&[(other.clone(), 0)])), Ok(None));
    assert_eq!(
        fetch(with_presences(&[(other, 0), (data_cid(), 0), (data_cid(), 1)])),
        refused("peer advertised HAVE without returning block data"),
    );
}

#[test]
fn fetch_reads_the_cid_at_the_front() {
    let mut longer = data_cid();
    longer.push(0xee);
    assert_eq!(
        fetch(with_presences(&[(longer, 0)])),
        refused("peer advertised HAVE without returning block data"),
    );
}

#[test]
fn fetch_reads_the_first_layout_of_a_presence() {
    let mut old = vec![0x12, 0x20];
    old.extend([5; 32]);
    assert_eq!(fetch(with_presences(&[(old, 0), (data_cid(), 1)])), Ok(None));
}

#[test]
fn fetch_refuses_a_presence_without_cid() {
    let reply = fetch(with_presences(&[(vec![0x01, 0x55], 1)]));
    assert!(matches!(reply, Err(BitswapError::DecodeError(_))));
    let reply = fetch(with_presences(&[(vec![], 1), (data_cid(), 1)]));
    assert!(matches!(reply, Err(BitswapError::DecodeError(_))));
}

#[test]
fn accepting_a_presence_passes_the_words_on() {
    let client = BitswapClient::new();
    assert_eq!(
        client.accept_presence([1; 32], Err("no".to_string()), 1),
        Some(refused("no")),
    );
    let mine = BitswapClient::cid_for_hash([1; 32]).unwrap();
    assert_eq!(client.accept_presence([1; 32], Ok(mine.clone()), 1), Some(Ok(None)));
    assert_eq!(client.accept_presence([2; 32], Ok(mine), 1), None);
}

#[test]
fn fetch_takes_an_empty_response_for_dont_have() {
    assert_eq!(fetch(BitswapReply::Response(message())), Ok(None));
}

#[test]
fn fetch_reports_a_failed_request() {
    assert_eq!(
        fetch(BitswapReply::Failed("refused".to_string())),
        Err(BitswapError::RequestFailed("refused".to_string())),
    );
}

#[test]
fn fetch_reports_an_undecodable_response() {
    assert_eq!(fetch(BitswapReply::Undecodable("bad".to_string())), refused("bad"));
}

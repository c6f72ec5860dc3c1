use storage_chain_index::content_map::ContentMap;
use storage_chain_index::references::{add_references, can_add_references, count_occurrences};

fn hash(front: u8, back: u8) -> [u8; 32] {
    let mut hash = [front; 32];
    hash[31] = back;
    hash
}

#[test]
fn a_new_map_is_empty() {
    let map: ContentMap<u32> = ContentMap::new();
    assert_eq!(map.len(), 0);
    assert_eq!(map.get(&[0; 32]), None);
}

#[test]
fn a_map_gives_back_what_was_put_in() {
    let mut map: ContentMap<u32> = ContentMap::new();
    map.insert(hash(1, 1), 10);
    map.insert(hash(2, 2), 20);
    map.insert(hash(1, 3), 30);
    assert_eq!(map.get(&hash(1, 1)), Some(10));
    assert_eq!(map.get(&hash(2, 2)), Some(20));
    assert_eq!(map.get(&hash(1, 3)), Some(30));
    assert_eq!(map.get(&hash(1, 2)), None);
    assert_eq!(map.get(&hash(3, 1)), None);
    map.insert(hash(1, 3), 31);
    assert_eq!(map.get(&hash(1, 3)), Some(31));
    assert_eq!(map.get(&hash(1, 1)), Some(10));
    assert_eq!(map.len(), 3);
}

#[test]
fn a_map_keeps_the_order_in_which_hashes_came() {
    let mut map: ContentMap<u32> = ContentMap::new();
    for i in 0..200u8 {
        map.insert(hash(i % 3, i), i as u32);
    }
    map.insert(hash(0, 0), 7);
    assert_eq!(map.len(), 200);
    assert_eq!(map.pair(0), (hash(0, 0), 7));
    for i in 1..200u8 {
        assert_eq!(map.pair(i as usize), (hash(i % 3, i), i as u32));
    }
}

#[test]
fn references_are_counted_per_hash() {
    let mut counts: ContentMap<u32> = ContentMap::new();
    let first = [hash(1, 0), hash(2, 0), hash(1, 0)];
    assert_eq!(count_occurrences(&first, &hash(1, 0)), 2);
    assert_eq!(count_occurrences(&first, &hash(3, 0)), 0);
    add_references(&mut counts, &first);
    add_references(&mut counts, &[hash(2, 0)]);
    add_references(&mut counts, &[]);
    assert_eq!(counts.get(&hash(1, 0)), Some(2));
    assert_eq!(counts.get(&hash(2, 0)), Some(2));
    assert_eq!(counts.len(), 2);
}

#[test]
fn references_fit_up_to_the_largest_count() {
    let mut counts: ContentMap<u32> = ContentMap::new();
    counts.insert(hash(1, 0), u32::MAX - 1);
    assert!(can_add_references(&counts, &[hash(1, 0), hash(2, 0)]));
    assert!(!can_add_references(&counts, &[hash(1, 0), hash(2, 0), hash(1, 0)]));
    add_references(&mut counts, &[hash(1, 0)]);
    assert_eq!(counts.get(&hash(1, 0)), Some(u32::MAX));
    assert!(!can_add_references(&counts, &[hash(1, 0)]));
    assert!(can_add_references(&counts, &[hash(2, 0)]));
}

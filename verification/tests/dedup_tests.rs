use palettify::dedup::{dedup_preserve_order, deduped_preserve_order};

#[test]
fn dedup_keeps_first_occurrences_in_order() {
    let mut v = vec![[1, 2, 3], [4, 5, 6], [1, 2, 3], [7, 8, 9], [4, 5, 6]];
    dedup_preserve_order(&mut v);
    assert_eq!(v, vec![[1, 2, 3], [4, 5, 6], [7, 8, 9]]);
}

#[test]
fn deduped_copy_matches_in_place_dedup() {
    let v = vec![[9, 9, 9], [9, 9, 9], [0, 0, 1], [0, 1, 0], [0, 0, 1]];
    let copy = deduped_preserve_order(&v);
    assert_eq!(copy, vec![[9, 9, 9], [0, 0, 1], [0, 1, 0]]);
    let mut w = v.clone();
    dedup_preserve_order(&mut w);
    assert_eq!(w, copy);
}

#[test]
fn dedup_is_idempotent_and_keeps_distinct_input() {
    let mut v = vec![[3, 3, 3], [2, 2, 2], [3, 3, 3]];
    dedup_preserve_order(&mut v);
    let once = v.clone();
    dedup_preserve_order(&mut v);
    assert_eq!(v, once);
    let distinct = vec![[1, 0, 0], [0, 1, 0], [0, 0, 1]];
    assert_eq!(deduped_preserve_order(&distinct), distinct);
}

#[test]
fn dedup_of_empty_is_empty() {
    let mut v: Vec<[u32; 3]> = Vec::new();
    dedup_preserve_order(&mut v);
    assert!(v.is_empty());
}

#[test]
fn dedup_of_float_bit_patterns() {
    let colours = [[0.5f32, 0.25, 1.0], [0.0, 0.0, 0.0], [0.5, 0.25, 1.0], [-0.0, 0.0, 0.0]];
    let keys: Vec<[u32; 3]> = colours.iter().map(|c| c.map(f32::to_bits)).collect();
    let kept = deduped_preserve_order(&keys);
    assert_eq!(kept.len(), 3);
    assert_eq!(kept[2], [(-0.0f32).to_bits(), 0, 0]);
}

use bourbaki::memory::{blob_to_le_words, memory_hits_of, ranks_from_ordered_ids};

#[test]
fn ranks_are_first_positions() {
    let r = ranks_from_ordered_ids(&[5, 3, 5, 9]);
    assert_eq!(r.len(), 3);
    assert_eq!(r[&5], 1);
    assert_eq!(r[&3], 2);
    assert_eq!(r[&9], 4);
    assert!(ranks_from_ordered_ids(&[]).is_empty());
}

#[test]
fn blob_words_little_endian() {
    assert_eq!(blob_to_le_words(&[1, 0, 0, 0, 0, 0, 128, 63]), Some(vec![1, 0x3F80_0000]));
    assert_eq!(f32::from_bits(blob_to_le_words(&[0, 0, 128, 63]).unwrap()[0]), 1.0f32);
    assert_eq!(blob_to_le_words(&[1, 2, 3]), None);
    assert_eq!(blob_to_le_words(&[1, 2, 3, 4, 5]), None);
    assert_eq!(blob_to_le_words(&[]), None);
}

#[test]
fn words_round_trip_through_le_bytes() {
    let words = vec![1.5f32.to_bits(), 0xdead_beef, 0, u32::MAX];
    let blob: Vec<u8> = words.iter().flat_map(|w| w.to_le_bytes()).collect();
    assert_eq!(blob_to_le_words(&blob), Some(words));
}

#[test]
fn memory_hits_in_ranking_order() {
    let rows = vec![
        (7, "s7".to_string(), "m7".to_string()),
        (3, "s3".to_string(), "old".to_string()),
        (3, "s3".to_string(), "m3".to_string()),
    ];
    let hits = memory_hits_of(&vec![3, 9, 7, 5], &rows, 3);
    assert_eq!(
        hits,
        vec![(0, "s3".to_string(), "m3".to_string()), (2, "s7".to_string(), "m7".to_string())]
    );
    assert!(memory_hits_of(&vec![3], &rows, 0).is_empty());
}

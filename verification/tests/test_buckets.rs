use gto_cli::game_tree::{bucket_to_hand, hand_to_bucket};

#[test]
fn bucket_roundtrip() {
    for i in 0..169 {
        let hand = bucket_to_hand(i);
        let bucket = hand_to_bucket(&hand).unwrap();
        assert_eq!(bucket, i, "roundtrip failed for bucket {} ({})", i, hand);
    }
}

#[test]
fn known_buckets() {
    assert_eq!(hand_to_bucket("AA"), Some(0));
    assert_eq!(hand_to_bucket("AKs"), Some(1));
    assert_eq!(hand_to_bucket("AKo"), Some(13));
    assert_eq!(hand_to_bucket("KK"), Some(14));
    assert_eq!(hand_to_bucket("22"), Some(168));
    assert_eq!(hand_to_bucket("32o"), Some(167));
    assert_eq!(hand_to_bucket("32s"), Some(155));
}

#[test]
fn bucket_to_hand_diagonal() {
    assert_eq!(bucket_to_hand(0), "AA");
    assert_eq!(bucket_to_hand(14), "KK");
    assert_eq!(bucket_to_hand(168), "22");
}

#[test]
fn bucket_to_hand_suited() {
    assert_eq!(bucket_to_hand(1), "AKs");
    assert_eq!(bucket_to_hand(2), "AQs");
}

#[test]
fn bucket_to_hand_offsuit() {
    assert_eq!(bucket_to_hand(13), "AKo");
    assert_eq!(bucket_to_hand(26), "AQo");
}

#[test]
fn all_169_hands_unique() {
    let mut hands: Vec<String> = (0..169).map(bucket_to_hand).collect();
    hands.sort();
    hands.dedup();
    assert_eq!(hands.len(), 169);
}

#[test]
fn all_buckets_roundtrip() {
    for i in 0..169 {
        let hand = bucket_to_hand(i);
        let bucket = hand_to_bucket(&hand).unwrap();
        assert_eq!(bucket, i, "roundtrip failed for {} (bucket {})", hand, i);
    }
}

#[test]
fn known_hand_buckets() {
    assert_eq!(hand_to_bucket("AA"), Some(0));
    assert_eq!(hand_to_bucket("AKs"), Some(1));
    assert_eq!(hand_to_bucket("AKo"), Some(13));
    assert_eq!(hand_to_bucket("KK"), Some(14));
    assert_eq!(hand_to_bucket("22"), Some(168));
}

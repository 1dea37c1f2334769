use bot_rs::kugou::{
    decode_kugou_id, encode_kugou_id, is_hash, is_kugou_encoded_id, normalize_kugou_cover,
    split_kugou_file_name,
};

#[test]
fn kugou_ids_read_back() {
    let id = encode_kugou_id(" abcdef0123456789abcdef0123456789 ", Some(" 42 "));
    assert_eq!(id, "ABCDEF0123456789ABCDEF0123456789:42");
    assert_eq!(
        decode_kugou_id(&id),
        ("ABCDEF0123456789ABCDEF0123456789".to_string(), Some("42".to_string()))
    );
    assert_eq!(encode_kugou_id("ab", Some("  ")), "AB");
    assert_eq!(decode_kugou_id("ab"), ("AB".to_string(), None));
    assert!(is_kugou_encoded_id(&id));
    assert!(!is_kugou_encoded_id("xyz:1"));
}

#[test]
fn hashes_covers_and_file_names() {
    assert!(is_hash("ABCDEF0123456789ABCDEF0123456789"));
    assert!(!is_hash("ABCDEF0123456789ABCDEF012345678G"));
    assert_eq!(
        normalize_kugou_cover("http://img/{size}/a_{size}.jpg"),
        "http://img/400/a_400.jpg"
    );
    assert_eq!(
        split_kugou_file_name("周杰伦 - 晴天 - Live"),
        (Some("周杰伦".to_string()), Some("晴天 - Live".to_string()))
    );
    assert_eq!(split_kugou_file_name("晴天"), (None, None));
}

#[test]
fn encoded_ids_are_recognised_exactly_for_hashes() {
    let hash = "abcdef0123456789abcdef0123456789";
    assert!(is_kugou_encoded_id(&encode_kugou_id(hash, Some("7"))));
    assert!(is_kugou_encoded_id(&encode_kugou_id(hash, None)));
    assert!(is_hash(hash));
    let not_hash = "xyz0123456789abcdef0123456789abc";
    assert!(!is_hash(not_hash));
    assert!(!is_kugou_encoded_id(&encode_kugou_id(not_hash, Some("7"))));
}

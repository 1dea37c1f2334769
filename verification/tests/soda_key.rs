use base64::engine::general_purpose;
use base64::Engine;
use bot_rs::error::BotError;
use bot_rs::soda_key::{bitcount_soda, decode_soda_base36, decrypt_soda_inner, extract_soda_key, hex_decode, hex_pairs_cuttable};

fn message(e: BotError) -> String {
    match e {
        BotError::Custom(m) => m,
    }
}

#[test]
fn bit_counts_and_base36_digits() {
    assert_eq!(bitcount_soda(0), 0);
    assert_eq!(bitcount_soda(7), 3);
    assert_eq!(bitcount_soda(255), 8);
    assert_eq!(decode_soda_base36(b'0'), 0);
    assert_eq!(decode_soda_base36(b'z'), 35);
    assert_eq!(decode_soda_base36(b'A'), 255);
}

#[test]
fn inner_layer_wraps_below_zero() {
    // 0x00 ^ 0xFA = 250 - 0 - 21 = 229; 0x00 ^ 0x55 = 85 - 1 - 21 = 63;
    // 0x15 ^ 0x00 = 21 - 1 - 21 = -1 -> 254.
    assert_eq!(decrypt_soda_inner(&[0x00, 0x00, 0x15]), vec![229, 63, 254]);
    assert!(decrypt_soda_inner(&[]).is_empty());
}

#[test]
fn hex_text_decodes_by_pairs() {
    assert_eq!(hex_decode(" 0aFf ").unwrap(), vec![0x0a, 0xff]);
    assert_eq!(hex_decode("+f10").unwrap(), vec![0x0f, 0x10]);
    assert_eq!(message(hex_decode("abc").unwrap_err()), "hex 长度错误");
    assert_eq!(message(hex_decode("zz").unwrap_err()), "hex 解码失败：invalid digit found in string");
    assert!(hex_pairs_cuttable("éé"));
    assert!(!hex_pairs_cuttable("aéb"));
    assert!(hex_decode("éé").is_err());
}

#[test]
fn play_auth_errors_are_reported() {
    assert!(message(extract_soda_key("%%%").unwrap_err()).starts_with("汽水音乐 PlayAuth 解码失败："));
    let short = general_purpose::STANDARD.encode([1u8, 2]);
    assert_eq!(message(extract_soda_key(&short).unwrap_err()), "汽水音乐 PlayAuth 数据过短");
    // padding 0xFF - 48 is far more than the data holds
    let bad = general_purpose::STANDARD.encode([0xFFu8, 0x00, 0x00, 0x00]);
    assert_eq!(message(extract_soda_key(&bad).unwrap_err()), "汽水音乐 PlayAuth padding 无效");
}

#[test]
fn play_auth_key_is_read_back() {
    // data[0] ^ data[1] ^ data[2] = 48 gives no padding; the inner bytes
    // are chosen so that they decode to "0ab": skip 0, key "ab".
    let inner_plain = [b'0', b'a', b'b'];
    let mut inner = Vec::new();
    for (i, p) in inner_plain.iter().enumerate() {
        let prev = match i {
            0 => 0xFAu8,
            1 => 0x55u8,
            _ => inner[i - 2],
        };
        let target = *p as i32 + (i as u32).count_ones() as i32 + 21;
        inner.push((target as u8) ^ prev);
    }
    let first = 48u8 ^ inner[0] ^ inner[1];
    let mut data = vec![first];
    data.extend_from_slice(&inner);
    let text = general_purpose::STANDARD.encode(&data);
    assert_eq!(extract_soda_key(&text).unwrap(), "ab");
}

use bot_rs::alac::{
    alac_find_body_end_bit, alac_log2, alac_patch_in_place, find_alac_params,
    find_progressive_packet_locations, fix_alac_packets_in_progressive, AlacBitReader,
    AlacPacketLoc, AlacParams,
};

fn mp4_box(typ: &[u8; 4], payload: &[u8]) -> Vec<u8> {
    let mut out = ((payload.len() + 8) as u32).to_be_bytes().to_vec();
    out.extend_from_slice(typ);
    out.extend_from_slice(payload);
    out
}

fn params(channels: u8) -> AlacParams {
    AlacParams {
        max_samples_per_frame: 1,
        sample_size: 16,
        rice_history_mult: 40,
        rice_initial_history: 10,
        rice_limit: 14,
        channels,
    }
}

#[test]
fn bit_reader_reads_most_significant_bit_first() {
    let data = [0b1011_0000u8];
    let mut reader = AlacBitReader::new(&data);
    assert_eq!(reader.read(3), Some(5));
    assert_eq!(reader.show(2), Some(2));
    assert_eq!(reader.left(), 5);
    assert!(reader.skip(2));
    assert_eq!(reader.unary09(), Some(0));
    assert_eq!(reader.read(3), None);
    assert_eq!(reader.left(), 2);
    assert!(!reader.skip(3));
}

#[test]
fn bit_reader_signed_and_unary() {
    let data = [0xFF, 0xFE, 0xFF, 0xC0];
    let mut reader = AlacBitReader::new(&data);
    assert_eq!(reader.read_signed(16), Some(-2));
    assert_eq!(reader.unary09(), Some(9));
    assert_eq!(reader.read(1), Some(1));
}

#[test]
fn log2_is_the_floor() {
    assert_eq!(alac_log2(0), 0);
    assert_eq!(alac_log2(1), 0);
    assert_eq!(alac_log2(2), 1);
    assert_eq!(alac_log2(3), 1);
    assert_eq!(alac_log2(1024), 10);
    assert_eq!(alac_log2(u32::MAX), 31);
}

#[test]
fn end_tag_first_ends_the_body_at_three_bits() {
    assert_eq!(alac_find_body_end_bit(&[0xE0], &params(2)), 3);
}

#[test]
fn uncompressed_single_channel_element_ends_after_its_samples() {
    // tag 0, 16 bits of header, no size, no low bytes, uncompressed, one
    // 16-bit sample
    let packet = [0x00, 0x00, 0x02, 0xAB, 0xCD, 0xFF];
    assert_eq!(alac_find_body_end_bit(&packet, &params(1)), 39);
    // a second channel is expected but the next element tag (3 bits of
    // 0xFF) is 7: the body ends after it
    assert_eq!(alac_find_body_end_bit(&packet, &params(2)), 42);
}

#[test]
fn unknown_element_does_not_scan() {
    assert_eq!(alac_find_body_end_bit(&[0x40], &params(1)), -1);
}

#[test]
fn patch_writes_end_tag_and_clears_the_rest() {
    let mut data = vec![0x00, 0x00, 0x02, 0xAB, 0xCC, 0xFF, 0x77];
    assert!(alac_patch_in_place(&mut data, 0, 6, 38));
    assert_eq!(data, vec![0x00, 0x00, 0x02, 0xAB, 0xCF, 0x80, 0x77]);
    let mut data = vec![0u8; 4];
    assert!(!alac_patch_in_place(&mut data, 0, 1, 6));
    assert!(!alac_patch_in_place(&mut data, 3, 2, 0));
    assert_eq!(data, vec![0u8; 4]);
}

#[test]
fn reads_alac_configuration() {
    let mut config = vec![0u8; 24];
    config[4..8].copy_from_slice(&4096u32.to_be_bytes());
    config[9] = 16;
    config[10] = 40;
    config[11] = 10;
    config[12] = 14;
    config[13] = 2;
    let mut entry_payload = vec![0u8; 28];
    entry_payload.extend_from_slice(&mp4_box(b"alac", &config));
    let mut stsd_payload = vec![0u8; 8];
    stsd_payload.extend_from_slice(&mp4_box(b"alac", &entry_payload));
    let data = mp4_box(b"stsd", &stsd_payload);
    let p = find_alac_params(&data).unwrap().unwrap();
    assert_eq!(p.max_samples_per_frame, 4096);
    assert_eq!(p.sample_size, 16);
    assert_eq!(p.rice_history_mult, 40);
    assert_eq!(p.rice_initial_history, 10);
    assert_eq!(p.rice_limit, 14);
    assert_eq!(p.channels, 2);

    assert_eq!(find_alac_params(&mp4_box(b"moov", &[])).unwrap(), None);

    let mut fixed = data.clone();
    let err = fix_alac_packets_in_progressive(&mut fixed).unwrap_err();
    assert_eq!(err.message(), "progressive MP4 缺少 stsz");
    assert_eq!(fixed, data);
}

#[test]
fn packet_locations_follow_the_sample_table() {
    let mut stsz = vec![0u8; 4];
    stsz.extend_from_slice(&0u32.to_be_bytes());
    stsz.extend_from_slice(&2u32.to_be_bytes());
    stsz.extend_from_slice(&3u32.to_be_bytes());
    stsz.extend_from_slice(&4u32.to_be_bytes());
    let mut stco = vec![0u8; 4];
    stco.extend_from_slice(&1u32.to_be_bytes());
    stco.extend_from_slice(&100u32.to_be_bytes());
    let mut data = mp4_box(b"stsz", &stsz);
    data.extend_from_slice(&mp4_box(b"stco", &stco));
    let locs = find_progressive_packet_locations(&data).unwrap();
    assert_eq!(
        locs,
        vec![AlacPacketLoc { offset: 100, size: 3 }, AlacPacketLoc { offset: 103, size: 4 }]
    );
    let mut truncated = stsz.clone();
    truncated.truncate(16);
    let mut data = mp4_box(b"stsz", &truncated);
    data.extend_from_slice(&mp4_box(b"stco", &stco));
    assert_eq!(
        find_progressive_packet_locations(&data).unwrap_err().message(),
        "progressive MP4 stsz sizes truncated"
    );
}

#[test]
fn file_without_alac_configuration_is_left_alone() {
    let mut data = mp4_box(b"free", &[1, 2, 3]);
    let before = data.clone();
    fix_alac_packets_in_progressive(&mut data).unwrap();
    assert_eq!(data, before);
}

use bot_rs::zip::{
    get_i64_le, get_u16_le, get_u32_le, locate_central_directory, locate_entries,
    locate_local_file_offset,
};

const METADATA_PATH: &str = "META-INF/com/android/metadata";

#[test]
fn zip_directory_helpers_find_metadata_entry() {
    let mut zip = Vec::new();
    let name = METADATA_PATH.as_bytes();
    let data = b"post-build=test/build\n";
    let local_offset = zip.len() as u32;
    zip.extend_from_slice(&0x04034b50u32.to_le_bytes());
    zip.extend_from_slice(&20u16.to_le_bytes());
    zip.extend_from_slice(&0u16.to_le_bytes());
    zip.extend_from_slice(&0u16.to_le_bytes());
    zip.extend_from_slice(&0u16.to_le_bytes());
    zip.extend_from_slice(&0u16.to_le_bytes());
    zip.extend_from_slice(&0u32.to_le_bytes());
    zip.extend_from_slice(&(data.len() as u32).to_le_bytes());
    zip.extend_from_slice(&(data.len() as u32).to_le_bytes());
    zip.extend_from_slice(&(name.len() as u16).to_le_bytes());
    zip.extend_from_slice(&0u16.to_le_bytes());
    zip.extend_from_slice(name);
    zip.extend_from_slice(data);

    let cd_offset = zip.len() as u32;
    zip.extend_from_slice(&0x02014b50u32.to_le_bytes());
    zip.extend_from_slice(&20u16.to_le_bytes());
    zip.extend_from_slice(&20u16.to_le_bytes());
    zip.extend_from_slice(&0u16.to_le_bytes());
    zip.extend_from_slice(&0u16.to_le_bytes());
    zip.extend_from_slice(&0u16.to_le_bytes());
    zip.extend_from_slice(&0u16.to_le_bytes());
    zip.extend_from_slice(&0u32.to_le_bytes());
    zip.extend_from_slice(&(data.len() as u32).to_le_bytes());
    zip.extend_from_slice(&(data.len() as u32).to_le_bytes());
    zip.extend_from_slice(&(name.len() as u16).to_le_bytes());
    zip.extend_from_slice(&0u16.to_le_bytes());
    zip.extend_from_slice(&0u16.to_le_bytes());
    zip.extend_from_slice(&0u16.to_le_bytes());
    zip.extend_from_slice(&0u16.to_le_bytes());
    zip.extend_from_slice(&0u32.to_le_bytes());
    zip.extend_from_slice(&local_offset.to_le_bytes());
    zip.extend_from_slice(name);
    let cd_size = zip.len() as u32 - cd_offset;

    zip.extend_from_slice(&0x06054b50u32.to_le_bytes());
    zip.extend_from_slice(&0u16.to_le_bytes());
    zip.extend_from_slice(&0u16.to_le_bytes());
    zip.extend_from_slice(&1u16.to_le_bytes());
    zip.extend_from_slice(&1u16.to_le_bytes());
    zip.extend_from_slice(&cd_size.to_le_bytes());
    zip.extend_from_slice(&cd_offset.to_le_bytes());
    zip.extend_from_slice(&0u16.to_le_bytes());

    let info = locate_central_directory(&zip, zip.len() as i64);
    assert_eq!(info.offset, cd_offset as i64);
    assert_eq!(info.size, cd_size as i64);
    let entries = locate_entries(
        &zip[info.offset as usize..(info.offset + info.size) as usize],
        &[METADATA_PATH],
    );
    let entry = entries
        .iter()
        .find(|(found, _)| found == METADATA_PATH)
        .map(|(_, entry)| entry)
        .unwrap();
    assert_eq!(entry.local_header_offset, local_offset as i64);
    let data_offset = entry.local_header_offset
        + locate_local_file_offset(&zip[entry.local_header_offset as usize..]);
    assert_eq!(
        &zip[data_offset as usize..data_offset as usize + data.len()],
        data
    );
}

#[test]
fn little_endian_reads() {
    let b = [0x01u8, 0x02, 0x03, 0x04, 0xff, 0xff, 0xff, 0xff, 0xff, 0xff];
    assert_eq!(get_u16_le(&b, 0), Some(0x0201));
    assert_eq!(get_u32_le(&b, 0), Some(0x04030201));
    assert_eq!(get_u32_le(&b, 7), None);
    assert_eq!(get_u16_le(&b, usize::MAX), None);
    assert_eq!(get_i64_le(&b, 2), Some(-64509));
    assert_eq!(get_i64_le(&b, 3), None);
    let max = i64::MAX.to_le_bytes();
    assert_eq!(get_i64_le(&max, 0), Some(i64::MAX));
}

#[test]
fn missing_directory_and_local_header() {
    assert_eq!(locate_central_directory(&[0u8; 10], 10).offset, -1);
    let none = locate_central_directory(&[0u8; 40], 40);
    assert_eq!((none.offset, none.size), (-1, -1));
    assert_eq!(locate_local_file_offset(&[0u8; 40]), -1);
    assert!(locate_entries(&[0u8; 60], &["x"]).is_empty());
}

#[test]
fn zip64_end_record_is_followed() {
    // zip64 end record (56 bytes) + locator (20 bytes) + end record (22 bytes)
    let mut tail = Vec::new();
    tail.extend_from_slice(&0x06064b50u32.to_le_bytes());
    tail.extend_from_slice(&[0u8; 36]);
    tail.extend_from_slice(&777i64.to_le_bytes()); // size at +40
    tail.extend_from_slice(&5000i64.to_le_bytes()); // offset at +48
    let file_length: i64 = 10_000;
    let record_offset = file_length - 98; // the zip64 record starts 98 bytes from the end
    tail.extend_from_slice(&0x07064b50u32.to_le_bytes());
    tail.extend_from_slice(&0u32.to_le_bytes());
    tail.extend_from_slice(&record_offset.to_le_bytes());
    tail.extend_from_slice(&1u32.to_le_bytes());
    tail.extend_from_slice(&0x06054b50u32.to_le_bytes());
    tail.extend_from_slice(&[0u8; 8]);
    tail.extend_from_slice(&0xFFFF_FFFFu32.to_le_bytes());
    tail.extend_from_slice(&0xFFFF_FFFFu32.to_le_bytes());
    tail.extend_from_slice(&0u16.to_le_bytes());
    assert_eq!(tail.len(), 98);
    let info = locate_central_directory(&tail, file_length);
    assert_eq!((info.offset, info.size), (5000, 777));
}

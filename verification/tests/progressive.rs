use bot_rs::mp4::{read_mp4_box, ProgressiveSample};
use bot_rs::progressive::{
    assemble_progressive, progressive_init_boxes, rewrite_box_for_progressive,
    sanitize_sample_entry,
};

fn mp4_box(typ: &[u8; 4], payload: &[u8]) -> Vec<u8> {
    let mut out = ((payload.len() + 8) as u32).to_be_bytes().to_vec();
    out.extend_from_slice(typ);
    out.extend_from_slice(payload);
    out
}

fn find(hay: &[u8], needle: &[u8]) -> Option<usize> {
    hay.windows(needle.len()).position(|w| w == needle)
}

fn sample_entry() -> Vec<u8> {
    let mut payload = vec![0u8; 28];
    payload.extend(mp4_box(b"sinf", &mp4_box(b"frma", b"alac")));
    payload.extend(mp4_box(b"alac", &[1, 2, 3, 4]));
    mp4_box(b"enca", &payload)
}

fn movie() -> Vec<u8> {
    let mut mvhd = vec![0u8; 20];
    mvhd[12..16].copy_from_slice(&600u32.to_be_bytes());
    let mut mdhd = vec![0u8; 24];
    mdhd[12..16].copy_from_slice(&44100u32.to_be_bytes());
    let mut stsd_payload = vec![0, 0, 0, 0, 0, 0, 0, 1];
    stsd_payload.extend(sample_entry());
    let stbl = mp4_box(b"stbl", &[mp4_box(b"stsd", &stsd_payload), mp4_box(b"stco", &[0u8; 8])].concat());
    let minf = mp4_box(b"minf", &stbl);
    let mdia = mp4_box(b"mdia", &[mp4_box(b"mdhd", &mdhd), minf].concat());
    let trak = mp4_box(b"trak", &[mp4_box(b"tkhd", &[0u8; 28]), mp4_box(b"edts", &[9u8; 4]), mdia].concat());
    mp4_box(b"moov", &[mp4_box(b"mvhd", &mvhd), trak, mp4_box(b"mvex", &[7u8; 4])].concat())
}

fn samples() -> Vec<ProgressiveSample> {
    vec![
        ProgressiveSample { data: vec![0xAA; 5], duration: 4096, size: 5 },
        ProgressiveSample { data: vec![0xBB; 3], duration: 4096, size: 3 },
    ]
}

#[test]
fn sample_entry_loses_protection() {
    let data = sample_entry();
    let entry = read_mp4_box(&data, 0).unwrap().unwrap();
    let clean = sanitize_sample_entry(&data, entry).unwrap();
    assert_eq!(&clean[4..8], b"alac");
    assert!(find(&clean, b"sinf").is_none());
    assert!(find(&clean, b"alac\x01\x02\x03\x04").is_some());
    assert_eq!(u32::from_be_bytes([clean[0], clean[1], clean[2], clean[3]]) as usize, clean.len());
}

#[test]
fn movie_box_is_rewritten_for_one_sample_table() {
    let data = movie();
    let moov = read_mp4_box(&data, 0).unwrap().unwrap();
    let out = rewrite_box_for_progressive(&data, moov, &samples(), 8192, 111).unwrap();
    assert_eq!(&out[4..8], b"moov");
    assert!(find(&out, b"mvex").is_none());
    assert!(find(&out, b"edts").is_none());
    assert!(find(&out, b"sinf").is_none());
    for typ in [b"stts", b"stsc", b"stsz", b"stco", b"stsd", b"tkhd", b"mdhd"] {
        assert!(find(&out, typ).is_some());
    }
    let mdhd = find(&out, b"mdhd").unwrap();
    assert_eq!(&out[mdhd + 4 + 16..mdhd + 4 + 20], &8192u32.to_be_bytes());
}

#[test]
fn fragments_become_one_progressive_file() {
    let ftyp = mp4_box(b"ftyp", b"M4A \0\0\0\0");
    let mut data = ftyp.clone();
    data.extend(movie());
    data.extend(mp4_box(b"moof", &[0u8; 8]));
    let (f, m) = progressive_init_boxes(&data).unwrap();
    let out = assemble_progressive(&data, f, m, &samples()).unwrap();
    assert_eq!(&out[..ftyp.len()], &ftyp[..]);
    let mdat = find(&out, b"mdat").unwrap();
    assert_eq!(&out[mdat + 4..], &[0xAA, 0xAA, 0xAA, 0xAA, 0xAA, 0xBB, 0xBB, 0xBB]);
    assert_eq!(u32::from_be_bytes([out[mdat - 4], out[mdat - 3], out[mdat - 2], out[mdat - 1]]), 16);
    let stco = find(&out, b"stco").unwrap();
    let offset = u32::from_be_bytes([out[stco + 12], out[stco + 13], out[stco + 14], out[stco + 15]]);
    assert_eq!(offset as usize, mdat + 4);
    assert!(assemble_progressive(&data, f, m, &[]).is_err());
    assert!(progressive_init_boxes(&movie()).is_err());
}

use bot_rs::mp4::{
    build_box, build_stco, build_stsc, build_stsz, build_stts, container_child_start,
    find_box_recursive, find_child_box, parse_mdhd_timescale, parse_mvhd_timescale,
    parse_tfhd_defaults, parse_trun_samples, patch_first_stco_offset, patch_mvhd_duration,
    patch_tkhd_duration, read_mp4_box, FragmentDefaults, Mp4Box, ProgressiveSample,
    TrunSampleInfo,
};

fn boxed(typ: &[u8; 4], payload: Vec<u8>) -> Vec<u8> {
    build_box(typ, payload)
}

#[test]
fn boxes_read_back() {
    let b = boxed(b"free", vec![1, 2, 3]);
    assert_eq!(b, vec![0, 0, 0, 11, b'f', b'r', b'e', b'e', 1, 2, 3]);
    let r = read_mp4_box(&b, 0).unwrap().unwrap();
    assert_eq!(r, Mp4Box { start: 0, header_size: 8, size: 11, typ: *b"free" });
    assert_eq!(r.payload_start(), 8);
    assert_eq!(r.end(), 11);
    assert!(read_mp4_box(&b, 11).unwrap().is_none());
    assert_eq!(
        read_mp4_box(&b[..5], 0).unwrap_err().message(),
        "MP4 box header truncated"
    );
    let mut bad = b.clone();
    bad[3] = 99;
    assert_eq!(read_mp4_box(&bad, 0).unwrap_err().message(), "MP4 box free size invalid");
    let mut large = vec![0, 0, 0, 1, b'm', b'd', b'a', b't'];
    large.extend_from_slice(&20u64.to_be_bytes());
    large.extend_from_slice(&[9, 9, 9, 9]);
    let r = read_mp4_box(&large, 0).unwrap().unwrap();
    assert_eq!((r.header_size, r.size), (16, 20));
    assert_eq!(
        read_mp4_box(&large[..12], 0).unwrap_err().message(),
        "MP4 largesize header truncated"
    );
    let to_end = vec![0, 0, 0, 0, b'm', b'd', b'a', b't', 5, 5];
    assert_eq!(read_mp4_box(&to_end, 0).unwrap().unwrap().size, 10);
}

#[test]
fn boxes_are_found_inside_containers() {
    let mvhd = boxed(b"mvhd", vec![0; 20]);
    let trak = boxed(b"trak", boxed(b"mdia", boxed(b"mdhd", vec![0; 20])));
    let mut moov_payload = mvhd.clone();
    moov_payload.extend_from_slice(&trak);
    let mut file = boxed(b"ftyp", vec![1, 2, 3, 4]);
    let moov_start = file.len();
    file.extend_from_slice(&boxed(b"moov", moov_payload));
    let moov = find_child_box(&file, 0, file.len(), b"moov").unwrap();
    assert_eq!(moov.start, moov_start);
    assert!(find_child_box(&file, 0, file.len(), b"mdhd").is_none());
    let mdhd = find_box_recursive(&file, 0, file.len(), b"mdhd").unwrap();
    assert_eq!(mdhd.size, 28);
    assert_eq!(&file[mdhd.start + 4..mdhd.start + 8], b"mdhd");
    assert_eq!(container_child_start(moov), Some(moov.start + 8));
    assert_eq!(container_child_start(mdhd), None);
}

#[test]
fn fragment_headers_and_runs() {
    let tfhd = vec![0, 0, 0, 0x18, 0, 0, 0, 1, 0, 0, 4, 0, 0, 0, 0, 100];
    assert_eq!(
        parse_tfhd_defaults(&tfhd).unwrap(),
        FragmentDefaults { default_sample_size: 100, default_sample_duration: 1024 }
    );
    assert_eq!(
        parse_tfhd_defaults(&[0, 0, 0, 0x08, 0, 0, 0, 1]).unwrap_err().message(),
        "MP4 tfhd default duration truncated"
    );
    let defaults = FragmentDefaults { default_sample_size: 7, default_sample_duration: 9 };
    // data offset -8, sizes present
    let mut trun = vec![0, 0, 0x02, 0x01, 0, 0, 0, 2];
    trun.extend_from_slice(&(-8i32).to_be_bytes());
    trun.extend_from_slice(&300u32.to_be_bytes());
    trun.extend_from_slice(&400u32.to_be_bytes());
    let (offset, samples) = parse_trun_samples(&trun, defaults).unwrap();
    assert_eq!(offset, Some(-8));
    assert_eq!(
        samples,
        vec![TrunSampleInfo { size: 300, duration: 9 }, TrunSampleInfo { size: 400, duration: 9 }]
    );
    let zero = FragmentDefaults { default_sample_size: 0, default_sample_duration: 0 };
    assert_eq!(
        parse_trun_samples(&[0, 0, 0, 0, 0, 0, 0, 1], zero).unwrap_err().message(),
        "MP4 trun sample size 缺失"
    );
    assert_eq!(
        parse_trun_samples(&[0, 0, 0x01, 0x00, 0, 0, 0, 1], defaults).unwrap_err().message(),
        "MP4 trun sample duration truncated"
    );
}

#[test]
fn sample_tables() {
    let samples = vec![
        ProgressiveSample { data: vec![], duration: 1024, size: 10 },
        ProgressiveSample { data: vec![], duration: 1024, size: 11 },
        ProgressiveSample { data: vec![], duration: 512, size: 12 },
    ];
    let stts = build_stts(&samples);
    let mut expect = vec![0, 0, 0, 32, b's', b't', b't', b's', 0, 0, 0, 0, 0, 0, 0, 2];
    expect.extend_from_slice(&[0, 0, 0, 2, 0, 0, 4, 0, 0, 0, 0, 1, 0, 0, 2, 0]);
    assert_eq!(stts, expect);
    let stsz = build_stsz(&samples);
    assert_eq!(stsz.len(), 8 + 12 + 12);
    assert_eq!(&stsz[20..24], &[0, 0, 0, 10]);
    assert_eq!(build_stsc(3)[20..24], [0, 0, 0, 3]);
    let stco = build_stco(0x01020304);
    assert_eq!(&stco[16..20], &[1, 2, 3, 4]);
}

#[test]
fn header_times_and_patches() {
    let mut v0 = vec![0u8; 20];
    v0[12..16].copy_from_slice(&44100u32.to_be_bytes());
    assert_eq!(parse_mvhd_timescale(&v0), Some(44100));
    assert_eq!(parse_mdhd_timescale(&[1u8; 20]), None);
    let mut v1 = vec![1u8; 32];
    v1[20..24].copy_from_slice(&48000u32.to_be_bytes());
    assert_eq!(parse_mvhd_timescale(&v1), Some(48000));
    patch_mvhd_duration(&mut v0, 0x1_0000_0005);
    assert_eq!(&v0[16..20], &[0, 0, 0, 5]);
    patch_mvhd_duration(&mut v1, 7);
    assert_eq!(&v1[24..32], &7u64.to_be_bytes());
    let mut tk = vec![0u8; 24];
    patch_tkhd_duration(&mut tk, 9);
    assert_eq!(&tk[20..24], &[0, 0, 0, 9]);
    let mut short = vec![0u8; 3];
    patch_tkhd_duration(&mut short, 9);
    assert_eq!(short, vec![0, 0, 0]);

    let mut moov = boxed(b"moov", boxed(b"stbl", build_stco(0)));
    patch_first_stco_offset(&mut moov, 77).unwrap();
    let stco = find_box_recursive(&moov, 0, moov.len(), b"stco").unwrap();
    let at = stco.payload_start() + 8;
    assert_eq!(&moov[at..at + 4], &77u32.to_be_bytes());
    let mut none = boxed(b"moov", vec![]);
    assert_eq!(
        patch_first_stco_offset(&mut none, 1).unwrap_err().message(),
        "progressive MP4 缺少 stco"
    );
}

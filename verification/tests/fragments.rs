use aes::cipher::{KeyIvInit, StreamCipher};
use bot_rs::cenc::{
    fragment_key, group_wrapper_commands_by_fragment, key_adam, DecryptJob,
    WrapperCommand,
};
use bot_rs::error::BotError;
use bot_rs::fragments::{
    collect_fragment_samples, collect_wrapper_decrypt_commands, decrypt_cenc_fmp4_fragments,
    next_fragment_item, parse_tenc_from_init, parse_traf, wrapper_fragment_groups, run_samples, run_start, tenc_payload, traf_contents,
    WalkCursor, WalkItem,
};
use bot_rs::mp4::Mp4Box;

/// The first `traf` stop of the walk from the start, with the cursor after it.
fn first_traf(data: &[u8]) -> (Mp4Box, Mp4Box, Mp4Box, WalkCursor) {
    let mut cursor = WalkCursor::Top(0);
    loop {
        match next_fragment_item(data, cursor).unwrap() {
            Some((WalkItem::Traf(m, d, t), next)) => return (m, d, t, next),
            Some((WalkItem::Moof(_, _), next)) => cursor = next,
            None => panic!("no traf"),
        }
    }
}

fn message(e: BotError) -> String {
    match e {
        BotError::Custom(m) => m,
    }
}

fn boxed(typ: &[u8; 4], payload: &[u8]) -> Vec<u8> {
    let mut out = ((payload.len() + 8) as u32).to_be_bytes().to_vec();
    out.extend_from_slice(typ);
    out.extend_from_slice(payload);
    out
}

/// A `moof` with one `traf` of two samples (sizes 16 and 8, durations 1024)
/// and its `mdat`; with `offset`, the run's data offset points at the
/// `mdat` payload.
fn fragment(offset: bool) -> (Vec<u8>, usize) {
    let mut tfhd = vec![0, 0, 0, 0x08];
    tfhd.extend_from_slice(&1u32.to_be_bytes());
    tfhd.extend_from_slice(&1024u32.to_be_bytes());
    let flags: u8 = if offset { 0x01 } else { 0x00 };
    let mut trun = vec![0, 0, 0x02, flags];
    trun.extend_from_slice(&2u32.to_be_bytes());
    let offset_at = trun.len();
    if offset {
        trun.extend_from_slice(&0i32.to_be_bytes());
    }
    trun.extend_from_slice(&16u32.to_be_bytes());
    trun.extend_from_slice(&8u32.to_be_bytes());
    let mut traf_payload = boxed(b"tfhd", &tfhd);
    traf_payload.extend(boxed(b"trun", &trun));
    let traf = boxed(b"traf", &traf_payload);
    let mut moof = boxed(b"moof", &traf);
    let payload: Vec<u8> = (0..24u8).collect();
    let mdat_payload_at = moof.len() + 8;
    if offset {
        // moof header, traf header, tfhd box, trun header, then the flags and count
        let at = 8 + 8 + (8 + tfhd.len()) + 8 + offset_at;
        moof[at..at + 4].copy_from_slice(&(mdat_payload_at as i32).to_be_bytes());
    }
    let mut data = boxed(b"ftyp", b"isom");
    let base = data.len();
    data.extend(moof);
    data.extend(boxed(b"mdat", &payload));
    (data, base + mdat_payload_at)
}

#[test]
fn walk_finds_the_traf_then_ends() {
    let (data, _) = fragment(false);
    let (item, _) = next_fragment_item(&data, WalkCursor::Top(0)).unwrap().unwrap();
    assert!(matches!(item, WalkItem::Moof(m, _) if m.start == 12));
    let (moof, mdat, traf, next) = first_traf(&data);
    assert_eq!(&moof.typ, b"moof");
    assert_eq!(&mdat.typ, b"mdat");
    assert_eq!(&traf.typ, b"traf");
    assert_eq!(moof.start, 12);
    assert_eq!(mdat.start, moof.start + moof.size);
    assert!(next_fragment_item(&data, next).unwrap().is_none());
}

#[test]
fn walk_refuses_a_moof_without_mdat() {
    let (mut data, _) = fragment(false);
    let at = data.len() - 24 - 4;
    data[at..at + 4].copy_from_slice(b"free");
    let err = next_fragment_item(&data, WalkCursor::Top(0)).unwrap_err();
    assert_eq!(message(err), "MP4 moof 后缺少 mdat");
}

#[test]
fn traf_contents_and_run_samples() {
    let (data, payload_at) = fragment(false);
    let (moof, mdat, traf, _) = first_traf(&data);
    let contents = traf_contents(&data, traf).unwrap();
    assert_eq!(contents.data_offset, None);
    assert_eq!(contents.samples.len(), 2);
    assert_eq!(contents.samples[0].size, 16);
    assert_eq!(contents.samples[1].duration, 1024);
    assert!(contents.senc.is_none());
    let start = run_start(moof, mdat, contents.data_offset);
    assert_eq!(start, payload_at);
    let samples = run_samples(&data, start, &contents.samples).unwrap();
    assert_eq!(samples.len(), 2);
    assert_eq!(samples[0].data, (0..16u8).collect::<Vec<u8>>());
    assert_eq!(samples[1].data, (16..24u8).collect::<Vec<u8>>());
    let err = run_samples(&data, data.len() - 4, &contents.samples).unwrap_err();
    assert_eq!(message(err), "MP4 sample 超出文件范围");
}

#[test]
fn run_start_follows_the_data_offset() {
    let (data, payload_at) = fragment(true);
    let (moof, mdat, traf, _) = first_traf(&data);
    let contents = traf_contents(&data, traf).unwrap();
    assert_eq!(contents.data_offset, Some((payload_at - moof.start) as i32));
    assert_eq!(run_start(moof, mdat, contents.data_offset), payload_at);
    assert_eq!(run_start(moof, mdat, Some(-100)), usize::MAX);
}

#[test]
fn traf_without_trun_is_refused() {
    let mut tfhd = vec![0, 0, 0, 0];
    tfhd.extend_from_slice(&1u32.to_be_bytes());
    let traf = boxed(b"traf", &boxed(b"tfhd", &tfhd));
    let mut data = boxed(b"moof", &traf);
    data.extend(boxed(b"mdat", &[0u8; 4]));
    let (_, _, traf_box, _) = first_traf(&data);
    assert_eq!(message(traf_contents(&data, traf_box).unwrap_err()), "MP4 traf 缺少 trun");
}

#[test]
fn tenc_payload_is_found_or_refused() {
    let mut tenc = vec![0u8; 4];
    tenc.extend_from_slice(&[0, 0, 1, 8]);
    tenc.extend_from_slice(&[0xAA; 16]);
    let data = boxed(b"moov", &boxed(b"tenc", &tenc));
    let (a, b) = tenc_payload(&data).unwrap();
    assert_eq!((a, b), (16, 16 + tenc.len()));
    let err = tenc_payload(&boxed(b"moov", b"none")).unwrap_err();
    assert_eq!(message(err), "Apple Music fMP4 没有 tenc box");
}

#[test]
fn fragment_keys_and_groups() {
    let prefetch = "skd://itunes.apple.com/P000000000/s1/e1";
    assert_eq!(key_adam("1234", prefetch), "0");
    assert_eq!(key_adam("1234", "skd://other"), "1234");
    let keys = vec![prefetch.to_owned(), "skd://other".to_owned()];
    match fragment_key("1234", &keys, 1).unwrap() {
        WrapperCommand::Key { adam, uri } => {
            assert_eq!(adam, "1234");
            assert_eq!(uri, "skd://other");
        }
        _ => panic!("expected a key"),
    }
    assert_eq!(
        message(fragment_key("1234", &keys, 2).unwrap_err()),
        "Apple Music segment key 数量不足"
    );
    let job = |a: usize| DecryptJob { payload: vec![a as u8; 16], ranges: vec![(a, a + 16)] };
    let commands = vec![
        fragment_key("1234", &keys, 0).unwrap(),
        WrapperCommand::Job(job(0)),
        WrapperCommand::Job(job(16)),
        fragment_key("1234", &keys, 1).unwrap(),
        fragment_key("1234", &keys, 1).unwrap(),
        WrapperCommand::Job(job(32)),
    ];
    let groups = group_wrapper_commands_by_fragment(&commands).unwrap();
    assert_eq!(groups.len(), 3);
    assert_eq!(groups[0].adam, "0");
    assert_eq!(groups[0].jobs.len(), 2);
    assert_eq!(groups[0].jobs[1].ranges, vec![(16, 32)]);
    assert_eq!(groups[1].jobs.len(), 0);
    assert_eq!(groups[2].uri, "skd://other");
    assert_eq!(groups[2].jobs[0].payload, vec![32u8; 16]);
    let err = group_wrapper_commands_by_fragment(&[WrapperCommand::Job(job(0))]).unwrap_err();
    assert_eq!(message(err), "Apple Music wrapper fragment 缺少 key");
}

#[test]
fn prewarm_keys_are_listed_once() {
    let prefetch = "skd://itunes.apple.com/P000000000/s1/e1".to_owned();
    let other = "skd://other".to_owned();
    let keys = vec![prefetch.clone(), other.clone(), prefetch.clone(), other.clone()];
    let list = bot_rs::cenc::prewarm_wrapper_key_list("77", &keys);
    assert_eq!(list, vec![("0".to_owned(), prefetch), ("77".to_owned(), other)]);
}

fn tenc_box(iv_size: u8) -> Vec<u8> {
    let mut tenc = vec![0u8, 0, 0, 0, 0, 0, 1, iv_size];
    tenc.extend_from_slice(&[0xAB; 16]);
    boxed(b"tenc", &tenc)
}

/// An encrypted file: `ftyp`, a `moov` holding the `tenc`, then one
/// fragment of two samples (16 and 8 bytes) with 8-byte IVs in its `senc`.
fn encrypted_file(key: &[u8; 16], plain: &[u8; 24]) -> (Vec<u8>, usize) {
    let ivs = [[1u8; 8], [2u8; 8]];
    let mut tfhd = vec![0, 0, 0, 0x08];
    tfhd.extend_from_slice(&1u32.to_be_bytes());
    tfhd.extend_from_slice(&1024u32.to_be_bytes());
    let mut trun = vec![0, 0, 0x02, 0];
    trun.extend_from_slice(&2u32.to_be_bytes());
    trun.extend_from_slice(&16u32.to_be_bytes());
    trun.extend_from_slice(&8u32.to_be_bytes());
    let mut senc = vec![0, 0, 0, 0];
    senc.extend_from_slice(&2u32.to_be_bytes());
    senc.extend_from_slice(&ivs[0]);
    senc.extend_from_slice(&ivs[1]);
    let mut traf = boxed(b"tfhd", &tfhd);
    traf.extend(boxed(b"trun", &trun));
    traf.extend(boxed(b"senc", &senc));
    let moof = boxed(b"moof", &boxed(b"traf", &traf));
    let mut payload = plain.to_vec();
    for (k, (a, b)) in [(0usize, 16usize), (16, 24)].into_iter().enumerate() {
        let mut iv = [0u8; 16];
        iv[..8].copy_from_slice(&ivs[k]);
        let mut c = ctr::Ctr128BE::<aes::Aes128>::new_from_slices(key, &iv).unwrap();
        c.apply_keystream(&mut payload[a..b]);
    }
    let mut data = boxed(b"ftyp", b"isom");
    data.extend(boxed(b"moov", &tenc_box(8)));
    data.extend(moof);
    let payload_at = data.len() + 8;
    data.extend(boxed(b"mdat", &payload));
    (data, payload_at)
}

#[test]
fn tenc_and_senc_are_read() {
    let key = [4u8; 16];
    let plain = [7u8; 24];
    let (data, _) = encrypted_file(&key, &plain);
    let tenc = parse_tenc_from_init(&data).unwrap();
    assert_eq!(tenc.default_per_sample_iv_size, 8);
    assert_eq!(tenc.default_crypt_byte_block, 0);
    assert!(tenc.default_constant_iv.is_none());
    let (_, _, traf, _) = first_traf(&data);
    let parsed = parse_traf(&data, traf, &tenc).unwrap();
    let senc = parsed.senc.unwrap();
    assert_eq!(senc.len(), 2);
    assert_eq!(senc[1].iv, vec![2u8; 8]);
    assert!(senc[0].subsamples.is_empty());
    let mut short = vec![0u8, 0, 0, 0];
    short.extend_from_slice(&[0u8; 4]);
    let bad = boxed(b"moov", &boxed(b"tenc", &short));
    let err = message(parse_tenc_from_init(&bad).unwrap_err());
    assert!(err.starts_with("Apple Music tenc 解析失败："));
}

#[test]
fn encrypted_fragments_are_decrypted_in_place() {
    let key = [4u8; 16];
    let plain: [u8; 24] = core::array::from_fn(|i| i as u8);
    let (mut data, payload_at) = encrypted_file(&key, &plain);
    let before = data.clone();
    decrypt_cenc_fmp4_fragments(&mut data, &key).unwrap();
    assert_eq!(&data[payload_at..], &plain[..]);
    assert_eq!(&data[..payload_at], &before[..payload_at]);
    let mut again = before.clone();
    let err = decrypt_cenc_fmp4_fragments(&mut again, &key[..8]).unwrap_err();
    assert_eq!(message(err), "Apple Music Widevine content key 长度错误");
    let tenc = parse_tenc_from_init(&data).unwrap();
    let samples = collect_fragment_samples(&data, &tenc).unwrap();
    assert_eq!(samples.len(), 2);
    assert_eq!(samples[0].data, plain[..16].to_vec());
    assert_eq!(samples[1].duration, 1024);
}

#[test]
fn wrapper_commands_follow_the_fragments() {
    let key = [4u8; 16];
    let plain = [9u8; 24];
    let (data, payload_at) = encrypted_file(&key, &plain);
    let tenc = parse_tenc_from_init(&data).unwrap();
    let keys = vec!["skd://itunes.apple.com/P000000000/s1/e1".to_owned()];
    let commands = collect_wrapper_decrypt_commands(&data, "55", &keys, &tenc).unwrap();
    assert_eq!(commands.len(), 2);
    match &commands[0] {
        WrapperCommand::Key { adam, .. } => assert_eq!(adam, "0"),
        _ => panic!("expected a key"),
    }
    match &commands[1] {
        WrapperCommand::Job(job) => assert_eq!(job.ranges, vec![(payload_at, payload_at + 16)]),
        _ => panic!("expected a job"),
    }
    let groups = wrapper_fragment_groups(&data, "55", &keys).unwrap();
    assert_eq!(groups.len(), 1);
    assert_eq!(groups[0].jobs.len(), 1);
    let err = collect_wrapper_decrypt_commands(&data, "55", &[], &tenc).unwrap_err();
    assert_eq!(message(err), "Apple Music segment key 数量不足");
}

use aes::cipher::{KeyIvInit, StreamCipher};
use bot_rs::cenc::{
    cenc_sample_iv, check_content_key, check_no_pattern,
    collect_wrapper_decrypt_raw_job, collect_wrapper_decrypt_sample_job,
    collect_wrapper_decrypt_sample_jobs, decrypt_cenc_sample, decrypt_cenc_samples, SencSample,
    Subsample, TencInfo,
};
use bot_rs::error::BotError;
use bot_rs::mp4::TrunSampleInfo;

fn message(e: BotError) -> String {
    match e {
        BotError::Custom(m) => m,
    }
}

fn ctr(key: &[u8], iv: &[u8], data: &[u8]) -> Vec<u8> {
    let mut c = ctr::Ctr128BE::<aes::Aes128>::new_from_slices(key, iv).unwrap();
    let mut buf = data.to_vec();
    c.apply_keystream(&mut buf);
    buf
}

#[test]
fn whole_sample_is_decrypted_without_subsamples() {
    let key = [7u8; 16];
    let iv = [1u8; 16];
    let plain: Vec<u8> = (0..40u8).collect();
    let enc = ctr(&key, &iv, &plain);
    assert_eq!(decrypt_cenc_sample(&enc, &[], &key, &iv).unwrap(), plain);
    assert_eq!(decrypt_cenc_sample(&plain, &[], &key, &iv).unwrap(), enc);
    assert_ne!(enc, plain);
}

#[test]
fn protected_ranges_share_one_keystream() {
    let key = [3u8; 16];
    let iv = [9u8; 16];
    // clear 2, protected 5, clear 1, protected 4
    let sample: Vec<u8> = (0..12u8).collect();
    let mut protected = sample[2..7].to_vec();
    protected.extend_from_slice(&sample[8..12]);
    let ks = ctr(&key, &iv, &protected);
    let mut expected = sample.clone();
    expected[2..7].copy_from_slice(&ks[..5]);
    expected[8..12].copy_from_slice(&ks[5..]);
    let subs = [Subsample { clear: 2, protected: 5 }, Subsample { clear: 1, protected: 4 }];
    assert_eq!(decrypt_cenc_sample(&sample, &subs, &key, &iv).unwrap(), expected);
    let bad = [Subsample { clear: 10, protected: 5 }];
    assert_eq!(
        message(decrypt_cenc_sample(&sample, &bad, &key, &iv).unwrap_err()),
        "MP4 subsample protected range 超出 sample"
    );
    assert_eq!(
        message(decrypt_cenc_sample(&sample, &subs, &key[..8], &iv).unwrap_err()),
        "Apple Music Widevine AES-CTR 初始化失败：Invalid Length"
    );
}

#[test]
fn sample_ivs_are_padded_or_refused() {
    let tenc = TencInfo { default_constant_iv: Some(vec![5u8; 16]), ..Default::default() };
    let short = SencSample { iv: vec![1, 2, 3, 4, 5, 6, 7, 8], subsamples: vec![] };
    let iv = cenc_sample_iv(Some(&short), &tenc).unwrap();
    assert_eq!(&iv[..8], &[1, 2, 3, 4, 5, 6, 7, 8]);
    assert_eq!(&iv[8..], &[0u8; 8]);
    assert_eq!(cenc_sample_iv(None, &tenc).unwrap(), [5u8; 16]);
    let odd = SencSample { iv: vec![1, 2, 3], subsamples: vec![] };
    assert_eq!(message(cenc_sample_iv(Some(&odd), &tenc).unwrap_err()), "Apple Music Widevine sample IV 长度错误：3");
    assert_eq!(
        message(cenc_sample_iv(None, &TencInfo::default()).unwrap_err()),
        "Apple Music Widevine sample IV 缺失"
    );
}

#[test]
fn run_samples_are_decrypted_in_place() {
    let key = [2u8; 16];
    let tenc = TencInfo::default();
    let senc = vec![
        SencSample { iv: vec![1u8; 16], subsamples: vec![] },
        SencSample { iv: vec![2u8; 8], subsamples: vec![Subsample { clear: 1, protected: 2 }] },
    ];
    let mut data: Vec<u8> = vec![0xEE; 2];
    data.extend(ctr(&key, &[1u8; 16], b"abcd"));
    let mut iv2 = [0u8; 16];
    iv2[..8].copy_from_slice(&[2u8; 8]);
    let second = ctr(&key, &iv2, b"yz");
    data.push(b'x');
    data.extend(second);
    let samples = [TrunSampleInfo { size: 4, duration: 1 }, TrunSampleInfo { size: 3, duration: 1 }];
    decrypt_cenc_samples(&mut data, 2, &samples, Some(&senc), &tenc, &key).unwrap();
    assert_eq!(&data[2..], b"abcdxyz");
    let mut short = vec![0u8; 3];
    assert_eq!(
        message(decrypt_cenc_samples(&mut short, 0, &samples, Some(&senc), &tenc, &key).unwrap_err()),
        "MP4 sample 超出文件范围"
    );
}

#[test]
fn wrapper_jobs_follow_the_pattern() {
    let data: Vec<u8> = (0..100u8).collect();
    let plain = TencInfo::default();
    let job = collect_wrapper_decrypt_raw_job(&data, 4, 40, &plain).unwrap().unwrap();
    assert_eq!(job.ranges, vec![(4, 36)]);
    assert_eq!(job.payload, data[4..36].to_vec());
    assert!(collect_wrapper_decrypt_raw_job(&data, 4, 15, &plain).unwrap().is_none());
    let pattern = TencInfo { default_crypt_byte_block: 1, default_skip_byte_block: 1, ..Default::default() };
    let job = collect_wrapper_decrypt_raw_job(&data, 0, 70, &pattern).unwrap().unwrap();
    assert_eq!(job.ranges, vec![(0, 16), (32, 48)]);
    assert_eq!(job.payload.len(), 32);
    assert!(collect_wrapper_decrypt_raw_job(&data, 0, 10, &pattern).unwrap().is_none());
    assert_eq!(
        message(collect_wrapper_decrypt_raw_job(&data, 90, 40, &plain).unwrap_err()),
        "MP4 decrypt range 超出文件范围"
    );
    assert!(check_content_key(&[0u8; 16]).is_ok());
    assert!(check_content_key(&[0u8; 3]).is_err());
    assert!(check_no_pattern(&plain).is_ok());
    assert!(check_no_pattern(&pattern).is_err());
}

#[test]
fn sample_jobs_take_each_protected_range() {
    let data: Vec<u8> = (0..100u8).collect();
    let tenc = TencInfo::default();
    let subs = [
        Subsample { clear: 4, protected: 20 },
        Subsample { clear: 6, protected: 32 },
    ];
    let jobs = collect_wrapper_decrypt_sample_job(&data, 10, 80, &subs, &tenc).unwrap();
    assert_eq!(jobs.len(), 2);
    assert_eq!(jobs[0].ranges, vec![(14, 30)]);
    assert_eq!(jobs[0].payload, data[14..30].to_vec());
    assert_eq!(jobs[1].ranges, vec![(40, 72)]);
    let too_long = [Subsample { clear: 70, protected: 20 }];
    let err = collect_wrapper_decrypt_sample_job(&data, 10, 80, &too_long, &tenc).unwrap_err();
    assert_eq!(message(err), "MP4 subsample protected range 超出 sample");
    let whole = collect_wrapper_decrypt_sample_job(&data, 0, 40, &[], &tenc).unwrap();
    assert_eq!(whole.len(), 1);
    assert_eq!(whole[0].ranges, vec![(0, 32)]);
}

#[test]
fn run_jobs_follow_the_samples() {
    let data: Vec<u8> = (0..100u8).collect();
    let tenc = TencInfo::default();
    let samples = [
        TrunSampleInfo { size: 20, duration: 0 },
        TrunSampleInfo { size: 40, duration: 0 },
    ];
    let senc = vec![
        SencSample { iv: vec![], subsamples: vec![] },
        SencSample { iv: vec![], subsamples: vec![Subsample { clear: 8, protected: 16 }] },
    ];
    let jobs = collect_wrapper_decrypt_sample_jobs(&data, 4, &samples, Some(&senc), &tenc).unwrap();
    assert_eq!(jobs.len(), 2);
    assert_eq!(jobs[0].ranges, vec![(4, 20)]);
    assert_eq!(jobs[1].ranges, vec![(32, 48)]);
    let err = collect_wrapper_decrypt_sample_jobs(&data, 50, &samples, None, &tenc).unwrap_err();
    assert_eq!(message(err), "MP4 sample 超出文件范围");
}

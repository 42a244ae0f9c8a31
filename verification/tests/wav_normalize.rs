use toastmcp::wav::{cache_file_name, cache_is_fresh, normalize_wav};

fn push_u16(out: &mut Vec<u8>, v: u16) {
    out.extend_from_slice(&v.to_le_bytes());
}

fn push_u32(out: &mut Vec<u8>, v: u32) {
    out.extend_from_slice(&v.to_le_bytes());
}

fn fmt_chunk(out: &mut Vec<u8>, format_tag: u16, channels: u16, bits: u16) {
    out.extend_from_slice(b"fmt ");
    push_u32(out, 16);
    push_u16(out, format_tag);
    push_u16(out, channels);
    push_u32(out, 44100);
    push_u32(out, 88200);
    push_u16(out, 2);
    push_u16(out, bits);
}

fn mono_wav(samples: &[i16]) -> Vec<u8> {
    let mut out = Vec::new();
    out.extend_from_slice(b"RIFF");
    push_u32(&mut out, 0);
    out.extend_from_slice(b"WAVE");
    fmt_chunk(&mut out, 1, 1, 16);
    out.extend_from_slice(b"data");
    push_u32(&mut out, (samples.len() * 2) as u32);
    for s in samples {
        out.extend_from_slice(&s.to_le_bytes());
    }
    out
}

fn samples_of(wav: &[u8], count: usize) -> Vec<i16> {
    let data_start = wav.len() - count * 2;
    (0..count)
        .map(|k| i16::from_le_bytes([wav[data_start + 2 * k], wav[data_start + 2 * k + 1]]))
        .collect()
}

#[test]
fn half_volume_rounds_to_nearest_and_clamps() {
    let input = vec![100i16, -100, 3, -3, 1, -1, 32767, -32768, 0];
    let wav = mono_wav(&input);
    let out = normalize_wav(wav, 50).expect("16-bit PCM scales");
    let got = samples_of(&out, input.len());
    let expected: Vec<i16> = vec![50, -50, 2, -2, 1, -1, 16384, -16384, 0];
    assert_eq!(got, expected);
}

#[test]
fn seventy_percent_rounds_half_away_from_zero() {
    let input = vec![5i16, -5, 10, 15];
    let wav = mono_wav(&input);
    let out = normalize_wav(wav, 70).expect("16-bit PCM scales");
    // 3.5 rounds away from zero to 4; 10.5 to 11.
    assert_eq!(samples_of(&out, input.len()), vec![4, -4, 7, 11]);
}

#[test]
fn full_volume_is_identity_on_samples() {
    let input = vec![123i16, -32768, 32767, -1];
    let wav = mono_wav(&input);
    let out = normalize_wav(wav.clone(), 100).expect("16-bit PCM scales");
    assert_eq!(out, wav);
}

#[test]
fn volume_out_of_range_leaves_the_source_alone() {
    let wav = mono_wav(&[1, 2, 3]);
    assert!(normalize_wav(wav, 101).is_none());
}

#[test]
fn malformed_header_is_refused_softly() {
    assert!(normalize_wav(b"RIFX1234WAVE".to_vec(), 50).is_none());
    assert!(normalize_wav(b"RIFF".to_vec(), 50).is_none());
    let mut not_wave = mono_wav(&[1]);
    not_wave[8] = b'X';
    assert!(normalize_wav(not_wave, 50).is_none());
}

#[test]
fn missing_data_chunk_is_refused_softly() {
    let mut wav = Vec::new();
    wav.extend_from_slice(b"RIFF");
    push_u32(&mut wav, 0);
    wav.extend_from_slice(b"WAVE");
    fmt_chunk(&mut wav, 1, 1, 16);
    assert!(normalize_wav(wav, 50).is_none());
}

#[test]
fn missing_fmt_chunk_is_refused_softly() {
    let mut wav = Vec::new();
    wav.extend_from_slice(b"RIFF");
    push_u32(&mut wav, 0);
    wav.extend_from_slice(b"WAVE");
    wav.extend_from_slice(b"data");
    push_u32(&mut wav, 2);
    push_u16(&mut wav, 7);
    assert!(normalize_wav(wav, 50).is_none());
}

#[test]
fn non_pcm_or_wrong_depth_is_refused_softly() {
    let mut float_wav = mono_wav(&[1, 2]);
    // Rewrite the format tag (right after "fmt " and its size field).
    float_wav[20] = 3;
    assert!(normalize_wav(float_wav, 50).is_none());
    let mut eight_bit = mono_wav(&[1, 2]);
    eight_bit[34] = 8;
    assert!(normalize_wav(eight_bit, 50).is_none());
}

#[test]
fn odd_sized_chunk_padding_keeps_the_scan_aligned() {
    let mut wav = Vec::new();
    wav.extend_from_slice(b"RIFF");
    push_u32(&mut wav, 0);
    wav.extend_from_slice(b"WAVE");
    // An odd-length chunk first: its pad byte must be skipped.
    wav.extend_from_slice(b"LIST");
    push_u32(&mut wav, 3);
    wav.extend_from_slice(b"abc");
    wav.push(0);
    fmt_chunk(&mut wav, 1, 1, 16);
    wav.extend_from_slice(b"data");
    push_u32(&mut wav, 4);
    push_u16(&mut wav, 100u16);
    push_u16(&mut wav, 200u16);
    let out = normalize_wav(wav, 50).expect("scan survives odd chunk");
    assert_eq!(samples_of(&out, 2), vec![50, 100]);
}

#[test]
fn later_chunks_override_earlier_ones() {
    let mut wav = Vec::new();
    wav.extend_from_slice(b"RIFF");
    push_u32(&mut wav, 0);
    wav.extend_from_slice(b"WAVE");
    fmt_chunk(&mut wav, 3, 1, 32);
    fmt_chunk(&mut wav, 1, 1, 16);
    wav.extend_from_slice(b"data");
    push_u32(&mut wav, 2);
    push_u16(&mut wav, 10u16);
    let out = normalize_wav(wav, 50).expect("the later fmt chunk wins");
    assert_eq!(samples_of(&out, 1), vec![5]);
}

#[test]
fn cache_name_combines_stem_and_volume_bucket() {
    assert_eq!(cache_file_name("ding", 70), "ding_vol70.wav");
    assert_eq!(cache_file_name("a b", 5), "a b_vol5.wav");
}

#[test]
fn cache_freshness_rule() {
    // A cached artifact at least as new as its source is reused.
    assert!(cache_is_fresh(Some(100), Some(100)));
    assert!(cache_is_fresh(Some(100), Some(101)));
    // An edited source (newer mtime) forces recomputation.
    assert!(!cache_is_fresh(Some(101), Some(100)));
    // Unknown times are never trusted.
    assert!(!cache_is_fresh(None, Some(100)));
    assert!(!cache_is_fresh(Some(100), None));
    assert!(!cache_is_fresh(None, None));
}

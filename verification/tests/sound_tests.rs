use pullsync::settings::Settings;
use pullsync::sound::{find_data_chunk, play_countdown_if_enabled, play_pull_if_enabled, SoundClip};

fn wav(chunks: &[(&[u8; 4], Vec<u8>)]) -> Vec<u8> {
    let mut out = b"RIFF\0\0\0\0WAVE".to_vec();
    for (id, body) in chunks {
        out.extend_from_slice(*id);
        out.extend_from_slice(&(body.len() as u32).to_le_bytes());
        out.extend_from_slice(body);
        if body.len() % 2 == 1 {
            out.push(0);
        }
    }
    out
}

fn fmt_body(bits: u16) -> Vec<u8> {
    let mut b = vec![0u8; 16];
    b[14..16].copy_from_slice(&bits.to_le_bytes());
    b
}

#[test]
fn finds_data_and_bits() {
    let w = wav(&[(b"fmt ", fmt_body(16)), (b"data", vec![1, 2, 3, 4])]);
    assert_eq!(find_data_chunk(&w), Some((12 + 8 + 16 + 8, 4, 16)));
}

#[test]
fn skips_unknown_and_odd_chunks() {
    let w = wav(&[(b"LIST", vec![9, 9, 9]), (b"fmt ", fmt_body(8)), (b"data", vec![7; 6])]);
    // LIST: 8 + 3 + 1 padding = 12 bytes; fmt: 24 bytes.
    assert_eq!(find_data_chunk(&w), Some((12 + 12 + 24 + 8, 6, 8)));
}

#[test]
fn clips_data_length_to_file() {
    let mut w = wav(&[(b"fmt ", fmt_body(16))]);
    w.extend_from_slice(b"data");
    w.extend_from_slice(&100u32.to_le_bytes());
    w.extend_from_slice(&[1, 2, 3]);
    let start = 12 + 24 + 8;
    assert_eq!(find_data_chunk(&w), Some((start, 3, 16)));
}

#[test]
fn data_without_fmt_reports_zero_bits() {
    let w = wav(&[(b"data", vec![1, 2])]);
    assert_eq!(find_data_chunk(&w), Some((20, 2, 0)));
}

#[test]
fn rejects_bad_headers_and_missing_data() {
    assert_eq!(find_data_chunk(b"RIFF"), None);
    assert_eq!(find_data_chunk(b"RIFX\0\0\0\0WAVE"), None);
    assert_eq!(find_data_chunk(b"RIFF\0\0\0\0WAVX"), None);
    assert_eq!(find_data_chunk(&wav(&[(b"fmt ", fmt_body(16))])), None);
    assert_eq!(find_data_chunk(&wav(&[])), None);
}

#[test]
fn short_fmt_chunk_is_ignored() {
    let w = wav(&[(b"fmt ", vec![0; 4]), (b"data", vec![5, 5])]);
    assert_eq!(find_data_chunk(&w), Some((12 + 12 + 8, 2, 0)));
}

#[test]
fn sounds_follow_setting() {
    let mut s = Settings::default();
    assert_eq!(play_countdown_if_enabled(&s), Some(SoundClip::Countdown));
    assert_eq!(play_pull_if_enabled(&s), Some(SoundClip::Pull));
    s.sound_enabled = false;
    assert_eq!(play_countdown_if_enabled(&s), None);
    assert_eq!(play_pull_if_enabled(&s), None);
}

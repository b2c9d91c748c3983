//! The local alert sounds: which to play, and locating the sample data inside a WAV image.

use vstd::prelude::*;
use crate::settings::Settings;

verus! {

/// The two bundled sounds.
#[derive(Debug, Clone, Copy, PartialEq, Eq, Structural)]
pub enum SoundClip {
    /// Five one-second beats leading up to "PULL!".
    Countdown,
    /// The alert played the moment the count reaches "PULL!".
    Pull,
}

/// The last-five-seconds countdown sound, if sounds are enabled in settings.
pub fn play_countdown_if_enabled(settings: &Settings) -> (r: Option<SoundClip>)
    ensures
        r == (if settings.sound_enabled { Some(SoundClip::Countdown) } else { None }),
{
    if settings.sound_enabled {
        Some(SoundClip::Countdown)
    } else {
        None
    }
}

/// The "PULL!" alert sound, if sounds are enabled in settings.
pub fn play_pull_if_enabled(settings: &Settings) -> (r: Option<SoundClip>)
    ensures
        r == (if settings.sound_enabled { Some(SoundClip::Pull) } else { None }),
{
    if settings.sound_enabled {
        Some(SoundClip::Pull)
    } else {
        None
    }
}

/// A little-endian `u32` at `i`.
pub open spec fn le32(b: Seq<u8>, i: int) -> int {
    b[i] + b[i + 1] * 0x100 + b[i + 2] * 0x1_0000 + b[i + 3] * 0x100_0000
}

/// A little-endian `u16` at `i`.
pub open spec fn le16(b: Seq<u8>, i: int) -> int {
    b[i] + b[i + 1] * 0x100
}

/// Whether the four bytes at `i` are `tag`.
pub open spec fn tag_at(b: Seq<u8>, i: int, tag: Seq<u8>) -> bool {
    0 <= i && i + 4 <= b.len() && b.subrange(i, i + 4) == tag
}

/// `RIFF`, `WAVE`, `fmt ` and `data` as bytes.
pub open spec fn riff_tag() -> Seq<u8> {
    seq![0x52u8, 0x49u8, 0x46u8, 0x46u8]
}

pub open spec fn wave_tag() -> Seq<u8> {
    seq![0x57u8, 0x41u8, 0x56u8, 0x45u8]
}

pub open spec fn fmt_tag() -> Seq<u8> {
    seq![0x66u8, 0x6Du8, 0x74u8, 0x20u8]
}

pub open spec fn data_tag() -> Seq<u8> {
    seq![0x64u8, 0x61u8, 0x74u8, 0x61u8]
}

/// `x` capped at `usize::MAX` (a saturating addition's result).
pub open spec fn sat(x: int) -> int {
    if x > usize::MAX { usize::MAX as int } else { x }
}

/// Walks the RIFF chunks from `pos` on, carrying the last `fmt ` chunk's bits-per-sample and
/// the last `data` chunk's byte range (clipped to the image). RIFF chunks are word-aligned: a
/// chunk with an odd size has one byte of padding after it.
pub open spec fn walk_chunks(wav: Seq<u8>, pos: int, bits: u16, data: Option<(int, int)>) -> (
    u16,
    Option<(int, int)>,
)
    decreases (if 0 <= pos <= wav.len() { wav.len() - pos } else { 0 }),
{
    if pos < 0 || pos + 8 > wav.len() || pos + 8 > usize::MAX {
        (bits, data)
    } else {
        let size = le32(wav, pos + 4);
        let body = pos + 8;
        let is_fmt = tag_at(wav, pos, fmt_tag()) && body + 16 <= wav.len();
        let bits2 = if is_fmt { le16(wav, body + 14) as u16 } else { bits };
        let data2 = if !is_fmt && tag_at(wav, pos, data_tag()) {
            Some((body, if size < wav.len() - body { size } else { wav.len() - body }))
        } else {
            data
        };
        walk_chunks(wav, sat(sat(body + size) + size % 2), bits2, data2)
    }
}

/// Where the sample data of a WAV image lies: `(start, length, bits_per_sample)` of its last
/// `data` chunk, with the last `fmt ` chunk's bits-per-sample (0 if none), or `None` if the
/// image has no RIFF/WAVE header or no `data` chunk.
pub open spec fn data_chunk_of(wav: Seq<u8>) -> Option<(int, int, u16)> {
    if wav.len() < 12 || !tag_at(wav, 0, riff_tag()) || !tag_at(wav, 8, wave_tag()) {
        None
    } else {
        match walk_chunks(wav, 12, 0, None) {
            (bits, Some((start, len))) => Some((start, len, bits)),
            (_, None) => None,
        }
    }
}

fn tag_matches(wav: &[u8], i: usize, tag: [u8; 4]) -> (r: bool)
    requires
        i + 4 <= wav@.len(),
    ensures
        r == tag_at(wav@, i as int, tag@),
{
    let r = wav[i] == tag[0] && wav[i + 1] == tag[1] && wav[i + 2] == tag[2] && wav[i + 3] == tag[3];
    assert(r == (wav@.subrange(i as int, i + 4) =~= tag@));
    r
}

fn read_le32(wav: &[u8], i: usize) -> (r: u32)
    requires
        i + 4 <= wav@.len(),
    ensures
        r == le32(wav@, i as int),
{
    wav[i] as u32 + wav[i + 1] as u32 * 0x100 + wav[i + 2] as u32 * 0x1_0000 + wav[i + 3] as u32
        * 0x100_0000
}

fn read_le16(wav: &[u8], i: usize) -> (r: u16)
    requires
        i + 2 <= wav@.len(),
    ensures
        r == le16(wav@, i as int),
{
    wav[i] as u16 + wav[i + 1] as u16 * 0x100
}

/// Walks the WAV's RIFF chunks to find the `data` chunk's byte range and the `fmt ` chunk's
/// bits-per-sample. Returns `None` if the file isn't well-formed enough to parse.
pub fn find_data_chunk(wav: &[u8]) -> (r: Option<(usize, usize, u16)>)
    ensures
        match r {
            Some((s, l, b)) => data_chunk_of(wav@) == Some((s as int, l as int, b)),
            None => data_chunk_of(wav@) is None,
        },
{
    let n = wav.len();
    if n < 12 || !tag_matches(wav, 0, [0x52, 0x49, 0x46, 0x46]) || !tag_matches(
        wav,
        8,
        [0x57, 0x41, 0x56, 0x45],
    ) {
        proof {
            assert([0x52u8, 0x49u8, 0x46u8, 0x46u8]@ =~= riff_tag());
            assert([0x57u8, 0x41u8, 0x56u8, 0x45u8]@ =~= wave_tag());
        }
        return None;
    }
    proof {
        assert([0x52u8, 0x49u8, 0x46u8, 0x46u8]@ =~= riff_tag());
        assert([0x57u8, 0x41u8, 0x56u8, 0x45u8]@ =~= wave_tag());
    }
    let mut pos: usize = 12;
    let mut bits_per_sample: u16 = 0;
    let mut data_range: Option<(usize, usize)> = None;
    while pos <= n && n - pos >= 8
        invariant
            n == wav@.len(),
            walk_chunks(wav@, 12, 0, None) == walk_chunks(
                wav@,
                pos as int,
                bits_per_sample,
                match data_range {
                    Some((s, l)) => Some((s as int, l as int)),
                    None => None,
                },
            ),
        decreases (if pos <= n { n - pos } else { 0 }),
    {
        let chunk_size: usize = read_le32(wav, pos + 4) as usize;
        let body_start = pos + 8;
        let is_fmt = tag_matches(wav, pos, [0x66, 0x6D, 0x74, 0x20]) && body_start <= n && n
            - body_start >= 16;
        proof {
            assert([0x66u8, 0x6Du8, 0x74u8, 0x20u8]@ =~= fmt_tag());
            assert([0x64u8, 0x61u8, 0x74u8, 0x61u8]@ =~= data_tag());
        }
        if is_fmt {
            bits_per_sample = read_le16(wav, body_start + 14);
        } else if tag_matches(wav, pos, [0x64, 0x61, 0x74, 0x61]) {
            let room = n - body_start;
            let len = if chunk_size < room {
                chunk_size
            } else {
                room
            };
            data_range = Some((body_start, len));
        }
        pos = body_start.saturating_add(chunk_size).saturating_add(chunk_size % 2);
    }
    match data_range {
        Some((start, len)) => Some((start, len, bits_per_sample)),
        None => None,
    }
}

proof fn lemma_walk_in_bounds(wav: Seq<u8>, pos: int, bits: u16, data: Option<(int, int)>)
    requires
        data matches Some((s, l)) ==> 0 <= s && 0 <= l && s + l <= wav.len(),
    ensures
        walk_chunks(wav, pos, bits, data).1 matches Some((s, l)) ==> 0 <= s && 0 <= l && s + l
            <= wav.len(),
    decreases (if 0 <= pos <= wav.len() { wav.len() - pos } else { 0 }),
{
    if !(pos < 0 || pos + 8 > wav.len() || pos + 8 > usize::MAX) {
        let size = le32(wav, pos + 4);
        let body = pos + 8;
        let is_fmt = tag_at(wav, pos, fmt_tag()) && body + 16 <= wav.len();
        let bits2 = if is_fmt { le16(wav, body + 14) as u16 } else { bits };
        let data2 = if !is_fmt && tag_at(wav, pos, data_tag()) {
            Some((body, if size < wav.len() - body { size } else { wav.len() - body }))
        } else {
            data
        };
        lemma_walk_in_bounds(wav, sat(sat(body + size) + size % 2), bits2, data2);
    }
}

/// The sample data found always lies inside the image, past the RIFF header.
pub proof fn lemma_data_chunk_in_bounds(wav: Seq<u8>)
    ensures
        data_chunk_of(wav) matches Some((s, l, b)) ==> 0 <= s && 0 <= l && s + l <= wav.len(),
{
    lemma_walk_in_bounds(wav, 12, 0, None);
}

} // verus!

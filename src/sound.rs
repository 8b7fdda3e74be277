//! Sound records and the framing of MP3 payloads.
use vstd::prelude::*;

verus! {

/// A 16-bit little-endian integer.
pub open spec fn le16(lo: u8, hi: u8) -> u16 {
    (lo as int + 256 * hi as int) as u16
}

pub(crate) fn read_le16(lo: u8, hi: u8) -> (r: u16)
    ensures
        r == le16(lo, hi),
{
    lo as u16 + 256 * (hi as u16)
}

fn copy_from(data: &[u8], start: usize) -> (r: Vec<u8>)
    requires
        start <= data@.len(),
    ensures
        r@ == data@.subrange(start as int, data@.len() as int),
{
    let mut r: Vec<u8> = Vec::new();
    let mut i = start;
    while i < data.len()
        invariant
            start <= i <= data@.len(),
            r@ == data@.subrange(start as int, i as int),
        decreases data@.len() - i,
    {
        r.push(data[i]);
        i += 1;
        proof {
            assert(r@ =~= data@.subrange(start as int, i as int));
        }
    }
    r
}

/// MP3 data behind its 2-byte seek-samples prefix.
#[derive(Clone, Debug, PartialEq, Eq)]
pub struct Mp3 {
    pub seek_samples: u16,
    pub data: Vec<u8>,
}

impl Mp3 {
    pub fn parse(data: &[u8]) -> (r: Mp3)
        requires
            data@.len() >= 2,
        ensures
            r.seek_samples == le16(data@[0], data@[1]),
            r.data@ == data@.subrange(2, data@.len() as int),
    {
        let seek_samples = read_le16(data[0], data[1]);
        Mp3 { seek_samples, data: copy_from(data, 2) }
    }
}

/// A block of a streaming MP3 sound: a 2-byte sample count, then MP3 data.
#[derive(Clone, Debug, PartialEq, Eq)]
pub struct Mp3StreamBlock {
    pub samples: u16,
    pub mp3: Mp3,
}

impl Mp3StreamBlock {
    pub fn parse(data: &[u8]) -> (r: Mp3StreamBlock)
        requires
            data@.len() >= 4,
        ensures
            r.samples == le16(data@[0], data@[1]),
            r.mp3.seek_samples == le16(data@[2], data@[3]),
            r.mp3.data@ == data@.subrange(4, data@.len() as int),
    {
        let samples = read_le16(data[0], data[1]);
        let rest = copy_from(data, 2);
        let mp3 = Mp3::parse(rest.as_slice());
        proof {
            assert(mp3.data@ =~= data@.subrange(4, data@.len() as int));
        }
        Mp3StreamBlock { samples, mp3 }
    }
}

#[derive(Copy, Clone, Debug, PartialEq, Eq, Structural)]
pub enum AudioFormat {
    Mp3,
    /// A coding that is not supported.
    Other,
}

#[derive(Copy, Clone, Debug, PartialEq, Eq, Structural)]
pub enum SoundRate {
    Khz5_5,
    Khz11,
    Khz22,
    Khz44,
}

/// A sound definition as read from the movie.
#[derive(Clone, Debug, PartialEq, Eq)]
pub struct DefineSound {
    pub id: u16,
    pub stereo: bool,
    pub sound_rate: SoundRate,
    pub format: AudioFormat,
    pub sample_count: u32,
    pub data: Vec<u8>,
}

#[derive(Clone, Debug, PartialEq, Eq)]
pub struct Sound {
    pub sample_rate: SoundRate,
    pub stereo: bool,
    pub samples: u32,
    /// The MP3 payload; `None` for other codings.
    pub mp3: Option<Mp3>,
}

impl Sound {
    /// `None` when an MP3 sound is too short to hold its seek prefix.
    pub fn from_def(def: &DefineSound) -> (r: Option<Sound>)
        ensures
            r is None <==> (def.format == AudioFormat::Mp3 && def.data@.len() < 2),
            r matches Some(s) ==> s.sample_rate == def.sound_rate && s.stereo == def.stereo
                && s.samples == def.sample_count && (def.format == AudioFormat::Mp3 <==> s.mp3 is Some)
                && (s.mp3 matches Some(m) ==> m.seek_samples == le16(def.data@[0], def.data@[1])
                && m.data@ == def.data@.subrange(2, def.data@.len() as int)),
    {
        let mp3 = match def.format {
            AudioFormat::Mp3 => {
                if def.data.len() < 2 {
                    return None;
                }
                Some(Mp3::parse(def.data.as_slice()))
            },
            AudioFormat::Other => None,
        };
        Some(Sound { sample_rate: def.sound_rate, stereo: def.stereo, samples: def.sample_count, mp3 })
    }
}

} // verus!

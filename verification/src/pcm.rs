//! A pulse-code-modulated audio source decoded from a byte buffer.
//!
//! The four-byte header is: the magic number `0x31`, a flag byte (bit 2 set
//! for stereo, bit 1 for 16-bit samples, bit 0 for the reserved ADPCM
//! encoding), and the sample rate as a little-endian 16-bit number, which
//! must be 44100. The payload is raw interleaved samples of the declared
//! width; any underflow while decoding a block ends the stream.

use vstd::prelude::*;

use crate::error::PcmError;
use crate::num::{div_i64, div_trunc};
use crate::sample::{Frame, Sample};

verus! {

/// A signed reading of a byte.
pub open spec fn to_signed8(b: int) -> int {
    if b >= 128 {
        b - 256
    } else {
        b
    }
}

/// A signed reading of a little-endian 16-bit number.
pub open spec fn to_signed16(lo: int, hi: int) -> int {
    let v = lo + 256 * hi;
    if v >= 32_768 {
        v - 65_536
    } else {
        v
    }
}

/// An 8-bit sample value in millionths: the signed byte over 127.
pub open spec fn pcm8_lane(b: int) -> int {
    div_trunc(to_signed8(b) * 1_000_000, 127)
}

/// A 16-bit sample value in millionths: the signed word over 32767.
pub open spec fn pcm16_lane(lo: int, hi: int) -> int {
    div_trunc(to_signed16(lo, hi) * 1_000_000, 32_767)
}

fn pcm8_lane_exec(b: u8) -> (r: i32)
    ensures
        r as int == pcm8_lane(b as int),
{
    let signed: i64 = if b >= 128 {
        (b as i64) - 256
    } else {
        b as i64
    };
    let scaled = div_i64(signed * 1_000_000, 127);
    proof {
        crate::num::lemma_div_trunc_magnitude(to_signed8(b as int) * 1_000_000, 1, 128_000_000);
        crate::num::lemma_div_trunc_magnitude(to_signed8(b as int) * 1_000_000, 127, 128_000_000);
    }
    scaled as i32
}

fn pcm16_lane_exec(lo: u8, hi: u8) -> (r: i32)
    ensures
        r as int == pcm16_lane(lo as int, hi as int),
{
    let v: i64 = (lo as i64) + 256 * (hi as i64);
    let signed: i64 = if v >= 32_768 {
        v - 65_536
    } else {
        v
    };
    let scaled = div_i64(signed * 1_000_000, 32_767);
    proof {
        crate::num::lemma_div_trunc_magnitude(
            to_signed16(lo as int, hi as int) * 1_000_000,
            32_767,
            32_768_000_000,
        );
    }
    scaled as i32
}

/// Play audio from a pulse-code modulated file held as bytes.
pub struct Pcm {
    pub data: Vec<u8>,
    pub pos: usize,
    pub is16: bool,
    pub stereo: bool,
    pub adpcm: bool,
    pub sample_rate: u16,
}

/// How many bytes one block consumes in each mode.
pub open spec fn pcm_block_bytes(is16: bool, stereo: bool) -> int {
    if is16 && stereo {
        32
    } else if is16 || stereo {
        16
    } else {
        8
    }
}

/// The lane a decoded block carries for a channel: `chan` is 0 for left and
/// 1 for right (right only in stereo mode).
pub open spec fn pcm_lane(d: Seq<u8>, pos: int, is16: bool, stereo: bool, chan: int, k: int) -> int {
    let channels: int = if stereo {
        2
    } else {
        1
    };
    if is16 {
        let off = pos + 2 * (channels * k + chan);
        pcm16_lane(d[off] as int, d[off + 1] as int)
    } else {
        let off = pos + channels * k + chan;
        pcm8_lane(d[off] as int)
    }
}

/// One block pulled from a PCM source: on underflow the stream ends and the
/// cursor stays; otherwise the cursor advances by one block's bytes and the
/// frame carries the decoded lanes of each channel.
pub open spec fn pcm_step(a: Pcm, b: Pcm, r: Option<crate::sample::FrameV>) -> bool {
    &&& b.data@ == a.data@
    &&& b.is16 == a.is16
    &&& b.stereo == a.stereo
    &&& b.adpcm == a.adpcm
    &&& b.sample_rate == a.sample_rate
    &&& if a.pos as int + pcm_block_bytes(a.is16, a.stereo) > a.data@.len() {
        r is None && b.pos == a.pos
    } else {
        &&& b.pos as int == a.pos as int + pcm_block_bytes(a.is16, a.stereo)
        &&& r is Some
        &&& forall|k: int|
            0 <= k < 8 ==> r->0.left[k] == pcm_lane(a.data@, a.pos as int, a.is16, a.stereo, 0, k)
        &&& (a.stereo ==> (r->0.right matches Some(rt) && forall|k: int|
            0 <= k < 8 ==> rt[k] == pcm_lane(a.data@, a.pos as int, a.is16, a.stereo, 1, k)))
        &&& (!a.stereo ==> r->0.right is None)
    }
}

impl Pcm {
    /// Parse the header of a file and build the source positioned at the
    /// start of the payload.
    pub fn from_file(data: Vec<u8>) -> (r: Result<Pcm, PcmError>)
        ensures
            data@.len() < 4 ==> r == Result::<Pcm, PcmError>::Err(PcmError::TooShort),
            data@.len() >= 4 && data@[0] != 0x31 ==> r == Result::<Pcm, PcmError>::Err(
                PcmError::BadMagicNumber,
            ),
            data@.len() >= 4 && data@[0] == 0x31 && data@[2] as int + 256 * (data@[3] as int)
                != 44_100 ==> r == Result::<Pcm, PcmError>::Err(
                PcmError::BadSampleRate((data@[2] as int + 256 * (data@[3] as int)) as u16),
            ),
            data@.len() >= 4 && data@[0] == 0x31 && data@[2] as int + 256 * (data@[3] as int)
                == 44_100 ==> r is Ok && r->Ok_0.data@ == data@ && r->Ok_0.pos == 4
                && r->Ok_0.stereo == (data@[1] & 4 != 0) && r->Ok_0.is16 == (data@[1] & 2 != 0)
                && r->Ok_0.adpcm == (data@[1] & 1 != 0) && r->Ok_0.sample_rate == 44_100,
    {
        if data.len() < 4 {
            return Err(PcmError::TooShort);
        }
        if data[0] != 0x31 {
            return Err(PcmError::BadMagicNumber);
        }
        let sample_rate: u16 = (data[2] as u16) + 256 * (data[3] as u16);
        if sample_rate != 44_100 {
            return Err(PcmError::BadSampleRate(sample_rate));
        }
        let flags = data[1];
        Ok(
            Pcm {
                stereo: flags & 4 != 0,
                is16: flags & 2 != 0,
                adpcm: flags & 1 != 0,
                sample_rate,
                pos: 4,
                data,
            },
        )
    }

    /// Decode the next block, or report end of stream on underflow.
    #[verifier::rlimit(60)]
    pub fn next_block(&mut self) -> (r: Option<Frame>)
        ensures
            final(self).data@ == old(self).data@,
            final(self).is16 == old(self).is16,
            final(self).stereo == old(self).stereo,
            final(self).adpcm == old(self).adpcm,
            final(self).sample_rate == old(self).sample_rate,
            old(self).pos as int + pcm_block_bytes(old(self).is16, old(self).stereo) > old(
                self,
            ).data@.len() ==> r is None && final(self).pos == old(self).pos,
            old(self).pos as int + pcm_block_bytes(old(self).is16, old(self).stereo) <= old(
                self,
            ).data@.len() ==> {
                &&& final(self).pos as int == old(self).pos as int + pcm_block_bytes(
                    old(self).is16,
                    old(self).stereo,
                )
                &&& r is Some
                &&& forall|k: int|
                    0 <= k < 8 ==> r->0@.left[k] == pcm_lane(
                        old(self).data@,
                        old(self).pos as int,
                        old(self).is16,
                        old(self).stereo,
                        0,
                        k,
                    )
                &&& (old(self).stereo ==> (r->0@.right matches Some(rt) && forall|k: int|
                    0 <= k < 8 ==> rt[k] == pcm_lane(
                        old(self).data@,
                        old(self).pos as int,
                        old(self).is16,
                        old(self).stereo,
                        1,
                        k,
                    )))
                &&& (!old(self).stereo ==> r->0@.right is None)
            },
            pcm_step(
                *old(self),
                *final(self),
                match r {
                    Some(f) => Some(f@),
                    None => None,
                },
            ),
    {
        let need: usize = if self.is16 && self.stereo {
            32
        } else if self.is16 || self.stereo {
            16
        } else {
            8
        };
        if self.pos > self.data.len() || self.data.len() - self.pos < need {
            return None;
        }
        let p = self.pos;
        let r = if self.is16 {
            if self.stereo {
                let left = Sample::new(
                    [
                        pcm16_lane_exec(self.data[p], self.data[p + 1]),
                        pcm16_lane_exec(self.data[p + 4], self.data[p + 5]),
                        pcm16_lane_exec(self.data[p + 8], self.data[p + 9]),
                        pcm16_lane_exec(self.data[p + 12], self.data[p + 13]),
                        pcm16_lane_exec(self.data[p + 16], self.data[p + 17]),
                        pcm16_lane_exec(self.data[p + 20], self.data[p + 21]),
                        pcm16_lane_exec(self.data[p + 24], self.data[p + 25]),
                        pcm16_lane_exec(self.data[p + 28], self.data[p + 29]),
                    ],
                );
                let right = Sample::new(
                    [
                        pcm16_lane_exec(self.data[p + 2], self.data[p + 3]),
                        pcm16_lane_exec(self.data[p + 6], self.data[p + 7]),
                        pcm16_lane_exec(self.data[p + 10], self.data[p + 11]),
                        pcm16_lane_exec(self.data[p + 14], self.data[p + 15]),
                        pcm16_lane_exec(self.data[p + 18], self.data[p + 19]),
                        pcm16_lane_exec(self.data[p + 22], self.data[p + 23]),
                        pcm16_lane_exec(self.data[p + 26], self.data[p + 27]),
                        pcm16_lane_exec(self.data[p + 30], self.data[p + 31]),
                    ],
                );
                Frame::stereo(left, right)
            } else {
                let left = Sample::new(
                    [
                        pcm16_lane_exec(self.data[p], self.data[p + 1]),
                        pcm16_lane_exec(self.data[p + 2], self.data[p + 3]),
                        pcm16_lane_exec(self.data[p + 4], self.data[p + 5]),
                        pcm16_lane_exec(self.data[p + 6], self.data[p + 7]),
                        pcm16_lane_exec(self.data[p + 8], self.data[p + 9]),
                        pcm16_lane_exec(self.data[p + 10], self.data[p + 11]),
                        pcm16_lane_exec(self.data[p + 12], self.data[p + 13]),
                        pcm16_lane_exec(self.data[p + 14], self.data[p + 15]),
                    ],
                );
                Frame::mono(left)
            }
        } else {
            if self.stereo {
                let left = Sample::new(
                    [
                        pcm8_lane_exec(self.data[p]),
                        pcm8_lane_exec(self.data[p + 2]),
                        pcm8_lane_exec(self.data[p + 4]),
                        pcm8_lane_exec(self.data[p + 6]),
                        pcm8_lane_exec(self.data[p + 8]),
                        pcm8_lane_exec(self.data[p + 10]),
                        pcm8_lane_exec(self.data[p + 12]),
                        pcm8_lane_exec(self.data[p + 14]),
                    ],
                );
                let right = Sample::new(
                    [
                        pcm8_lane_exec(self.data[p + 1]),
                        pcm8_lane_exec(self.data[p + 3]),
                        pcm8_lane_exec(self.data[p + 5]),
                        pcm8_lane_exec(self.data[p + 7]),
                        pcm8_lane_exec(self.data[p + 9]),
                        pcm8_lane_exec(self.data[p + 11]),
                        pcm8_lane_exec(self.data[p + 13]),
                        pcm8_lane_exec(self.data[p + 15]),
                    ],
                );
                Frame::stereo(left, right)
            } else {
                let left = Sample::new(
                    [
                        pcm8_lane_exec(self.data[p]),
                        pcm8_lane_exec(self.data[p + 1]),
                        pcm8_lane_exec(self.data[p + 2]),
                        pcm8_lane_exec(self.data[p + 3]),
                        pcm8_lane_exec(self.data[p + 4]),
                        pcm8_lane_exec(self.data[p + 5]),
                        pcm8_lane_exec(self.data[p + 6]),
                        pcm8_lane_exec(self.data[p + 7]),
                    ],
                );
                Frame::mono(left)
            }
        };
        self.pos = p + need;
        Some(r)
    }
}

} // verus!

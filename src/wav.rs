//! The 16-bit PCM WAV container: a fixed 44-byte header whose two size
//! fields are written as zero and patched once the file's length is known.
use vstd::prelude::*;
use crate::mixer::StreamInfo;
use crate::oggopus::le16;
use crate::oggopus::le32;
use crate::oggopus::push_le16;
use crate::oggopus::push_le32;

verus! {

/// The header's length, and where its two size fields sit.
pub const WAV_HEADER_LEN: u32 = 44;
pub const RIFF_SIZE_OFFSET: u64 = 4;
pub const DATA_SIZE_OFFSET: u64 = 40;

pub open spec fn riff() -> Seq<u8> {
    seq![0x52u8, 0x49, 0x46, 0x46]
}

pub open spec fn wave_fmt() -> Seq<u8> {
    seq![0x57u8, 0x41, 0x56, 0x45, 0x66, 0x6d, 0x74, 0x20]
}

pub open spec fn data_tag() -> Seq<u8> {
    seq![0x64u8, 0x61, 0x74, 0x61]
}

/// The header for 16-bit samples of `info`, both sizes left at zero: `RIFF`,
/// size, `WAVE`, a 16-byte `fmt ` chunk (integer PCM, channels, rate, bytes
/// per second, bytes per frame, 16 bits), `data`, size.
pub open spec fn wav_header_bytes(info: StreamInfo) -> Seq<u8> {
    riff() + le32(0) + wave_fmt() + le32(16) + le16(1) + le16(info.channels as int) + le32(
        info.sample_rate as int,
    ) + le32(info.sample_rate as int * info.channels as int * 2) + le16(info.channels as int * 2)
        + le16(16) + data_tag() + le32(0)
}

/// The header that starts a WAV file of 16-bit samples of `info`.
pub fn wav_header(info: StreamInfo) -> (r: Vec<u8>)
    requires
        (info.sample_rate as int) * (info.channels as int) * 2 <= u32::MAX,
        (info.channels as int) * 2 <= u16::MAX,
    ensures
        r@ == wav_header_bytes(info),
        r@.len() == WAV_HEADER_LEN,
{
    let mut out = vec![0x52u8, 0x49, 0x46, 0x46];
    push_le32(&mut out, 0);
    out.push(0x57u8);
    out.push(0x41u8);
    out.push(0x56u8);
    out.push(0x45u8);
    out.push(0x66u8);
    out.push(0x6du8);
    out.push(0x74u8);
    out.push(0x20u8);
    push_le32(&mut out, 16);
    push_le16(&mut out, 1);
    push_le16(&mut out, info.channels);
    push_le32(&mut out, info.sample_rate);
    push_le32(&mut out, info.sample_rate * (info.channels as u32) * 2);
    push_le16(&mut out, info.channels * 2);
    push_le16(&mut out, 16);
    out.push(0x64u8);
    out.push(0x61u8);
    out.push(0x74u8);
    out.push(0x61u8);
    push_le32(&mut out, 0);
    assert(out@ =~= wav_header_bytes(info));
    out
}

/// The two size fields for a finished file of `total` bytes: the RIFF size
/// (all but the first 8 bytes) and the data size (all but the header).
pub fn wav_sizes(total: u32) -> (r: (u32, u32))
    requires
        total >= WAV_HEADER_LEN,
    ensures
        r.0 == total - 8,
        r.1 == total - WAV_HEADER_LEN,
{
    (total - 8, total - WAV_HEADER_LEN)
}

} // verus!

//! The Ogg Opus container: identification and comment headers, and the
//! framing of buffered samples into fixed-duration packets with a granule
//! position counted at 48 kHz.
use vstd::prelude::*;
use crate::mixer::StreamInfo;
use std::collections::VecDeque;

verus! {

/// The identification header's magic signature, `OpusHead`.
pub open spec fn head_magic() -> Seq<u8> {
    seq![0x4fu8, 0x70, 0x75, 0x73, 0x48, 0x65, 0x61, 0x64]
}

/// The comment header's magic signature, `OpusTags`.
pub open spec fn tags_magic() -> Seq<u8> {
    seq![0x4fu8, 0x70, 0x75, 0x73, 0x54, 0x61, 0x67, 0x73]
}

/// The vendor string written into the comment header, `sndcat`.
pub open spec fn vendor() -> Seq<u8> {
    seq![0x73u8, 0x6e, 0x64, 0x63, 0x61, 0x74]
}

pub open spec fn le16(v: int) -> Seq<u8> {
    seq![(v % 256) as u8, ((v / 256) % 256) as u8]
}

pub open spec fn le32(v: int) -> Seq<u8> {
    seq![
        (v % 256) as u8,
        ((v / 256) % 256) as u8,
        ((v / 65536) % 256) as u8,
        ((v / 16777216) % 256) as u8,
    ]
}

/// The 19-byte identification header: magic, version 1, channel count,
/// pre-skip 0, input sample rate, output gain 0, channel mapping 0.
pub open spec fn head_bytes(info: StreamInfo) -> Seq<u8> {
    head_magic() + seq![1u8, info.channels as u8] + le16(0) + le32(info.sample_rate as int) + le16(0)
        + seq![0u8]
}

/// The comment header: magic, vendor length, vendor string, and a count of
/// zero user comments.
pub open spec fn tags_bytes() -> Seq<u8> {
    tags_magic() + le32(vendor().len() as int) + vendor() + le32(0)
}

/// What an identification header says: the channel count, at the 48 kHz
/// that a decoder always produces.
pub open spec fn parse_head(b: Seq<u8>) -> Result<StreamInfo, HeaderError> {
    if b.len() < 8 {
        Err(HeaderError::Truncated)
    } else if b.subrange(0, 8) != head_magic() {
        Err(HeaderError::NotOpus)
    } else if b.len() < 9 {
        Err(HeaderError::Truncated)
    } else if b[8] != 1 {
        Err(HeaderError::UnsupportedVersion(b[8]))
    } else if b.len() < 10 {
        Err(HeaderError::Truncated)
    } else {
        Ok(StreamInfo { channels: b[9] as u16, sample_rate: 48000 })
    }
}

/// Reading back a written identification header gives its channel count
/// and the decoder's fixed 48 kHz rate.
pub proof fn lemma_head_round_trip(info: StreamInfo)
    requires
        info.channels <= 2,
    ensures
        parse_head(head_bytes(info)) == Ok::<StreamInfo, HeaderError>(
            StreamInfo { channels: info.channels, sample_rate: 48000 },
        ),
{
    let b = head_bytes(info);
    assert(b.subrange(0, 8) =~= head_magic());
    assert(b[8] == 1);
    assert(b[9] == info.channels as u8);
    assert((info.channels as u8) as u16 == info.channels);
}

/// Stream parameters of an Ogg Opus stream.
pub struct Header {
    pub info: StreamInfo,
}

/// Why a header could not be written or read.
#[derive(Clone, Copy, Debug, PartialEq, Eq)]
pub enum HeaderError {
    /// The format carries at most two channels without a mapping table.
    TooManyChannels(u16),
    /// The packet ends before the field being read.
    Truncated,
    /// The packet does not start with the identification magic.
    NotOpus,
    /// The header's version is not 1.
    UnsupportedVersion(u8),
}

pub(crate) fn push_le16(out: &mut Vec<u8>, v: u16)
    ensures
        final(out)@ == old(out)@ + le16(v as int),
{
    out.push((v % 256) as u8);
    out.push((v / 256) as u8);
    assert(final(out)@ =~= old(out)@ + le16(v as int));
}

pub(crate) fn push_le32(out: &mut Vec<u8>, v: u32)
    ensures
        final(out)@ == old(out)@ + le32(v as int),
{
    out.push((v % 256) as u8);
    out.push(((v / 256) % 256) as u8);
    out.push(((v / 65536) % 256) as u8);
    out.push(((v / 16777216) % 256) as u8);
    assert(final(out)@ =~= old(out)@ + le32(v as int));
}

fn push_bytes(out: &mut Vec<u8>, b: &[u8])
    ensures
        final(out)@ == old(out)@ + b@,
{
    let mut i: usize = 0;
    while i < b.len()
        invariant
            i <= b@.len(),
            out@ == old(out)@ + b@.subrange(0, i as int),
        decreases b@.len() - i,
    {
        out.push(b[i]);
        i += 1;
        assert(out@ =~= old(out)@ + b@.subrange(0, i as int));
    }
    assert(b@.subrange(0, i as int) =~= b@);
}

fn magic_head() -> (r: Vec<u8>)
    ensures
        r@ == head_magic(),
{
    let r = vec![0x4fu8, 0x70, 0x75, 0x73, 0x48, 0x65, 0x61, 0x64];
    assert(r@ =~= head_magic());
    r
}

impl Header {
    /// The identification header (the stream's first page).
    pub fn serialize_head(&self) -> (r: Result<Vec<u8>, HeaderError>)
        ensures
            self.info.channels <= 2 ==> (r matches Ok(v) && v@ == head_bytes(self.info) && v@.len() == 19),
            self.info.channels > 2 ==> r == Err::<Vec<u8>, HeaderError>(
                HeaderError::TooManyChannels(self.info.channels),
            ),
    {
        if self.info.channels > 2 {
            return Err(HeaderError::TooManyChannels(self.info.channels));
        }
        let mut out = magic_head();
        out.push(1u8);
        out.push(self.info.channels as u8);
        out.push(0u8);
        out.push(0u8);
        push_le32(&mut out, self.info.sample_rate);
        out.push(0u8);
        out.push(0u8);
        out.push(0u8);
        assert(out@ =~= head_bytes(self.info));
        Ok(out)
    }

    /// The comment header (the stream's second page).
    pub fn serialize_tags(&self) -> (r: Result<Vec<u8>, HeaderError>)
        ensures
            r matches Ok(v) && v@ == tags_bytes() && v@.len() == 22,
    {
        let mut out = vec![0x4fu8, 0x70, 0x75, 0x73, 0x54, 0x61, 0x67, 0x73];
        let vendor = vec![0x73u8, 0x6e, 0x64, 0x63, 0x61, 0x74];
        push_le32(&mut out, vendor.len() as u32);
        push_bytes(&mut out, vendor.as_slice());
        push_le32(&mut out, 0);
        assert(out@ =~= tags_bytes());
        Ok(out)
    }

    /// Reads an identification header. A decoder always produces 48 kHz, so
    /// that is the rate reported.
    pub fn deserialize_head(head: &[u8]) -> (r: Result<Header, HeaderError>)
        ensures
            match r {
                Ok(h) => parse_head(head@) == Ok::<StreamInfo, HeaderError>(h.info),
                Err(e) => parse_head(head@) == Err::<StreamInfo, HeaderError>(e),
            },
    {
        if head.len() < 8 {
            return Err(HeaderError::Truncated);
        }
        let magic = magic_head();
        let mut i: usize = 0;
        while i < 8
            invariant
                head@.len() >= 8,
                magic@ == head_magic(),
                i <= 8,
                forall|k: int| 0 <= k < i ==> head@[k] == magic@[k],
            decreases 8 - i,
        {
            if head[i] != magic[i] {
                assert(head@.subrange(0, 8)[i as int] != head_magic()[i as int]);
                return Err(HeaderError::NotOpus);
            }
            i += 1;
        }
        assert(head@.subrange(0, 8) =~= head_magic());
        if head.len() < 9 {
            return Err(HeaderError::Truncated);
        }
        let version = head[8];
        if version != 1 {
            return Err(HeaderError::UnsupportedVersion(version));
        }
        if head.len() < 10 {
            return Err(HeaderError::Truncated);
        }
        let channels = head[9];
        Ok(Header { info: StreamInfo { channels: channels as u16, sample_rate: 48000 } })
    }
}

/// Samples (over all channels) in `millis` milliseconds of `info`.
pub open spec fn span(info: StreamInfo, millis: int) -> int {
    (info.channels as int) * (info.sample_rate as int) * millis / 1000
}

/// Granule positions added by a packet of `millis` milliseconds.
pub open spec fn granule_step(millis: int) -> int {
    48 * millis
}

/// Packet framing for the Ogg Opus writer: buffers samples and hands out
/// fixed-duration frames, keeping the granule position of the last frame.
pub struct PacketFramer<T> {
    info: StreamInfo,
    in_buf: VecDeque<T>,
    absgp: u64,
}

/// One of the packets that closing the stream flushes.
pub struct TailPacket<T> {
    pub frame: Vec<T>,
    pub granule: u64,
    /// The packet ends the logical stream.
    pub last: bool,
}

/// Closing found too few buffered samples for even one packet.
#[derive(Clone, Copy, Debug, PartialEq, Eq)]
pub struct NothingToFlush;

/// The sample count of `millis` milliseconds of `info`, before the division
/// by 1000, fits `usize`.
pub open spec fn span_fits(info: StreamInfo, millis: int) -> bool {
    (info.channels as int) * (info.sample_rate as int) * millis <= usize::MAX
}

impl<T: Copy> PacketFramer<T> {
    pub closed spec fn stream_info(&self) -> StreamInfo {
        self.info
    }

    /// The samples waiting to be framed.
    pub closed spec fn pending(&self) -> Seq<T> {
        self.in_buf@
    }

    /// The granule position after the last frame handed out.
    pub closed spec fn granule_spec(&self) -> int {
        self.absgp as int
    }

    pub fn new(info: StreamInfo) -> (r: Self)
        ensures
            r.stream_info() == info,
            r.pending().len() == 0,
            r.granule_spec() == 0,
    {
        PacketFramer { info, in_buf: VecDeque::new(), absgp: 0 }
    }

    pub fn granule(&self) -> (r: u64)
        ensures
            r == self.granule_spec(),
    {
        self.absgp
    }

    /// How many samples wait to be framed.
    pub fn pending_len(&self) -> (r: usize)
        ensures
            r == self.pending().len(),
    {
        self.in_buf.len()
    }

    /// Buffers samples for later frames.
    pub fn push(&mut self, samples: &Vec<T>)
        ensures
            final(self).stream_info() == old(self).stream_info(),
            final(self).granule_spec() == old(self).granule_spec(),
            final(self).pending() == old(self).pending() + samples@,
    {
        let ghost start = self.in_buf@;
        let mut i: usize = 0;
        while i < samples.len()
            invariant
                self.info == old(self).info,
                self.absgp == old(self).absgp,
                start == old(self).in_buf@,
                i <= samples@.len(),
                self.in_buf@ == start + samples@.subrange(0, i as int),
            decreases samples@.len() - i,
        {
            self.in_buf.push_back(samples[i]);
            i += 1;
            assert(self.in_buf@ =~= start + samples@.subrange(0, i as int));
        }
        assert(samples@.subrange(0, i as int) =~= samples@);
    }

    /// Hands out the next frame of `millis` milliseconds when at least
    /// `reserve_millis` more remain buffered after it; advances the granule
    /// position by `millis` at 48 kHz.
    pub fn next_frame(&mut self, millis: usize, reserve_millis: usize) -> (r: Option<Vec<T>>)
        requires
            span_fits(old(self).stream_info(), millis as int),
            span_fits(old(self).stream_info(), reserve_millis as int),
            span(old(self).stream_info(), millis as int) + span(old(self).stream_info(), reserve_millis as int)
                <= usize::MAX,
            old(self).granule_spec() + granule_step(millis as int) <= u64::MAX,
        ensures
            final(self).stream_info() == old(self).stream_info(),
            ({
                let n = span(old(self).stream_info(), millis as int);
                let k = span(old(self).stream_info(), reserve_millis as int);
                if old(self).pending().len() >= n + k {
                    &&& r matches Some(f)
                    &&& r->Some_0@ == old(self).pending().subrange(0, n)
                    &&& final(self).pending() == old(self).pending().subrange(n, old(self).pending().len() as int)
                    &&& final(self).granule_spec() == old(self).granule_spec() + granule_step(millis as int)
                } else {
                    r is None && final(self).pending() == old(self).pending() && final(self).granule_spec()
                        == old(self).granule_spec()
                }
            }),
    {
        let n = self.info.sample_count_millis(millis);
        let k = self.info.sample_count_millis(reserve_millis);
        if self.in_buf.len() >= n + k {
            let ghost start = self.in_buf@;
            let mut out: Vec<T> = Vec::new();
            let mut i: usize = 0;
            while i < n
                invariant
                    self.info == old(self).info,
                    self.absgp == old(self).absgp,
                    start == old(self).in_buf@,
                    n <= start.len(),
                    i <= n,
                    out@ == start.subrange(0, i as int),
                    self.in_buf@ == start.subrange(i as int, start.len() as int),
                decreases n - i,
            {
                match self.in_buf.pop_front() {
                    Some(v) => {
                        out.push(v);
                        assert(out@ =~= start.subrange(0, i + 1));
                    },
                    None => {},
                }
                assert(self.in_buf@ =~= start.subrange(i + 1, start.len() as int));
                i += 1;
            }
            self.absgp = self.absgp + 48 * (millis as u64);
            Some(out)
        } else {
            None
        }
    }

    /// Frames what is left into 20 ms packets for closing the stream; the
    /// final one is marked as the end of the stream. Fails when not even one
    /// packet is buffered.
    pub fn drain_tail(&mut self) -> (r: Result<Vec<TailPacket<T>>, NothingToFlush>)
        requires
            span_fits(old(self).stream_info(), 20),
            old(self).granule_spec() + granule_step(20) * (old(self).pending().len() + 1) <= u64::MAX,
        ensures
            final(self).stream_info() == old(self).stream_info(),
            ({
                let n = span(old(self).stream_info(), 20);
                &&& (r is Err <==> old(self).pending().len() < n || n == 0)
                &&& r is Err ==> final(self).pending() == old(self).pending()
                &&& r matches Ok(v) ==> v@.len() == old(self).pending().len() as int / n
                    && final(self).pending().len() == old(self).pending().len() as int % n
                    && (forall|i: int| 0 <= i < v@.len() ==> (#[trigger] v@[i]).frame@ == old(self).pending().subrange(i * n, i * n + n)
                        && v@[i].granule == old(self).granule_spec() + granule_step(20) * (i + 1)
                        && v@[i].last == (i + 1 == v@.len()))
            }),
    {
        let ghost g0 = self.absgp as int;
        let ghost p0 = self.in_buf@;
        let n = self.info.sample_count_millis(20);
        if n == 0 {
            return Err(NothingToFlush);
        }
        let mut packets: Vec<TailPacket<T>> = Vec::new();
        proof {
            assert(packets@.len() * n == 0) by (nonlinear_arith)
                requires
                    packets@.len() == 0,
            ;
            assert(self.in_buf@ =~= p0.subrange(0, p0.len() as int));
        }
        loop
            invariant
                self.info == old(self).info,
                span_fits(self.info, 20),
                n == span(self.info, 20),
                n >= 1,
                g0 == old(self).absgp,
                p0 == old(self).in_buf@,
                g0 + 960 * (p0.len() + 1) <= u64::MAX,
                packets@.len() * n + self.in_buf@.len() == p0.len(),
                self.in_buf@ == p0.subrange(packets@.len() * n, p0.len() as int),
                self.absgp == g0 + 960 * packets@.len(),
                forall|i: int| 0 <= i < packets@.len() ==> (#[trigger] packets@[i]).frame@ == p0.subrange(i * n, i * n + n),
                forall|i: int| 0 <= i < packets@.len() ==> (#[trigger] packets@[i]).granule == g0 + 960 * (i + 1) && i * n + n <= p0.len(),
                forall|i: int| 0 <= i < packets@.len() ==> !(#[trigger] packets@[i]).last,
            ensures
                self.info == old(self).info,
                span_fits(self.info, 20),
                n == span(self.info, 20),
                n >= 1,
                g0 == old(self).absgp,
                p0 == old(self).in_buf@,
                g0 + 960 * (p0.len() + 1) <= u64::MAX,
                packets@.len() * n + self.in_buf@.len() == p0.len(),
                self.in_buf@ == p0.subrange(packets@.len() * n, p0.len() as int),
                self.absgp == g0 + 960 * packets@.len(),
                forall|i: int| 0 <= i < packets@.len() ==> (#[trigger] packets@[i]).frame@ == p0.subrange(i * n, i * n + n),
                forall|i: int| 0 <= i < packets@.len() ==> (#[trigger] packets@[i]).granule == g0 + 960 * (i + 1) && i * n + n <= p0.len(),
                forall|i: int| 0 <= i < packets@.len() ==> !(#[trigger] packets@[i]).last,
                self.in_buf@.len() < n,
            decreases self.in_buf@.len(),
        {
            let ghost before = self.in_buf@;
            let ghost k = packets@.len();
            proof {
                let c = self.info.channels as int;
                let r = self.info.sample_rate as int;
                assert(c * r * 0 == 0) by (nonlinear_arith);
                assert(c * r * 20 / 1000 <= c * r * 20) by (nonlinear_arith)
                    requires
                        c >= 0,
                        r >= 0,
                ;
                assert(span(self.info, 0) == 0);
                assert(k <= p0.len()) by (nonlinear_arith)
                    requires
                        k * n + before.len() == p0.len(),
                        n >= 1,
                ;
                assert(self.absgp + 960 <= u64::MAX) by (nonlinear_arith)
                    requires
                        self.absgp == g0 + 960 * k,
                        g0 + 960 * (p0.len() + 1) <= u64::MAX,
                        k <= p0.len(),
                ;
            }
            match self.next_frame(20, 0) {
                Some(frame) => {
                    proof {
                        assert(span(self.info, 0) == 0);
                        assert((k + 1) * n == k * n + n) by (nonlinear_arith);
                        assert(k * n + n <= p0.len());
                        assert(self.in_buf@ =~= p0.subrange((k + 1) * n, p0.len() as int));
                        assert(frame@ =~= p0.subrange(k * n, k * n + n));
                    }
                    let ghost old_packets = packets@;
                    packets.push(TailPacket { frame, granule: self.absgp, last: false });
                    proof {
                        assert(self.absgp == g0 + 960 * (k + 1)) by (nonlinear_arith)
                            requires
                                self.absgp == g0 + 960 * k + 960,
                        ;
                        assert(forall|i: int| 0 <= i < k ==> packets@[i] == old_packets[i]);
                    }
                },
                None => {
                    proof {
                        assert(span(self.info, 0) == 0);
                    }
                    break;
                },
            }
        }
        let len = packets.len();
        if len == 0 {
            return Err(NothingToFlush);
        }
        let ghost pk = packets@;
        let mut last = packets.pop().unwrap();
        last.last = true;
        packets.push(last);
        proof {
            assert(self.in_buf@.len() < n);
            vstd::arithmetic::div_mod::lemma_fundamental_div_mod(p0.len() as int, n as int);
            let q = p0.len() as int / n as int;
            assert(len as int == q && self.in_buf@.len() as int == p0.len() as int % n as int) by {
                assert(p0.len() as int == (len as int) * (n as int) + self.in_buf@.len() as int) by (nonlinear_arith)
                    requires
                        packets@.len() * n + self.in_buf@.len() == p0.len(),
                        packets@.len() == len,
                ;
                vstd::arithmetic::div_mod::lemma_fundamental_div_mod_converse(p0.len() as int, n as int, len as int, self.in_buf@.len() as int);
            }
            assert forall|i: int| 0 <= i < packets@.len() implies (#[trigger] packets@[i]).frame@ == p0.subrange(i * n, i * n + n)
                && packets@[i].granule == g0 + granule_step(20) * (i + 1) && packets@[i].last == (i + 1 == packets@.len()) by {
                if i + 1 < packets@.len() {
                    assert(packets@[i] == pk[i]);
                }
            }
        }
        Ok(packets)
    }
}

} // verus!

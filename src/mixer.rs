//! Stream parameters, sample chunks with channel normalization, and the mixer
//! that combines several buffered sources into one stream.
//!
//! Chunks are generic over the sample type `T`. Moving, duplicating and
//! dequeuing samples is exact for every `T`; the values that summing and
//! averaging produce are stated for types whose `+`, `/` and `From<u16>`
//! follow their specifications (`ops_exact`).
use vstd::prelude::*;
use vstd::std_specs::ops::AddSpec;
use vstd::std_specs::ops::DivSpec;
use vstd::std_specs::convert::FromSpec;
use std::collections::VecDeque;
use core::ops::Add;
use core::ops::Div;

verus! {

/// Ticks per second: the mixer's unit of duration.
pub const MIXER_SAMPLE_SIZE: u32 = 100;

/// Sample rate and channel count of a stream.
#[derive(Clone, Copy, Debug, PartialEq, Eq, Structural)]
pub struct StreamInfo {
    pub sample_rate: u32,
    pub channels: u16,
}

impl StreamInfo {
    /// A usable stream: a positive rate and at least one channel.
    pub open spec fn valid(&self) -> bool {
        self.sample_rate > 0 && self.channels >= 1
    }

    /// Samples (over all channels) in one mixer tick.
    pub open spec fn batch(&self) -> int {
        (self.channels as int) * (self.sample_rate as int) / (MIXER_SAMPLE_SIZE as int)
    }

    /// Samples (over all channels) in `millis` milliseconds.
    pub fn sample_count_millis(&self, millis: usize) -> (r: usize)
        requires
            (self.channels as int) * (self.sample_rate as int) * (millis as int) <= usize::MAX,
        ensures
            r == (self.channels as int) * (self.sample_rate as int) * (millis as int) / 1000,
    {
        if millis == 0 {
            return 0;
        }
        let c = self.channels as usize;
        let s = self.sample_rate as usize;
        proof {
            lemma_mul_fits(c as int, s as int, millis as int);
        }
        c * s * millis / 1000
    }

    /// Samples (over all channels) in one mixer tick (10 ms).
    pub fn sample_count_internal_batch_size(&self) -> (r: u32)
        requires
            (self.channels as int) * (self.sample_rate as int) <= u32::MAX,
        ensures
            r == self.batch(),
    {
        (self.channels as u32) * self.sample_rate / MIXER_SAMPLE_SIZE
    }
}

proof fn lemma_mul_fits(a: int, b: int, c: int)
    requires
        a >= 0,
        b >= 0,
        c >= 0,
        a * b * c <= usize::MAX,
    ensures
        c > 0 ==> a * b <= usize::MAX,
{
    if c > 0 {
        assert(a * b <= a * b * c) by (nonlinear_arith)
            requires
                a >= 0,
                b >= 0,
                c >= 1,
        ;
    }
}

/// Every `+` and `/` between samples may be evaluated.
pub open spec fn ops_total<T: Add<Output = T> + Div<Output = T>>() -> bool {
    &&& forall|a: T, b: T| #[trigger] a.add_req(b)
    &&& forall|a: T, b: T| #[trigger] a.div_req(b)
}

/// `+`, `/` and `From<u16>` on samples follow their specifications.
pub open spec fn ops_exact<T: Add<Output = T> + Div<Output = T> + From<u16>>() -> bool {
    T::obeys_add_spec() && T::obeys_div_spec() && <T as FromSpec<u16>>::obeys_from_spec()
}

/// Channel counts between which a chunk can be remixed: equal counts, mono
/// to any count, any count to mono.
pub open spec fn remix_ok(from: u16, to: u16) -> bool {
    from == to || from == 1 || to == 1
}

/// Each sample repeated `n` times.
pub open spec fn expand<T>(s: Seq<T>, n: nat) -> Seq<T>
    decreases s.len(),
{
    if s.len() == 0 {
        Seq::empty()
    } else {
        expand(s.drop_last(), n) + Seq::new(n, |k: int| s.last())
    }
}

/// The left-to-right sum of a non-empty frame.
pub open spec fn frame_sum<T: Add<Output = T>>(f: Seq<T>) -> T
    decreases f.len(),
{
    if f.len() <= 1 {
        f[0]
    } else {
        frame_sum(f.drop_last()).add_spec(f.last())
    }
}

/// The average of a frame of `n` samples.
pub open spec fn frame_avg<T: Add<Output = T> + Div<Output = T> + From<u16>>(f: Seq<T>, n: u16) -> T {
    frame_sum(f).div_spec(T::from_spec(n))
}

/// Each frame of `n` samples replaced by its average.
pub open spec fn collapse<T: Add<Output = T> + Div<Output = T> + From<u16>>(s: Seq<T>, n: u16) -> Seq<T>
    decreases s.len(),
{
    if n == 0 || s.len() < n {
        Seq::empty()
    } else {
        collapse(s.subrange(0, s.len() - n), n).push(frame_avg(s.subrange(s.len() - n, s.len() as int), n))
    }
}

/// Interleaved samples with `from` channels remixed to `to` channels.
pub open spec fn rechannel<T: Add<Output = T> + Div<Output = T> + From<u16>>(s: Seq<T>, from: u16, to: u16) -> Seq<T> {
    if from == to {
        s
    } else if from == 1 {
        expand(s, to as nat)
    } else {
        collapse(s, from)
    }
}

pub proof fn lemma_expand_len<T>(s: Seq<T>, n: nat)
    ensures
        expand(s, n).len() == s.len() * n,
    decreases s.len(),
{
    if s.len() > 0 {
        lemma_expand_len(s.drop_last(), n);
        assert((s.len() - 1) * n + n == s.len() * n) by (nonlinear_arith);
    }
}

pub proof fn lemma_collapse_len<T: Add<Output = T> + Div<Output = T> + From<u16>>(s: Seq<T>, n: u16)
    requires
        n >= 1,
        s.len() % (n as nat) == 0,
    ensures
        collapse(s, n).len() == s.len() / (n as nat),
    decreases s.len(),
{
    if s.len() >= n {
        let t = s.subrange(0, s.len() - n);
        assert(t.len() % (n as nat) == 0 && t.len() / (n as nat) + 1 == s.len() / (n as nat)) by {
            vstd::arithmetic::div_mod::lemma_mod_sub_multiples_vanish(s.len() as int, n as int);
            vstd::arithmetic::div_mod::lemma_div_minus_one(s.len() as int, n as int);
        }
        lemma_collapse_len(t, n);
    } else {
        if s.len() > 0 {
            vstd::arithmetic::div_mod::lemma_small_mod(s.len() as nat, n as nat);
        }
    }
}

/// Length of a chunk of `len` samples remixed from `from` to `to` channels.
pub proof fn lemma_rechannel_len<T: Add<Output = T> + Div<Output = T> + From<u16>>(s: Seq<T>, from: u16, to: u16)
    requires
        from >= 1,
        to >= 1,
        remix_ok(from, to),
        s.len() % (from as nat) == 0,
    ensures
        rechannel(s, from, to).len() == s.len() / (from as nat) * (to as int),
        rechannel(s, from, to).len() % (to as nat) == 0,
{
    if from == to {
        vstd::arithmetic::div_mod::lemma_fundamental_div_mod(s.len() as int, from as int);
        assert(s.len() / (from as nat) * (to as int) == s.len()) by (nonlinear_arith)
            requires
                s.len() == (from as int) * (s.len() as int / from as int) + s.len() as int % from as int,
                s.len() as int % from as int == 0,
                from == to,
                from >= 1,
        ;
    } else if from == 1 {
        lemma_expand_len(s, to as nat);
        assert(s.len() / 1nat == s.len());
        vstd::arithmetic::div_mod::lemma_mod_multiples_basic(s.len() as int, to as int);
    } else {
        lemma_collapse_len(s, from);
    }
}

/// Whole milliseconds that `len` samples of `info` last, or `usize::MAX`
/// when `len * 1000` does not fit.
pub open spec fn duration_ms(info: StreamInfo, len: int) -> int {
    if len * 1000 <= usize::MAX {
        len * 1000 / (info.channels as int) / (info.sample_rate as int)
    } else {
        usize::MAX as int
    }
}

/// A chunk of interleaved samples with its stream parameters.
#[derive(Clone, Debug)]
pub struct Samples<T> {
    pub info: StreamInfo,
    pub samples: Vec<T>,
}

/// Why two chunks could not be combined.
#[derive(Clone, Copy, Debug, PartialEq, Eq)]
pub enum MixError {
    /// Channel counts that neither duplicate nor average into each other.
    CannotRemix { from: u16, to: u16 },
    /// The chunk's sample rate differs from the target rate.
    RateMismatch { expected: u32, actual: u32 },
    /// The chunks hold different numbers of samples.
    LengthMismatch { expected: usize, actual: usize },
}

impl<T: Copy + Add<Output = T> + Div<Output = T> + From<u16>> Samples<T> {
    /// The chunk's samples divide evenly into frames.
    pub open spec fn wf(&self) -> bool {
        self.info.channels >= 1 && self.samples@.len() % (self.info.channels as nat) == 0
    }

    pub fn new(info: StreamInfo, samples: Vec<T>) -> (r: Self)
        requires
            info.channels >= 1,
            samples@.len() % (info.channels as nat) == 0,
        ensures
            r.info == info,
            r.samples@ == samples@,
            r.wf(),
    {
        Samples { info, samples }
    }

    /// Duration in whole milliseconds.
    pub fn millis(&self) -> (r: usize)
        requires
            self.info.valid(),
        ensures
            r == duration_ms(self.info, self.samples@.len() as int),
    {
        let n = self.samples.len();
        if n > usize::MAX / 1000 {
            return usize::MAX;
        }
        n * 1000 / (self.info.channels as usize) / (self.info.sample_rate as usize)
    }

    pub fn is_empty(&self) -> (r: bool)
        ensures
            r == (self.samples@.len() == 0),
    {
        self.samples.len() == 0
    }

    /// Appends another chunk of the same stream; an empty chunk takes the
    /// other's parameters first.
    pub fn concat(&mut self, other: Self)
        requires
            old(self).samples@.len() == 0 || old(self).info == other.info,
        ensures
            final(self).info == (if old(self).samples@.len() == 0 { other.info } else { old(self).info }),
            final(self).samples@ == old(self).samples@ + other.samples@,
    {
        if self.samples.len() == 0 {
            self.info = other.info;
        }
        let mut o = other.samples;
        self.samples.append(&mut o);
    }

    /// Remixes the chunk in place to `channels` channels: mono is duplicated
    /// into every channel, several channels are averaged into mono.
    pub fn rechannels(&mut self, channels: u16) -> (r: Result<(), MixError>)
        requires
            old(self).wf(),
            channels >= 1,
            ops_total::<T>(),
        ensures
            r is Ok <==> remix_ok(old(self).info.channels, channels),
            r is Ok ==> final(self).info == (StreamInfo { channels, ..old(self).info }) && final(self).wf()
                && final(self).samples@.len() == old(self).samples@.len() / (old(self).info.channels as nat)
                * (channels as int),
            r is Ok && (ops_exact::<T>() || old(self).info.channels == 1 || old(self).info.channels
                == channels) ==> final(self).samples@ == rechannel(
                old(self).samples@,
                old(self).info.channels,
                channels,
            ),
            r matches Err(e) ==> *final(self) == *old(self) && e == (MixError::CannotRemix {
                from: old(self).info.channels,
                to: channels,
            }),
    {
        let from = self.info.channels;
        if from == channels {
            proof {
                lemma_rechannel_len(self.samples@, from, channels);
            }
            return Ok(());
        }
        if from == 1 {
            let out = expand_vec(&self.samples, channels);
            self.samples = out;
        } else if channels == 1 {
            let out = collapse_vec(&self.samples, from);
            self.samples = out;
        } else {
            return Err(MixError::CannotRemix { from, to: channels });
        }
        proof {
            lemma_rechannel_len(old(self).samples@, from, channels);
        }
        self.info.channels = channels;
        Ok(())
    }

    /// Remixes to `info`'s channel count, then requires `info`'s sample rate.
    pub fn normalize_channels(&mut self, info: StreamInfo) -> (r: Result<(), MixError>)
        requires
            old(self).wf(),
            info.channels >= 1,
            ops_total::<T>(),
        ensures
            r is Ok <==> remix_ok(old(self).info.channels, info.channels) && old(self).info.sample_rate
                == info.sample_rate,
            r is Ok ==> final(self).info == info && final(self).wf()
                && final(self).samples@.len() == old(self).samples@.len() / (old(self).info.channels as nat)
                * (info.channels as int),
            r is Ok && (ops_exact::<T>() || old(self).info.channels == 1 || old(self).info.channels
                == info.channels) ==> final(self).samples@ == rechannel(
                old(self).samples@,
                old(self).info.channels,
                info.channels,
            ),
            r matches Err(e) ==> if remix_ok(old(self).info.channels, info.channels) {
                e == (MixError::RateMismatch { expected: info.sample_rate, actual: old(self).info.sample_rate })
            } else {
                e == (MixError::CannotRemix { from: old(self).info.channels, to: info.channels })
            },
    {
        self.rechannels(info.channels)?;
        if info.sample_rate != self.info.sample_rate {
            return Err(MixError::RateMismatch { expected: info.sample_rate, actual: self.info.sample_rate });
        }
        Ok(())
    }

    /// Adds another chunk, remixed to this chunk's parameters, sample for
    /// sample; an empty chunk takes the other's samples.
    pub fn mix(&mut self, other: Samples<T>) -> (r: Result<(), MixError>)
        requires
            old(self).wf(),
            other.wf(),
            ops_total::<T>(),
        ensures
            ({
                let o = other.info.channels;
                let c = old(self).info.channels;
                let mixed_len = other.samples@.len() / (o as nat) * (c as int);
                let ok = remix_ok(o, c) && other.info.sample_rate == old(self).info.sample_rate && (old(
                    self,
                ).samples@.len() == 0 || old(self).samples@.len() == mixed_len);
                &&& r is Ok <==> ok
                &&& ok ==> final(self).info == old(self).info && final(self).samples@.len() == (if old(
                    self,
                ).samples@.len() == 0 {
                    mixed_len
                } else {
                    old(self).samples@.len() as int
                })
                &&& ok && (ops_exact::<T>() || o == 1 || o == c) ==> {
                    let m = rechannel(other.samples@, o, c);
                    if old(self).samples@.len() == 0 {
                        final(self).samples@ == m
                    } else {
                        ops_exact::<T>() ==> final(self).samples@ == Seq::new(
                            m.len(),
                            |i: int| old(self).samples@[i].add_spec(m[i]),
                        )
                    }
                }
                &&& r matches Err(e) ==> if !remix_ok(o, c) {
                    e == (MixError::CannotRemix { from: o, to: c })
                } else if other.info.sample_rate != old(self).info.sample_rate {
                    e == (MixError::RateMismatch {
                        expected: old(self).info.sample_rate,
                        actual: other.info.sample_rate,
                    })
                } else {
                    e == (MixError::LengthMismatch {
                        expected: old(self).samples@.len() as usize,
                        actual: mixed_len as usize,
                    })
                }
            }),
            r is Ok ==> final(self).wf(),
    {
        let mut other = other;
        other.normalize_channels(self.info)?;
        if self.samples.len() == 0 {
            self.samples = other.samples;
            return Ok(());
        }
        if other.samples.len() != self.samples.len() {
            return Err(
                MixError::LengthMismatch { expected: self.samples.len(), actual: other.samples.len() },
            );
        }
        let ghost m = other.samples@;
        let ghost base = self.samples@;
        let mut i: usize = 0;
        while i < other.samples.len()
            invariant
                other.samples@ == m,
                self.samples@.len() == m.len(),
                self.info == old(self).info,
                0 <= i <= m.len(),
                ops_total::<T>(),
                forall|k: int| i <= k < m.len() ==> self.samples@[k] == base[k],
                ops_exact::<T>() ==> forall|k: int| 0 <= k < i ==> self.samples@[k] == base[k].add_spec(m[k]),
            decreases m.len() - i,
        {
            let v = self.samples[i] + other.samples[i];
            self.samples.set(i, v);
            i += 1;
        }
        proof {
            if ops_exact::<T>() {
                assert(self.samples@ =~= Seq::new(m.len(), |k: int| base[k].add_spec(m[k])));
            }
        }
        Ok(())
    }
}

/// One decoded frame taken into the chunk being gathered for a decoder's
/// reader, which sends chunks of at least `min_millis`: the first result is
/// the chunk to send now, if any; the second is what is kept for later.
/// A frame with other stream parameters sends what was gathered and starts
/// anew with the frame.
pub fn absorb_frame<T: Copy + Add<Output = T> + Div<Output = T> + From<u16>>(
    acc: Option<Samples<T>>,
    frame: Samples<T>,
    min_millis: usize,
) -> (r: (Option<Samples<T>>, Option<Samples<T>>))
    requires
        frame.info.valid(),
        acc matches Some(a) ==> a.info.valid(),
    ensures
        match acc {
            Some(a) if a.info != frame.info => r.0 == Some(a) && r.1 == Some(frame),
            _ => {
                let (info, data) = match acc {
                    Some(a) => (a.info, a.samples@ + frame.samples@),
                    None => (frame.info, frame.samples@),
                };
                let ready = duration_ms(info, data.len() as int) >= min_millis;
                let kept = if ready { r.0 } else { r.1 };
                &&& kept matches Some(c) && c.info == info && c.samples@ == data
                &&& (if ready { r.1 is None } else { r.0 is None })
            },
        },
{
    let gathered = match acc {
        Some(a) => {
            if a.info != frame.info {
                return (Some(a), Some(frame));
            }
            let mut a = a;
            a.concat(frame);
            a
        },
        None => frame,
    };
    if gathered.millis() >= min_millis {
        (Some(gathered), None)
    } else {
        (None, Some(gathered))
    }
}

/// Each sample of `s` repeated `n` times.
fn expand_vec<T: Copy>(s: &Vec<T>, n: u16) -> (r: Vec<T>)
    ensures
        r@ == expand(s@, n as nat),
{
    let mut out: Vec<T> = Vec::new();
    let mut i: usize = 0;
    while i < s.len()
        invariant
            i <= s.len(),
            out@ == expand(s@.subrange(0, i as int), n as nat),
        decreases s.len() - i,
    {
        let v = s[i];
        let ghost before = out@;
        let mut k: u16 = 0;
        while k < n
            invariant
                k <= n,
                out@ == before + Seq::new(k as nat, |j: int| v),
            decreases n - k,
        {
            out.push(v);
            k += 1;
            assert(out@ =~= before + Seq::new(k as nat, |j: int| v));
        }
        proof {
            let t = s@.subrange(0, i + 1);
            assert(t.drop_last() =~= s@.subrange(0, i as int));
            assert(t.last() == v);
        }
        i += 1;
    }
    assert(s@.subrange(0, s.len() as int) =~= s@);
    out
}

/// The left-to-right sum of `s[from..to]`.
fn sum_frame<T: Copy + Add<Output = T> + Div<Output = T> + From<u16>>(s: &Vec<T>, from: usize, to: usize) -> (r: T)
    requires
        from < to <= s.len(),
        ops_total::<T>(),
    ensures
        ops_exact::<T>() ==> r == frame_sum(s@.subrange(from as int, to as int)),
{
    let mut acc = s[from];
    let mut i: usize = from + 1;
    assert(s@.subrange(from as int, from + 1).drop_last().len() == 0);
    while i < to
        invariant
            from < i <= to <= s.len(),
            ops_total::<T>(),
            ops_exact::<T>() ==> acc == frame_sum(s@.subrange(from as int, i as int)),
        decreases to - i,
    {
        acc = acc + s[i];
        proof {
            let t = s@.subrange(from as int, i + 1);
            assert(t.drop_last() =~= s@.subrange(from as int, i as int));
        }
        i += 1;
    }
    acc
}

/// Each frame of `n` samples of `s` replaced by its average.
fn collapse_vec<T: Copy + Add<Output = T> + Div<Output = T> + From<u16>>(s: &Vec<T>, n: u16) -> (r: Vec<T>)
    requires
        n >= 1,
        s@.len() % (n as nat) == 0,
        ops_total::<T>(),
    ensures
        ops_exact::<T>() ==> r@ == collapse(s@, n),
        r@.len() == s@.len() / (n as nat),
{
    let d = T::from(n);
    let nn = n as usize;
    let frames = s.len() / nn;
    let mut out: Vec<T> = Vec::new();
    let mut f: usize = 0;
    proof {
        vstd::arithmetic::div_mod::lemma_fundamental_div_mod(s.len() as int, n as int);
        assert(frames * nn == s.len()) by (nonlinear_arith)
            requires
                s.len() == (nn as int) * (s.len() as int / nn as int) + s.len() as int % nn as int,
                s.len() as int % nn as int == 0,
                frames == s.len() as int / nn as int,
        ;
        assert(s@.subrange(0, 0) =~= Seq::<T>::empty());
    }
    while f < frames
        invariant
            nn == n as usize,
            n >= 1,
            frames * nn == s.len(),
            f <= frames,
            f * nn <= s.len(),
            out@.len() == f,
            ops_total::<T>(),
            ops_exact::<T>() ==> d == T::from_spec(n),
            ops_exact::<T>() ==> out@ == collapse(s@.subrange(0, (f * nn) as int), n),
        decreases frames - f,
    {
        proof {
            assert((f + 1) * nn <= frames * nn) by (nonlinear_arith)
                requires
                    f < frames,
            ;
            assert((f + 1) * nn == f * nn + nn) by (nonlinear_arith);
        }
        let a = sum_frame(s, f * nn, f * nn + nn);
        let v = a / d;
        out.push(v);
        proof {
            let t = s@.subrange(0, (f * nn + nn) as int);
            assert(t.subrange(0, t.len() - n) =~= s@.subrange(0, (f * nn) as int));
            assert(t.subrange(t.len() - n, t.len() as int) =~= s@.subrange((f * nn) as int, (f * nn + nn) as int));
        }
        f += 1;
    }
    proof {
        assert(s@.subrange(0, (frames * nn) as int) =~= s@);
        vstd::arithmetic::div_mod::lemma_div_multiples_vanish(frames as int, n as int);
    }
    out
}

/// One source's buffer inside the mixer.
#[derive(Debug)]
pub struct MixBuffer<T> {
    pub info: StreamInfo,
    pub buf: VecDeque<T>,
    pub ended: bool,
}

impl<T: Copy> MixBuffer<T> {
    /// Appends a chunk of this source's data.
    pub fn extend(&mut self, samples: Samples<T>)
        requires
            samples.info == old(self).info,
        ensures
            final(self).info == old(self).info,
            final(self).ended == old(self).ended,
            final(self).buf@ == old(self).buf@ + samples.samples@,
    {
        let ghost start = self.buf@;
        let mut i: usize = 0;
        while i < samples.samples.len()
            invariant
                self.info == old(self).info,
                self.ended == old(self).ended,
                start == old(self).buf@,
                i <= samples.samples@.len(),
                self.buf@ == start + samples.samples@.subrange(0, i as int),
            decreases samples.samples@.len() - i,
        {
            self.buf.push_back(samples.samples[i]);
            i += 1;
            assert(self.buf@ =~= start + samples.samples@.subrange(0, i as int));
        }
        assert(samples.samples@.subrange(0, i as int) =~= samples.samples@);
    }

    /// Marks this source as ended.
    pub fn end(&mut self)
        ensures
            final(self).info == old(self).info,
            final(self).buf@ == old(self).buf@,
            final(self).ended,
    {
        self.ended = true;
    }
}

/// Parameters that the mixer accepts for a source: a usable stream whose
/// rate is a whole number of ticks and whose tick size fits `u32`.
pub open spec fn mixable(info: StreamInfo) -> bool {
    &&& info.valid()
    &&& info.sample_rate % MIXER_SAMPLE_SIZE == 0
    &&& (info.channels as int) * (info.sample_rate as int) <= u32::MAX
}

/// Every buffer holds parameters the mixer accepts and whole frames.
pub open spec fn streams_wf<T>(bs: Seq<MixBuffer<T>>) -> bool {
    forall|i: int|
        0 <= i < bs.len() ==> mixable(#[trigger] bs[i].info) && bs[i].buf@.len() % (bs[i].info.channels as nat)
            == 0
}

/// Whole ticks of data that a buffer holds.
pub open spec fn ticks<T>(b: MixBuffer<T>) -> int {
    b.buf@.len() as int / b.info.batch()
}

/// The smallest number of ticks held by any of the first `k` buffers.
pub open spec fn min_ticks_upto<T>(bs: Seq<MixBuffer<T>>, k: int) -> int
    decreases k,
{
    if k <= 1 {
        ticks(bs[0])
    } else {
        let m = min_ticks_upto(bs, k - 1);
        let t = ticks(bs[k - 1]);
        if t < m { t } else { m }
    }
}

/// Ticks that every buffer can supply now (0 without buffers).
pub open spec fn min_ticks<T>(bs: Seq<MixBuffer<T>>) -> int {
    if bs.len() == 0 { 0 } else { min_ticks_upto(bs, bs.len() as int) }
}

/// The buffer's source has ended and less than one tick is left.
pub open spec fn drained<T>(b: MixBuffer<T>) -> bool {
    b.ended && b.buf@.len() < b.info.batch()
}

/// A buffer whose data can be mixed into `out`.
pub open spec fn fits<T>(b: MixBuffer<T>, out: StreamInfo) -> bool {
    remix_ok(b.info.channels, out.channels) && b.info.sample_rate == out.sample_rate
}

/// The error that mixing a buffer's data into `out` reports.
pub open spec fn misfit<T>(b: MixBuffer<T>, out: StreamInfo) -> MixError {
    if !remix_ok(b.info.channels, out.channels) {
        MixError::CannotRemix { from: b.info.channels, to: out.channels }
    } else {
        MixError::RateMismatch { expected: out.sample_rate, actual: b.info.sample_rate }
    }
}

/// The first `d` ticks of a buffer.
pub open spec fn head<T>(b: MixBuffer<T>, d: int) -> Seq<T> {
    b.buf@.subrange(0, d * b.info.batch())
}

/// `b` is `a` after its first `d` ticks were taken.
pub open spec fn took<T>(a: MixBuffer<T>, b: MixBuffer<T>, d: int) -> bool {
    &&& b.info == a.info
    &&& b.ended == a.ended
    &&& b.buf@ == a.buf@.subrange(d * a.info.batch(), a.buf@.len() as int)
}

/// The first `d` ticks of the first `k` buffers, each remixed to `out`'s
/// channels, summed sample for sample.
pub open spec fn mix_sum<T: Add<Output = T> + Div<Output = T> + From<u16>>(
    bs: Seq<MixBuffer<T>>,
    d: int,
    out: StreamInfo,
    k: int,
) -> Seq<T>
    decreases k,
{
    let m = rechannel(head(bs[k - 1], d), bs[k - 1].info.channels, out.channels);
    if k <= 1 {
        m
    } else {
        let acc = mix_sum(bs, d, out, k - 1);
        Seq::new(m.len(), |j: int| acc[j].add_spec(m[j]))
    }
}

/// A tick of an accepted stream is a whole, positive number of frames.
pub proof fn lemma_batch(info: StreamInfo)
    requires
        mixable(info),
    ensures
        info.batch() == (info.channels as int) * (info.sample_rate as int / 100),
        info.batch() >= 1,
{
    let r = info.sample_rate as int;
    let c = info.channels as int;
    lemma_batch_frames(info);
    assert(c * (r / 100) >= 1) by (nonlinear_arith)
        requires
            c >= 1,
            r / 100 >= 1,
    ;
}

/// Taking `d` ticks that a buffer holds stays within it.
proof fn lemma_take_fits(len: int, batch: int, d: int)
    requires
        len >= 0,
        batch >= 1,
        0 <= d <= len / batch,
    ensures
        0 <= d * batch <= len,
{
    vstd::arithmetic::div_mod::lemma_fundamental_div_mod(len, batch);
    assert(d * batch <= (len / batch) * batch) by (nonlinear_arith)
        requires
            d <= len / batch,
            batch >= 1,
    ;
    assert(0 <= d * batch) by (nonlinear_arith)
        requires
            d >= 0,
            batch >= 1,
    ;
    vstd::arithmetic::div_mod::lemma_mod_pos_bound(len, batch);
}

/// The mixer: a set of source buffers combined into one stream.
pub struct Mixer<T> {
    streams: Vec<MixBuffer<T>>,
}

impl<T: Copy + Add<Output = T> + Div<Output = T> + From<u16>> Mixer<T> {
    /// The buffers, in the order they were allocated.
    pub closed spec fn buffers(&self) -> Seq<MixBuffer<T>> {
        self.streams@
    }

    /// Every buffer holds parameters the mixer accepts and whole frames.
    pub open spec fn wf(&self) -> bool {
        streams_wf(self.buffers())
    }

    pub fn new() -> (r: Self)
        ensures
            r.wf(),
            r.buffers().len() == 0,
    {
        Mixer { streams: Vec::new() }
    }

    /// The first buffer's parameters, or stereo at 44100 Hz without buffers.
    pub fn pick_output_info(&self) -> (r: StreamInfo)
        ensures
            self.buffers().len() > 0 ==> r == self.buffers()[0].info,
            self.buffers().len() == 0 ==> r == (StreamInfo { channels: 2, sample_rate: 44100 }),
    {
        if self.streams.len() > 0 {
            self.streams[0].info
        } else {
            StreamInfo { channels: 2, sample_rate: 44100 }
        }
    }

    /// Registers a new, empty source buffer; returns its handle.
    pub fn allocate_input_buffer(&mut self, info: StreamInfo) -> (r: usize)
        requires
            old(self).wf(),
            mixable(info),
        ensures
            final(self).wf(),
            r == old(self).buffers().len(),
            final(self).buffers().len() == old(self).buffers().len() + 1,
            forall|i: int| 0 <= i < r ==> final(self).buffers()[i] == old(self).buffers()[i],
            final(self).buffers()[r as int].info == info,
            final(self).buffers()[r as int].buf@.len() == 0,
            !final(self).buffers()[r as int].ended,
    {
        let r = self.streams.len();
        self.streams.push(MixBuffer { info, buf: VecDeque::new(), ended: false });
        proof {
            assert forall|k: int| 0 <= k < self.buffers().len() implies mixable(#[trigger] self.buffers()[k].info)
                && self.buffers()[k].buf@.len() % (self.buffers()[k].info.channels as nat) == 0 by {
                if k < r {
                    assert(old(self).buffers()[k] == self.buffers()[k]);
                } else {
                    vstd::arithmetic::div_mod::lemma_small_mod(0, info.channels as nat);
                }
            }
        }
        r
    }

    /// Appends a chunk of the source's data to its buffer.
    pub fn extend(&mut self, handle: usize, samples: Samples<T>)
        requires
            old(self).wf(),
            handle < old(self).buffers().len(),
            samples.wf(),
            samples.info == old(self).buffers()[handle as int].info,
        ensures
            final(self).wf(),
            final(self).buffers().len() == old(self).buffers().len(),
            forall|i: int|
                0 <= i < old(self).buffers().len() && i != handle ==> final(self).buffers()[i] == old(
                    self,
                ).buffers()[i],
            final(self).buffers()[handle as int].info == old(self).buffers()[handle as int].info,
            final(self).buffers()[handle as int].ended == old(self).buffers()[handle as int].ended,
            final(self).buffers()[handle as int].buf@ == old(self).buffers()[handle as int].buf@
                + samples.samples@,
    {
        let ghost start = self.streams[handle as int].buf@;
        let ghost c = self.streams[handle as int].info.channels as nat;
        let ghost m = samples.samples@;
        self.streams[handle].extend(samples);
        proof {
            vstd::arithmetic::div_mod::lemma_mod_adds(start.len() as int, m.len() as int, c as int);
            assert forall|k: int| 0 <= k < self.buffers().len() implies mixable(#[trigger] self.buffers()[k].info)
                && self.buffers()[k].buf@.len() % (self.buffers()[k].info.channels as nat) == 0 by {
                if k != handle {
                    assert(old(self).buffers()[k] == self.buffers()[k]);
                }
            }
        }
    }

    /// Marks the source of a buffer as ended.
    pub fn end(&mut self, handle: usize)
        requires
            handle < old(self).buffers().len(),
        ensures
            final(self).buffers().len() == old(self).buffers().len(),
            forall|i: int|
                0 <= i < old(self).buffers().len() && i != handle ==> final(self).buffers()[i] == old(
                    self,
                ).buffers()[i],
            final(self).buffers()[handle as int].info == old(self).buffers()[handle as int].info,
            final(self).buffers()[handle as int].buf@ == old(self).buffers()[handle as int].buf@,
            final(self).buffers()[handle as int].ended,
            old(self).wf() ==> final(self).wf(),
    {
        self.streams[handle].end();
    }

    /// Removes and returns the first `count` samples of buffer `h`.
    fn take_front(&mut self, h: usize, count: usize) -> (r: Vec<T>)
        requires
            h < old(self).streams@.len(),
            count <= old(self).streams@[h as int].buf@.len(),
        ensures
            final(self).streams@.len() == old(self).streams@.len(),
            forall|k: int|
                0 <= k < old(self).streams@.len() && k != h ==> final(self).streams@[k] == old(
                    self,
                ).streams@[k],
            final(self).streams@[h as int].info == old(self).streams@[h as int].info,
            final(self).streams@[h as int].ended == old(self).streams@[h as int].ended,
            r@ == old(self).streams@[h as int].buf@.subrange(0, count as int),
            final(self).streams@[h as int].buf@ == old(self).streams@[h as int].buf@.subrange(
                count as int,
                old(self).streams@[h as int].buf@.len() as int,
            ),
    {
        let ghost start = self.streams@[h as int].buf@;
        let mut out: Vec<T> = Vec::new();
        let mut i: usize = 0;
        while i < count
            invariant
                h < self.streams@.len(),
                self.streams@.len() == old(self).streams@.len(),
                forall|k: int| 0 <= k < self.streams@.len() && k != h ==> self.streams@[k] == old(
                    self,
                ).streams@[k],
                self.streams@[h as int].info == old(self).streams@[h as int].info,
                self.streams@[h as int].ended == old(self).streams@[h as int].ended,
                start == old(self).streams@[h as int].buf@,
                count <= start.len(),
                i <= count,
                out@ == start.subrange(0, i as int),
                self.streams@[h as int].buf@ == start.subrange(i as int, start.len() as int),
            decreases count - i,
        {
            match self.streams[h].buf.pop_front() {
                Some(v) => {
                    out.push(v);
                    assert(out@ =~= start.subrange(0, i + 1));
                },
                None => {},
            }
            assert(self.streams@[h as int].buf@ =~= start.subrange(i + 1, start.len() as int));
            i += 1;
        }
        out
    }

    /// Mixes the next stretch of every buffer into one chunk for `output_info`.
    ///
    /// Ends (`None`) once some buffer's source has ended and less than one
    /// tick of it is left. Otherwise takes from every buffer, in order, the
    /// number of ticks that all of them hold, remixes each to the output's
    /// channels and sums them sample for sample. A buffer whose data cannot
    /// be remixed, or whose rate differs from the output's, stops the mix
    /// with an error after its data was taken.
    pub fn mix(&mut self, output_info: StreamInfo) -> (r: Result<Option<Samples<T>>, MixError>)
        requires
            old(self).wf(),
            output_info.channels >= 1,
            ops_total::<T>(),
        ensures
            final(self).wf(),
            final(self).buffers().len() == old(self).buffers().len(),
            ({
                let bs = old(self).buffers();
                let fin = final(self).buffers();
                let d = min_ticks(bs);
                if exists|i: int| 0 <= i < bs.len() && drained(#[trigger] bs[i]) {
                    r matches Ok(None) && fin == bs
                } else if d == 0 {
                    r matches Ok(Some(c)) && c.info == output_info && c.samples@.len() == 0 && fin == bs
                } else if forall|i: int| 0 <= i < bs.len() ==> fits(#[trigger] bs[i], output_info) {
                    &&& r matches Ok(Some(c))
                    &&& r->Ok_0->Some_0.info == output_info
                    &&& r->Ok_0->Some_0.wf()
                    &&& r->Ok_0->Some_0.samples@.len() == d * output_info.batch()
                    &&& forall|i: int| 0 <= i < bs.len() ==> took(bs[i], #[trigger] fin[i], d)
                    &&& ops_exact::<T>() ==> r->Ok_0->Some_0.samples@ == mix_sum(
                        bs,
                        d,
                        output_info,
                        bs.len() as int,
                    )
                } else {
                    &&& r is Err
                    &&& exists|k: int|
                        0 <= k < bs.len() && !fits(bs[k], output_info) && (forall|i: int|
                            0 <= i < k ==> fits(#[trigger] bs[i], output_info)) && r->Err_0 == misfit(
                            bs[k],
                            output_info,
                        ) && (forall|i: int| 0 <= i <= k ==> took(bs[i], #[trigger] fin[i], d)) && (
                        forall|i: int| k < i < bs.len() ==> #[trigger] fin[i] == bs[i])
                }
            }),
    {
        let ghost bs = self.streams@;
        assert(streams_wf(bs));
        let n = self.streams.len();
        let mut d: usize = 0;
        if n > 0 {
            let b0 = self.streams[0].info.sample_count_internal_batch_size();
            proof {
                lemma_batch(bs[0].info);
            }
            d = self.streams[0].buf.len() / (b0 as usize);
            let mut i: usize = 1;
            while i < n
                invariant
                    self.streams@ == bs,
                    n == bs.len(),
                    streams_wf(bs),
                    1 <= i <= n,
                    d == min_ticks_upto(bs, i as int),
                    forall|k: int| 0 <= k < i ==> d <= ticks(#[trigger] bs[k]),
                decreases n - i,
            {
                assert(mixable(bs[i as int].info));
                let b = self.streams[i].info.sample_count_internal_batch_size();
                proof {
                    lemma_batch(bs[i as int].info);
                }
                let t = self.streams[i].buf.len() / (b as usize);
                if t < d {
                    d = t;
                }
                i += 1;
            }
        }
        let mut j: usize = 0;
        while j < n
            invariant
                self.streams@ == bs,
                n == bs.len(),
                streams_wf(bs),
                j <= n,
                forall|k: int| 0 <= k < j ==> !drained(#[trigger] bs[k]),
            decreases n - j,
        {
            assert(mixable(bs[j as int].info));
            let b = self.streams[j].info.sample_count_internal_batch_size();
            if self.streams[j].ended && self.streams[j].buf.len() < b as usize {
                assert(drained(bs[j as int]));
                return Ok(None);
            }
            j += 1;
        }
        proof {
            vstd::arithmetic::div_mod::lemma_small_mod(0, output_info.channels as nat);
        }
        let mut mixed = Samples::new(output_info, Vec::new());
        if d == 0 {
            return Ok(Some(mixed));
        }
        let mut i: usize = 0;
        while i < n
            invariant
                n == bs.len(),
                n > 0,
                bs == old(self).buffers(),
                forall|k: int| 0 <= k < bs.len() ==> !drained(#[trigger] bs[k]),
                self.streams@.len() == n,
                streams_wf(self.streams@),
                streams_wf(bs),
                d == min_ticks(bs),
                d >= 1,
                forall|k: int| 0 <= k < n ==> d <= ticks(#[trigger] bs[k]),
                i <= n,
                ops_total::<T>(),
                output_info.channels >= 1,
                forall|k: int| 0 <= k < i ==> took(bs[k], #[trigger] self.streams@[k], d as int),
                forall|k: int| i <= k < n ==> #[trigger] self.streams@[k] == bs[k],
                forall|k: int| 0 <= k < i ==> fits(#[trigger] bs[k], output_info),
                mixed.info == output_info,
                mixed.wf(),
                i == 0 ==> mixed.samples@.len() == 0,
                i > 0 ==> output_info.sample_rate == bs[0].info.sample_rate,
                i > 0 ==> mixed.samples@.len() == d * output_info.batch(),
                i > 0 && ops_exact::<T>() ==> mixed.samples@ == mix_sum(bs, d as int, output_info, i as int),
            decreases n - i,
        {
            assert(mixable(bs[i as int].info));
            assert(d <= ticks(bs[i as int]));
            let info = self.streams[i].info;
            let b = info.sample_count_internal_batch_size();
            let ulen = self.streams[i].buf.len();
            let ghost len = bs[i as int].buf@.len() as int;
            let ghost c = info.channels as int;
            let ghost f = info.sample_rate as int / 100;
            proof {
                lemma_batch(info);
                lemma_take_fits(len, b as int, d as int);
            }
            let count = d * (b as usize);
            let ghost prev = self.streams@;
            let chunk = self.take_front(i, count);
            proof {
                assert(count as int == c * (d * f)) by (nonlinear_arith)
                    requires
                        count as int == d * (b as int),
                        b as int == c * f,
                ;
                vstd::arithmetic::div_mod::lemma_mod_multiples_basic(d * f, c);
                assert((c * (d * f)) % c == 0) by (nonlinear_arith)
                    requires
                        (d * f * c) % c == 0,
                ;
                vstd::arithmetic::div_mod::lemma_div_multiples_vanish(d * f, c);
                assert((c * (d * f)) / c == d * f) by (nonlinear_arith)
                    requires
                        (d * f * c) / c == d * f,
                ;
                vstd::arithmetic::div_mod::lemma_sub_mod_noop(len, count as int, c);
                vstd::arithmetic::div_mod::lemma_mod_pos_bound(len, c);
                assert(prev[i as int] == bs[i as int]);
                assert(len % c == 0);
                assert((count as int) % c == 0);
                assert(((len % c) - ((count as int) % c)) % c == (len - count as int) % c);
                assert((0int - 0int) % c == 0) by {
                    vstd::arithmetic::div_mod::lemma_small_mod(0, c as nat);
                }
                assert((len - count as int) % c == 0);
                assert(self.streams@[i as int].buf@.len() == len - count as int);
                assert(self.streams@[i as int].buf@.len() % (c as nat) == 0);
                assert forall|k: int| 0 <= k < n implies mixable(#[trigger] self.streams@[k].info)
                    && self.streams@[k].buf@.len() % (self.streams@[k].info.channels as nat) == 0 by {
                    if k != i {
                        assert(self.streams@[k] == prev[k]);
                    }
                }
                assert(took(bs[i as int], self.streams@[i as int], d as int));
                if fits(bs[i as int], output_info) {
                    let oc = output_info.channels as int;
                    lemma_batch_frames(output_info);
                    assert(d * f * oc == d * (oc * f)) by (nonlinear_arith);
                    assert(d * f >= 1) by (nonlinear_arith)
                        requires
                            d >= 1,
                            f >= 1,
                    ;
                    assert(d * f * oc >= 1) by (nonlinear_arith)
                        requires
                            d * f >= 1,
                            oc >= 1,
                    ;
                }
            }
            let samples = Samples::new(info, chunk);
            let ghost before = mixed.samples@;
            match mixed.mix(samples) {
                Ok(()) => {},
                Err(e) => {
                    proof {
                        assert(!fits(bs[i as int], output_info));
                        assert(e == misfit(bs[i as int], output_info));
                        assert(forall|k: int| 0 <= k <= i ==> took(bs[k], #[trigger] self.buffers()[k], d as int));
                        assert(self.buffers() == self.streams@);
                        assert(self.buffers().len() == old(self).buffers().len());
                        assert(forall|k: int| 0 <= k < bs.len() ==> !drained(#[trigger] bs[k]));
                        assert(!(forall|k: int| 0 <= k < bs.len() ==> fits(#[trigger] bs[k], output_info)));
                        assert(forall|k: int| i < k < bs.len() ==> #[trigger] self.buffers()[k] == bs[k]);
                    }
                    return Err(e);
                },
            }
            proof {
                if ops_exact::<T>() && i > 0 {
                    assert(mixed.samples@ =~= mix_sum(bs, d as int, output_info, i + 1));
                }
            }
            i += 1;
        }
        proof {
            assert(forall|k: int| 0 <= k < n ==> took(bs[k], #[trigger] self.buffers()[k], d as int));
        }
        Ok(Some(mixed))
    }

    /// Whether a buffer holds more samples than twice its sample rate, so
    /// that its feeder should wait before adding more.
    pub fn is_backlogged(&self, handle: usize) -> (r: bool)
        requires
            handle < self.buffers().len(),
        ensures
            r == (self.buffers()[handle as int].buf@.len() > 2 * (self.buffers()[handle as int].info.sample_rate as int)),
    {
        let b = &self.streams[handle];
        (b.buf.len() as u64) > (b.info.sample_rate as u64) * 2
    }
}

/// With a rate that is a whole number of ticks, a tick is a whole number of
/// frames.
pub proof fn lemma_batch_frames(info: StreamInfo)
    requires
        info.sample_rate % MIXER_SAMPLE_SIZE == 0,
    ensures
        info.batch() == (info.channels as int) * (info.sample_rate as int / 100),
{
    let r = info.sample_rate as int;
    let c = info.channels as int;
    assert(r == 100 * (r / 100));
    assert(c * r == 100 * (c * (r / 100))) by (nonlinear_arith)
        requires
            r == 100 * (r / 100),
    ;
    vstd::arithmetic::div_mod::lemma_div_multiples_vanish(c * (r / 100), 100);
}

/// Duplicating mono into stereo and averaging back gives the original
/// samples, for sample types whose average of two equal values is that value.
pub proof fn lemma_mono_stereo_round_trip<T: Add<Output = T> + Div<Output = T> + From<u16>>(s: Seq<T>)
    requires
        forall|x: T| (#[trigger] x.add_spec(x)).div_spec(T::from_spec(2u16)) == x,
    ensures
        rechannel(rechannel(s, 1, 2), 2, 1) == s,
    decreases s.len(),
{
    let e = expand(s, 2);
    if s.len() > 0 {
        let t = s.drop_last();
        let x = s.last();
        lemma_mono_stereo_round_trip(t);
        lemma_expand_len(t, 2);
        lemma_expand_len(s, 2);
        let et = expand(t, 2);
        assert(e == et + Seq::new(2, |k: int| x));
        assert(e.subrange(0, e.len() - 2) =~= et);
        assert(e.subrange(e.len() - 2, e.len() as int) =~= seq![x, x]);
        let p = seq![x, x];
        assert(p.drop_last() =~= seq![x]);
        assert(frame_sum(seq![x]) == x);
        assert(p.last() == x);
        assert(frame_sum(p) == x.add_spec(x));
        assert(frame_avg(p, 2) == x);
        assert(collapse(e, 2) == collapse(et, 2).push(x));
        assert(collapse(et, 2) == t);
        assert(t.push(x) =~= s);
    } else {
        assert(e =~= Seq::<T>::empty());
        assert(collapse(e, 2) =~= Seq::<T>::empty());
        assert(s =~= Seq::<T>::empty());
    }
}

/// Averaging stereo into mono and duplicating it back keeps the chunk's
/// length and whole frames.
pub proof fn lemma_stereo_mono_stereo_len<T: Add<Output = T> + Div<Output = T> + From<u16>>(s: Seq<T>)
    requires
        s.len() % 2 == 0,
    ensures
        rechannel(rechannel(s, 2, 1), 1, 2).len() == s.len(),
        rechannel(rechannel(s, 2, 1), 1, 2).len() % 2 == 0,
{
    lemma_rechannel_len(s, 2, 1);
    let m = rechannel(s, 2, 1);
    vstd::arithmetic::div_mod::lemma_small_mod(0, 1);
    assert(m.len() % 1 == 0);
    lemma_rechannel_len(m, 1, 2);
    assert(m.len() / 1nat == m.len());
    vstd::arithmetic::div_mod::lemma_fundamental_div_mod(s.len() as int, 2);
}

/// Mixing two sources that hold the same run of silence, at the output's
/// own parameters and a whole number of ticks long, gives that run of
/// silence, as long as either source.
pub proof fn lemma_silent_mix<T: Add<Output = T> + Div<Output = T> + From<u16>>(
    bs: Seq<MixBuffer<T>>,
    out: StreamInfo,
    z: T,
)
    requires
        streams_wf(bs),
        bs.len() == 2,
        bs[0].info == out,
        bs[1].info == out,
        bs[0].buf@ == bs[1].buf@,
        forall|i: int| 0 <= i < bs[0].buf@.len() ==> #[trigger] bs[0].buf@[i] == z,
        bs[0].buf@.len() as int % out.batch() == 0,
        z.add_spec(z) == z,
    ensures
        min_ticks(bs) * out.batch() == bs[0].buf@.len(),
        mix_sum(bs, min_ticks(bs), out, 2) == Seq::new(bs[0].buf@.len(), |i: int| z),
{
    assert(mixable(bs[0].info));
    lemma_batch(out);
    let len = bs[0].buf@.len() as int;
    let b = out.batch();
    let d = min_ticks(bs);
    assert(min_ticks_upto(bs, 1) == ticks(bs[0]));
    assert(ticks(bs[1]) == ticks(bs[0]));
    assert(d == len / b);
    vstd::arithmetic::div_mod::lemma_fundamental_div_mod(len, b);
    assert(d * b == len) by (nonlinear_arith)
        requires
            len == b * (len / b) + len % b,
            len % b == 0,
            d == len / b,
    ;
    assert(head(bs[0], d) =~= bs[0].buf@);
    assert(head(bs[1], d) =~= bs[0].buf@);
    let m = rechannel(head(bs[1], d), out.channels, out.channels);
    let acc = mix_sum(bs, d, out, 1);
    assert(acc == bs[0].buf@);
    assert(mix_sum(bs, d, out, 2) =~= Seq::new(bs[0].buf@.len(), |i: int| z));
}

} // verus!

//! The bookkeeping around rate conversion: how many frames a converted chunk
//! holds, and how interleaved chunks split into channels and join again. The
//! filtering itself is done per channel by the DSP state that the caller owns.
use vstd::prelude::*;

verus! {

/// Frames produced from `n` input frames: `n * to / from`, rounded to the
/// nearest integer, halves up.
pub open spec fn resampled_frames(n: int, from: int, to: int) -> int {
    (2 * n * to + from) / (2 * from)
}

/// The number of output frames for `in_frames` frames converted from rate
/// `from` to rate `to`.
pub fn output_frames(in_frames: usize, from: u32, to: u32) -> (r: usize)
    requires
        from > 0,
        resampled_frames(in_frames as int, from as int, to as int) <= usize::MAX,
    ensures
        r == resampled_frames(in_frames as int, from as int, to as int),
{
    let n = in_frames as u128;
    proof {
        assert(2 * (in_frames as int) * (to as int) + (from as int) <= 2 * 0xffff_ffff_ffff_ffffu128 * 0xffff_ffffu128 + 0xffff_ffffu128) by (nonlinear_arith)
            requires
                in_frames <= 0xffff_ffff_ffff_ffffu64,
                to <= 0xffff_ffffu32,
                from <= 0xffff_ffffu32,
        ;
    }
    let r = (2 * n * (to as u128) + (from as u128)) / (2 * (from as u128));
    r as usize
}

/// The default quality, or the one asked for, at most 10.
pub fn clamp_quality(quality: Option<usize>, default: usize) -> (r: usize)
    ensures
        r == (match quality {
            Some(q) => if q < 10 { q } else { 10 },
            None => if default < 10 { default } else { 10 },
        }),
{
    let q = match quality {
        Some(q) => q,
        None => default,
    };
    if q < 10 { q } else { 10 }
}

/// What a stage that converts chunks to a fixed target rate does with the
/// next chunk, given the input rate its converter was made for, if any.
#[derive(Clone, Copy, Debug, PartialEq, Eq)]
pub enum RateStep {
    /// The chunk already has the target rate.
    Unchanged,
    /// No converter yet: make one from the chunk's rate.
    Create,
    /// The existing converter fits the chunk's rate.
    Reuse,
    /// The existing converter was made for another input rate; it is never
    /// rebound.
    Mismatch,
}

pub open spec fn rate_step_spec(current: Option<u32>, chunk_rate: u32, target_rate: u32) -> RateStep {
    if chunk_rate == target_rate {
        RateStep::Unchanged
    } else {
        match current {
            None => RateStep::Create,
            Some(c) => if c == chunk_rate {
                RateStep::Reuse
            } else {
                RateStep::Mismatch
            },
        }
    }
}

/// Decides how the next chunk is converted.
pub fn rate_step(current: Option<u32>, chunk_rate: u32, target_rate: u32) -> (r: RateStep)
    ensures
        r == rate_step_spec(current, chunk_rate, target_rate),
{
    if chunk_rate == target_rate {
        RateStep::Unchanged
    } else {
        match current {
            None => RateStep::Create,
            Some(c) => if c == chunk_rate {
                RateStep::Reuse
            } else {
                RateStep::Mismatch
            },
        }
    }
}

/// Channel `c` of interleaved samples with `channels` channels.
pub fn channel_of<T: Copy>(samples: &Vec<T>, channels: usize, c: usize) -> (r: Vec<T>)
    requires
        c < channels,
        samples@.len() % (channels as nat) == 0,
    ensures
        r@.len() == samples@.len() / (channels as nat),
        forall|i: int| 0 <= i < r@.len() ==> r@[i] == samples@[i * channels + c],
{
    let len = samples.len();
    let frames = len / channels;
    let mut out: Vec<T> = Vec::new();
    let mut i: usize = 0;
    proof {
        vstd::arithmetic::div_mod::lemma_fundamental_div_mod(samples@.len() as int, channels as int);
        assert(frames * channels == samples@.len()) by (nonlinear_arith)
            requires
                samples@.len() as int == (channels as int) * (samples@.len() as int / channels as int)
                    + samples@.len() as int % channels as int,
                samples@.len() as int % channels as int == 0,
                frames == samples@.len() as int / channels as int,
        ;
    }
    while i < frames
        invariant
            c < channels,
            frames == samples@.len() / (channels as nat),
            frames * channels == samples@.len(),
            len == samples@.len(),
            i <= frames,
            out@.len() == i,
            forall|k: int| 0 <= k < i ==> out@[k] == samples@[k * channels + c],
        decreases frames - i,
    {
        proof {
            assert(i * channels + c < samples@.len()) by (nonlinear_arith)
                requires
                    i < frames,
                    c < channels,
                    frames * channels == samples@.len(),
            ;
        }
        out.push(samples[i * channels + c]);
        i += 1;
    }
    out
}

/// Interleaves equally long channels into one chunk.
pub fn interleave<T: Copy>(planes: &Vec<Vec<T>>, frames: usize) -> (r: Vec<T>)
    requires
        planes@.len() >= 1,
        forall|c: int| 0 <= c < planes@.len() ==> (#[trigger] planes@[c])@.len() == frames,
        frames * planes@.len() <= usize::MAX,
    ensures
        r@.len() == frames * planes@.len(),
        forall|i: int, c: int|
            0 <= i < frames && 0 <= c < planes@.len() ==> r@[i * planes@.len() + c] == #[trigger] planes@[c]@[i],
{
    let ch = planes.len();
    let mut out: Vec<T> = Vec::new();
    let mut i: usize = 0;
    while i < frames
        invariant
            ch == planes@.len(),
            ch >= 1,
            forall|c: int| 0 <= c < ch ==> (#[trigger] planes@[c])@.len() == frames,
            i <= frames,
            out@.len() == i * ch,
            forall|k: int, c: int| 0 <= k < i && 0 <= c < ch ==> out@[k * ch + c] == #[trigger] planes@[c]@[k],
        decreases frames - i,
    {
        let ghost before = out@;
        let mut c: usize = 0;
        while c < ch
            invariant
                ch == planes@.len(),
                forall|c: int| 0 <= c < ch ==> (#[trigger] planes@[c])@.len() == frames,
                i < frames,
                c <= ch,
                out@.len() == i * ch + c,
                out@.subrange(0, (i * ch) as int) == before,
                before.len() == i * ch,
                forall|k: int| 0 <= k < c ==> out@[i * ch + k] == (#[trigger] planes@[k])@[i as int],
            decreases ch - c,
        {
            out.push(planes[c][i]);
            proof {
                assert(out@.subrange(0, (i * ch) as int) =~= before);
            }
            c += 1;
        }
        proof {
            assert((i + 1) * ch == i * ch + ch) by (nonlinear_arith);
            assert forall|k: int, c: int| 0 <= k < i + 1 && 0 <= c < ch implies out@[k * ch + c] == #[trigger] planes@[c]@[k] by {
                if k < i {
                    assert(k * ch + c < i * ch) by (nonlinear_arith)
                        requires
                            k < i,
                            c < ch,
                    ;
                    assert(out@[k * ch + c] == before[k * ch + c]);
                }
            }
        }
        i += 1;
    }
    out
}

/// Converting a length from rate `r` to rate `s` and back loses at most one
/// frame, when the first step does not shrink the stream or divides evenly.
pub proof fn lemma_round_trip_len(n: int, r: int, s: int)
    requires
        n >= 0,
        r > 0,
        s > 0,
        r <= s || (n * s) % r == 0,
    ensures
        ({
            let back = resampled_frames(resampled_frames(n, r, s), s, r);
            n - 1 <= back <= n + 1
        }),
{
    let m = resampled_frames(n, r, s);
    // m = round(n * s / r): |m * r - n * s| <= r / 2.
    vstd::arithmetic::div_mod::lemma_fundamental_div_mod(2 * n * s + r, 2 * r);
    vstd::arithmetic::div_mod::lemma_mod_pos_bound(2 * n * s + r, 2 * r);
    assert(2 * r * m <= 2 * n * s + r && 2 * n * s + r < 2 * r * m + 2 * r) by (nonlinear_arith)
        requires
            2 * n * s + r == (2 * r) * m + (2 * n * s + r) % (2 * r),
            0 <= (2 * n * s + r) % (2 * r) < 2 * r,
    ;
    let b = resampled_frames(m, s, r);
    vstd::arithmetic::div_mod::lemma_fundamental_div_mod(2 * m * r + s, 2 * s);
    vstd::arithmetic::div_mod::lemma_mod_pos_bound(2 * m * r + s, 2 * s);
    assert(2 * s * b <= 2 * m * r + s && 2 * m * r + s < 2 * s * b + 2 * s) by (nonlinear_arith)
        requires
            2 * m * r + s == (2 * s) * b + (2 * m * r + s) % (2 * s),
            0 <= (2 * m * r + s) % (2 * s) < 2 * s,
    ;
    if r <= s {
        assert(n - 1 <= b <= n + 1) by (nonlinear_arith)
            requires
                2 * r * m <= 2 * n * s + r,
                2 * n * s + r < 2 * r * m + 2 * r,
                2 * s * b <= 2 * m * r + s,
                2 * m * r + s < 2 * s * b + 2 * s,
                0 < r <= s,
        ;
    } else {
        vstd::arithmetic::div_mod::lemma_fundamental_div_mod(n * s, r);
        let q = n * s / r;
        assert(m == q) by (nonlinear_arith)
            requires
                n * s == r * q,
                2 * r * m <= 2 * n * s + r,
                2 * n * s + r < 2 * r * m + 2 * r,
                r > 0,
        ;
        assert(b == n) by (nonlinear_arith)
            requires
                n * s == r * m,
                2 * s * b <= 2 * m * r + s,
                2 * m * r + s < 2 * s * b + 2 * s,
                s > 0,
        ;
    }
}

} // verus!

//! Channel/rate normalization: deterministic, stateless conversion of one
//! raw capture frame into mono samples at the inference engine's rate.
//!
//! Samples are signed fixed-point linear PCM values; the capture layer maps
//! the device's native format onto [`Sample`] before anything here runs.

use vstd::prelude::*;

verus! {

/// A linear PCM sample in signed fixed-point form.
pub type Sample = i32;

/// The sample rate the inference engine expects, in Hz.
pub const TARGET_SAMPLE_RATE: u32 = 16000;

/// Truncating integer division (round toward zero), the behaviour of `/` on
/// Rust's signed integers. Spec-mode `/` is Euclidean, so contracts about
/// signed means are stated through this instead.
pub open spec fn tdiv(a: int, b: int) -> int {
    if a >= 0 {
        a / b
    } else {
        -((-a) / b)
    }
}

/// Sum of the `count` samples starting at index `start`.
pub open spec fn frame_sum(samples: Seq<Sample>, start: int, count: int) -> int
    decreases count,
{
    if count <= 0 {
        0
    } else {
        frame_sum(samples, start, count - 1) + samples[start + count - 1]
    }
}

/// The arithmetic mean (rounded toward zero) of frame number `frame`, where
/// a frame is `channels` consecutive interleaved samples.
pub open spec fn frame_mean(samples: Seq<Sample>, channels: int, frame: int) -> int {
    tdiv(frame_sum(samples, frame * channels, channels), channels)
}

proof fn lemma_frame_sum_bounds(samples: Seq<Sample>, start: int, count: int)
    requires
        0 <= start,
        0 <= count,
        start + count <= samples.len(),
    ensures
        count * (i32::MIN as int) <= frame_sum(samples, start, count) <= count * (i32::MAX as int),
    decreases count,
{
    if count > 0 {
        lemma_frame_sum_bounds(samples, start, count - 1);
        assert((count - 1) * (i32::MIN as int) + i32::MIN == count * (i32::MIN as int))
            by (nonlinear_arith);
        assert((count - 1) * (i32::MAX as int) + i32::MAX == count * (i32::MAX as int))
            by (nonlinear_arith);
    }
}

/// Downmixes interleaved multi-channel samples to mono: each output sample
/// is the arithmetic mean of the corresponding frame's channel values, and
/// mono input passes through unchanged. An incomplete trailing frame (when
/// the sample count is not a multiple of the channel count) is dropped.
pub fn stereo_to_mono(samples: &Vec<Sample>, channels: usize) -> (mono: Vec<Sample>)
    requires
        1 <= channels < 0x8000_0000,
    ensures
        mono@.len() == samples@.len() as int / channels as int,
        forall|f: int|
            0 <= f < mono@.len() ==> mono@[f] == frame_mean(samples@, channels as int, f),
        channels == 1 ==> mono@ == samples@,
{
    let ghost ch: int = channels as int;
    let frames: usize = samples.len() / channels;
    proof {
        assert(frames * ch <= samples@.len() && samples@.len() < (frames + 1) * ch) by {
            vstd::arithmetic::div_mod::lemma_fundamental_div_mod(samples@.len() as int, ch);
            vstd::arithmetic::mul::lemma_mul_is_commutative(frames as int, ch);
            vstd::arithmetic::mul::lemma_mul_is_distributive_add_other_way(ch, frames as int, 1);
        }
    }
    let mut mono: Vec<Sample> = Vec::new();
    let mut f: usize = 0;
    while f < frames
        invariant
            f <= frames,
            ch == channels as int,
            1 <= channels < 0x8000_0000,
            frames == samples@.len() as int / channels as int,
            frames * channels as int <= samples@.len(),
            samples@.len() <= usize::MAX,
            mono@.len() == f,
            forall|k: int| 0 <= k < f ==> mono@[k] == frame_mean(samples@, channels as int, k),
        decreases frames - f,
    {
        proof {
            assert((f + 1) * ch <= frames * ch) by (nonlinear_arith)
                requires
                    f < frames,
                    ch >= 1,
            ;
            assert(f * ch + ch == (f + 1) * ch) by (nonlinear_arith);
        }
        let base: usize = f * channels;
        let mut sum: i64 = 0;
        let mut c: usize = 0;
        while c < channels
            invariant
                c <= channels,
                ch == channels as int,
                1 <= channels < 0x8000_0000,
                base == f * channels as int,
                base + channels <= samples@.len(),
                samples@.len() <= usize::MAX,
                sum == frame_sum(samples@, base as int, c as int),
                c * (i32::MIN as int) <= sum <= c * (i32::MAX as int),
            decreases channels - c,
        {
            proof {
                lemma_frame_sum_bounds(samples@, base as int, (c + 1) as int);
            }
            sum = sum + samples[base + c] as i64;
            c = c + 1;
        }
        let mean: i64 = if sum >= 0 {
            ((sum as u64) / (channels as u64)) as i64
        } else {
            proof {
                assert((-sum) as u64 / (channels as u64) <= (-sum) as u64) by (nonlinear_arith)
                    requires
                        channels >= 1,
                        sum < 0,
                        -sum <= u64::MAX,
                ;
            }
            -((((-sum) as u64) / (channels as u64)) as i64)
        };
        proof {
            assert(mean == tdiv(sum as int, ch));
            assert(i32::MIN <= mean <= i32::MAX) by {
                assert(ch * (i32::MIN as int) / ch == i32::MIN as int
                    && ch * (i32::MAX as int) / ch == i32::MAX as int) by (nonlinear_arith)
                    requires
                        ch >= 1,
                ;
                if sum >= 0 {
                    vstd::arithmetic::div_mod::lemma_div_is_ordered(
                        sum as int,
                        ch * (i32::MAX as int),
                        ch,
                    );
                } else {
                    vstd::arithmetic::div_mod::lemma_div_is_ordered(
                        -(sum as int),
                        ch * -(i32::MIN as int),
                        ch,
                    );
                    assert(ch * -(i32::MIN as int) / ch == -(i32::MIN as int))
                        by (nonlinear_arith)
                        requires
                            ch >= 1,
                    ;
                }
            }
        }
        mono.push(mean as i32);
        f = f + 1;
    }
    proof {
        if channels == 1 {
            assert forall|k: int| 0 <= k < mono@.len() implies mono@[k] == samples@[k] by {
                assert(frame_sum(samples@, k, 1) == frame_sum(samples@, k, 0) + samples@[k]);
                vstd::arithmetic::div_mod::lemma_div_basics(samples@[k] as int);
                vstd::arithmetic::div_mod::lemma_div_basics(-(samples@[k] as int));
            }
            vstd::arithmetic::div_mod::lemma_div_basics(samples@.len() as int);
            assert(mono@ =~= samples@);
        }
    }
    mono
}

/// Resamples mono samples from `original_rate` to the target rate. When the
/// rates already agree the samples pass through unchanged, sample for
/// sample; any other ratio needs the platform sample-rate converter, which
/// the caller must supply, so `None` is returned.
pub fn resample_to_16k(input: &Vec<Sample>, original_rate: u32) -> (r: Option<Vec<Sample>>)
    ensures
        original_rate == TARGET_SAMPLE_RATE ==> (r matches Some(out) && out@ == input@),
        original_rate != TARGET_SAMPLE_RATE ==> r is None,
{
    if original_rate == TARGET_SAMPLE_RATE {
        let out = input.clone();
        proof {
            assert(out@ =~= input@);
        }
        Some(out)
    } else {
        None
    }
}

} // verus!

//! Linear resampling of mono sample buffers between sample rates.
//!
//! Samples are fixed-point integers; interpolation divides with floor
//! semantics, so every output sample lies between its two source samples.

use vstd::prelude::*;

use crate::pronunciation::PronunciationError;

verus! {

/// Largest admissible magnitude of an audio sample handed to resampling.
pub const SAMPLE_LIMIT: i32 = 2_000_000;

/// Every sample is within the admissible magnitude.
pub open spec fn samples_bounded(s: Seq<i32>) -> bool {
    forall|i: int| 0 <= i < s.len() ==> -SAMPLE_LIMIT <= #[trigger] s[i] <= SAMPLE_LIMIT
}

/// Output length of resampling `n` samples from `src` to `tgt` Hz:
/// `ceil(n * tgt / src)`, but at least one sample.
pub open spec fn resample_len(n: int, src: int, tgt: int) -> int {
    let l = (n * tgt + src - 1) / src;
    if l >= 1 {
        l
    } else {
        1int
    }
}

/// Output sample `i`: the linear interpolation between the two source
/// samples around position `i * src / tgt`, with floor division.
pub open spec fn resampled_at(s: Seq<i32>, src: int, tgt: int, i: int) -> int {
    let left = (i * src) / tgt;
    let rem = (i * src) % tgt;
    let last = s.len() - 1;
    let right = if left + 1 <= last {
        left + 1
    } else {
        last
    };
    (s[left] * (tgt - rem) + s[right] * rem) / tgt
}

/// Linearly resamples `samples` from `source_rate` to `target_rate`.
///
/// Fails exactly when either rate is zero; an empty input or equal rates
/// hand the samples back unchanged; otherwise every output sample is the
/// interpolation `resampled_at` describes.
pub fn linear_resample(samples: &Vec<i32>, source_rate: u32, target_rate: u32) -> (r: Result<
    Vec<i32>,
    PronunciationError,
>)
    requires
        samples@.len() <= 1_000_000_000,
        samples_bounded(samples@),
        source_rate > 0 && target_rate > 0 && samples@.len() > 0 ==> resample_len(
            samples@.len() as int,
            source_rate as int,
            target_rate as int,
        ) <= 0x7FFF_FFFF,
    ensures
        r is Ok <==> (source_rate > 0 && target_rate > 0),
        match r {
            Ok(out) => {
                if samples@.len() == 0 || source_rate == target_rate {
                    out@ == samples@
                } else {
                    &&& out@.len() == resample_len(
                        samples@.len() as int,
                        source_rate as int,
                        target_rate as int,
                    )
                    &&& forall|i: int|
                        0 <= i < out@.len() ==> #[trigger] out@[i] == resampled_at(
                            samples@,
                            source_rate as int,
                            target_rate as int,
                            i,
                        )
                    &&& samples_bounded(out@)
                }
            },
            Err(e) => true,
        },
{
    if source_rate == 0 {
        return Err(PronunciationError::new("source sample rate must be positive"));
    }
    if target_rate == 0 {
        return Err(PronunciationError::new("target sample rate must be positive"));
    }
    if samples.len() == 0 || source_rate == target_rate {
        return Ok(samples.clone());
    }
    let n: u64 = samples.len() as u64;
    let src: u64 = source_rate as u64;
    let tgt: u64 = target_rate as u64;
    proof {
        assert(n as int * (tgt as int) <= 1_000_000_000 * 0x1_0000_0000)
            by (nonlinear_arith)
            requires
                0 <= (n as int) <= 1_000_000_000,
                0 <= (tgt as int) < 0x1_0000_0000;
        assert(n as int * tgt as int >= 1) by (nonlinear_arith)
            requires
                n as int >= 1,
                tgt as int >= 1;
    }
    let out_len_u: u64 = (n * tgt + src - 1) / src;
    proof {
        assert(out_len_u >= 1) by (nonlinear_arith)
            requires
                n as int * tgt as int >= 1,
                src as int >= 1,
                out_len_u == (n as int * tgt as int + src as int - 1) / src as int;
        // The last output index maps strictly inside the input.
        assert((out_len_u as int - 1) * (src as int) <= n as int * tgt as int - 1)
            by (nonlinear_arith)
            requires
                src as int >= 1,
                out_len_u == (n as int * tgt as int + src as int - 1) / src as int,
                n as int * tgt as int >= 1;
    }
    let out_len: usize = out_len_u as usize;
    let mut out: Vec<i32> = Vec::new();
    let last: usize = samples.len() - 1;
    for i in 0..out_len
        invariant
            n == samples@.len(),
            1 <= n <= 1_000_000_000,
            src == source_rate,
            tgt == target_rate,
            src >= 1,
            tgt >= 1,
            tgt < 0x1_0000_0000,
            last == n - 1,
            samples_bounded(samples@),
            out_len == out_len_u,
            out_len_u == resample_len(n as int, src as int, tgt as int),
            (out_len_u as int - 1) * (src as int) <= n as int * tgt as int - 1,
            out@.len() == i,
            forall|k: int|
                0 <= k < i ==> #[trigger] out@[k] == resampled_at(
                    samples@,
                    src as int,
                    tgt as int,
                    k,
                ),
            samples_bounded(out@),
    {
        proof {
            assert(i as int * (src as int) <= (out_len_u as int - 1) * src as int)
                by (nonlinear_arith)
                requires
                    0 <= (i as int) <= out_len_u as int - 1,
                    src as int >= 0;
            assert((n as int) * (tgt as int) <= 1_000_000_000 * 0x1_0000_0000)
                by (nonlinear_arith)
                requires
                    0 <= (n as int) <= 1_000_000_000,
                    0 <= (tgt as int) < 0x1_0000_0000;
        }
        let pos: u64 = (i as u64) * src;
        let left_u: u64 = pos / tgt;
        let rem: u64 = pos % tgt;
        proof {
            // pos <= n * tgt - 1, so pos / tgt <= n - 1.
            vstd::arithmetic::div_mod::lemma_div_is_ordered(
                pos as int,
                n as int * tgt as int - 1,
                tgt as int,
            );
            assert((n as int * tgt as int - 1) / tgt as int == n as int - 1) by (nonlinear_arith)
                requires
                    tgt as int >= 1,
                    n as int >= 1;
        }
        let left: usize = left_u as usize;
        let right: usize = if left + 1 <= last {
            left + 1
        } else {
            last
        };
        // Shift both endpoints up so the interpolation numerator is
        // non-negative, divide, then shift back down.
        let a: u64 = (samples[left] + SAMPLE_LIMIT) as u64;
        let b: u64 = (samples[right] + SAMPLE_LIMIT) as u64;
        proof {
            assert(a as int * (tgt as int - rem as int) + b as int * (rem as int) <= (2
                * SAMPLE_LIMIT) * tgt as int) by (nonlinear_arith)
                requires
                    0 <= (a as int) <= 2 * SAMPLE_LIMIT,
                    0 <= (b as int) <= 2 * SAMPLE_LIMIT,
                    0 <= (rem as int) <= tgt as int;
            assert((2 * SAMPLE_LIMIT) * (tgt as int) < 0x7FFF_FFFF_FFFF_FFFF) by (nonlinear_arith)
                requires
                    1 <= (tgt as int) < 0x1_0000_0000;
        }
        let num: u64 = a * (tgt - rem) + b * rem;
        let val: i64 = (num / tgt) as i64 - (SAMPLE_LIMIT as i64);
        proof {
            let sl = samples@[left as int] as int;
            let sr = samples@[right as int] as int;
            let ti = tgt as int;
            let x = sl * (ti - rem as int) + sr * (rem as int);
            assert(num as int == x + SAMPLE_LIMIT * ti) by (nonlinear_arith)
                requires
                    a as int == sl + SAMPLE_LIMIT,
                    b as int == sr + SAMPLE_LIMIT,
                    num as int == a as int * (ti - rem as int) + b as int * (rem as int),
                    x == sl * (ti - rem as int) + sr * (rem as int);
            assert((x + SAMPLE_LIMIT * ti) / ti == x / ti + SAMPLE_LIMIT) by {
                vstd::arithmetic::div_mod::lemma_hoist_over_denominator(
                    x,
                    SAMPLE_LIMIT as int,
                    tgt as nat,
                );
            }
            assert(-SAMPLE_LIMIT * ti <= x <= SAMPLE_LIMIT * ti) by (nonlinear_arith)
                requires
                    -SAMPLE_LIMIT <= sl <= SAMPLE_LIMIT,
                    -SAMPLE_LIMIT <= sr <= SAMPLE_LIMIT,
                    0 <= (rem as int) <= ti,
                    x == sl * (ti - rem as int) + sr * (rem as int);
            assert(-SAMPLE_LIMIT <= x / ti <= SAMPLE_LIMIT) by (nonlinear_arith)
                requires
                    ti >= 1,
                    -SAMPLE_LIMIT * ti <= x <= SAMPLE_LIMIT * ti;
            assert(val as int == resampled_at(samples@, src as int, tgt as int, i as int));
        }
        out.push(val as i32);
        proof {
            assert(forall|k: int|
                0 <= k < i + 1 ==> #[trigger] out@[k] == resampled_at(
                    samples@,
                    src as int,
                    tgt as int,
                    k,
                ));
        }
    }
    Ok(out)
}

} // verus!

//! The WAV encoder and downmixer, on fixed-point samples.
//!
//! Audio samples are carried as Q16.16 fixed-point values: an `i64` of
//! which [`SAMPLE_UNIT`] (65536) stands for full scale 1.0.  The capture
//! layer converts the device's float chunks to this form before handing
//! them in, so the whole pipeline below — duration filtering, downmix to
//! mono, scaling to signed 16-bit PCM with clamping, and the PCM container
//! itself — is exact integer arithmetic.
//!
//! A clip shorter than half a second of samples is rejected as "too
//! short" (an accidental activation), not as an error.

use vstd::prelude::*;
use vstd::arithmetic::div_mod::{
    lemma_div_is_ordered, lemma_div_multiples_vanish, lemma_div_pos_is_pos,
    lemma_fundamental_div_mod, lemma_fundamental_div_mod_converse, lemma_mod_bound,
    lemma_small_mod,
};
use vstd::arithmetic::mul::lemma_mul_inequality;
use vstd::bytes::{
    lemma_auto_spec_u16_to_from_le_bytes, lemma_auto_spec_u32_to_from_le_bytes,
    spec_u16_to_le_bytes, spec_u32_to_le_bytes, u16_to_le_bytes, u32_to_le_bytes,
};

verus! {

/// Fixed-point unit: this value stands for full scale 1.0.
pub const SAMPLE_UNIT: i64 = 65536;

/// Largest magnitude a sample may carry, 32768 times full scale; values
/// this far out of range are clamped by the capture layer's conversion.
pub const SAMPLE_BOUND: i64 = 0x8000_0000;

/// Largest positive 16-bit PCM value; full scale is mapped onto it.
pub const PCM_SCALE: i64 = 32767;

/// Whether a fixed-point sample lies within the representable band.
pub open spec fn sample_in_range(s: i64) -> bool {
    -SAMPLE_BOUND <= s <= SAMPLE_BOUND
}

/// Sum of a sequence of samples, as a mathematical integer.
pub open spec fn spec_sum(s: Seq<i64>) -> int
    decreases s.len(),
{
    if s.len() == 0 {
        0
    } else {
        spec_sum(s.drop_last()) + s.last()
    }
}

/// The `i`-th frame of `c` interleaved samples; the last frame may be
/// shorter when the length is not a multiple of `c`.
pub open spec fn spec_frame(s: Seq<i64>, c: int, i: int) -> Seq<i64> {
    s.subrange(
        i * c,
        if (i + 1) * c <= s.len() {
            (i + 1) * c
        } else {
            s.len() as int
        },
    )
}

/// How many frames of `c` samples a sequence of `len` samples holds.
pub open spec fn spec_frame_count(len: int, c: int) -> int {
    (len + c - 1) / c
}

/// The mean of one frame, divided by the full channel count and rounded
/// toward minus infinity.
pub open spec fn spec_mean(frame: Seq<i64>, c: int) -> i64 {
    (spec_sum(frame) / c) as i64
}

/// Downmix to mono: every frame of `c` interleaved samples becomes the
/// arithmetic mean of its values.
pub open spec fn spec_downmix(s: Seq<i64>, c: int) -> Seq<i64> {
    Seq::new(spec_frame_count(s.len() as int, c) as nat, |i: int| spec_mean(spec_frame(s, c, i), c))
}

/// Scale a fixed-point sample by 32767/65536 (rounding toward minus
/// infinity) and clamp the result into the signed 16-bit range.
pub open spec fn spec_scale(s: int) -> i16 {
    let v = (s * PCM_SCALE) / (SAMPLE_UNIT as int);
    if v > 32767 {
        32767i16
    } else if v < -32768 {
        (-32768i16)
    } else {
        v as i16
    }
}

/// Scale a whole mono sequence to 16-bit PCM.
pub open spec fn spec_scale_seq(s: Seq<i64>) -> Seq<i16> {
    s.map(|i: int, x: i64| spec_scale(x as int))
}

/// Two's-complement 16-bit image of a PCM value.
pub open spec fn spec_pcm16(v: int) -> u16 {
    (v % 0x10000) as u16
}

/// The little-endian byte stream of a mono 16-bit PCM sequence.
pub open spec fn spec_sample_bytes(mono: Seq<i16>) -> Seq<u8>
    decreases mono.len(),
{
    if mono.len() == 0 {
        Seq::empty()
    } else {
        spec_sample_bytes(mono.drop_last()) + spec_u16_to_le_bytes(
            spec_pcm16(mono.last() as int),
        )
    }
}

/// The canonical 44-byte header of a single-channel 16-bit PCM WAV file
/// holding `mono_len` samples at `sample_rate`.
pub open spec fn spec_wav_header(sample_rate: u32, mono_len: int) -> Seq<u8> {
    seq![0x52u8, 0x49u8, 0x46u8, 0x46u8]  // "RIFF"
     + spec_u32_to_le_bytes((36 + 2 * mono_len) as u32) + seq![0x57u8, 0x41u8, 0x56u8, 0x45u8]  // "WAVE"
     + seq![0x66u8, 0x6du8, 0x74u8, 0x20u8]  // "fmt "
     + spec_u32_to_le_bytes(16u32) + spec_u16_to_le_bytes(1u16) + spec_u16_to_le_bytes(1u16)
        + spec_u32_to_le_bytes(sample_rate) + spec_u32_to_le_bytes((2 * sample_rate) as u32)
        + spec_u16_to_le_bytes(2u16) + spec_u16_to_le_bytes(16u16) + seq![
        0x64u8,
        0x61u8,
        0x74u8,
        0x61u8,
    ]  // "data"
     + spec_u32_to_le_bytes((2 * mono_len) as u32)
}

/// The whole WAV byte stream: header then samples.
pub open spec fn spec_wav_bytes(mono: Seq<i16>, sample_rate: u32) -> Seq<u8> {
    spec_wav_header(sample_rate, mono.len() as int) + spec_sample_bytes(mono)
}

/// A clip of `len` samples is too short when it covers less than half a
/// second, that is when `len < 0.5 * sample_rate`.
pub open spec fn spec_too_short(len: int, sample_rate: u32) -> bool {
    2 * len < sample_rate
}

/// Quotient rounded toward minus infinity, for a positive divisor.
fn div_floor(a: i64, b: i64) -> (q: i64)
    requires
        1 <= b <= 0x2_0000,
        -0x4000_0000_0000_0000 <= a <= 0x4000_0000_0000_0000,
    ensures
        q as int == a as int / b as int,
{
    if a >= 0 {
        let q = (a as u64) / (b as u64);
        q as i64
    } else {
        let na = (-a) as u64;
        let q0 = (na + (b as u64) - 1) / (b as u64);
        proof {
            let ai = a as int;
            let bi = b as int;
            let nai = -ai;
            let qi = (nai + bi - 1) / bi;
            lemma_fundamental_div_mod(nai + bi - 1, bi);
            let r0 = (nai + bi - 1) % bi;
            assert(nai + bi - 1 == bi * qi + r0);
            assert(0 <= r0 < bi);
            let r = ai - bi * (-qi);
            assert(bi * (-qi) == -(bi * qi)) by (nonlinear_arith);
            assert(0 <= r < bi);
            lemma_fundamental_div_mod_converse(ai, bi, -qi, r);
            assert(ai / bi == -qi);
        }
        -(q0 as i64)
    }
}

/// There are never more frames than samples, and never a negative count.
proof fn lemma_frame_count_bounds(len: int, c: int)
    requires
        len >= 0,
        c >= 1,
    ensures
        0 <= spec_frame_count(len, c) <= len,
        spec_frame_count(len, c) * c < len + c,
{
    assert(len + c - 1 <= c * len + c - 1) by (nonlinear_arith)
        requires
            len >= 0,
            c >= 1,
    ;
    lemma_div_is_ordered(len + c - 1, c * len + c - 1, c);
    assert(c * len + c - 1 == len * c + (c - 1)) by (nonlinear_arith);
    lemma_fundamental_div_mod_converse(c * len + c - 1, c, len, c - 1);
    lemma_div_pos_is_pos(len + c - 1, c);
    lemma_fundamental_div_mod(len + c - 1, c);
    lemma_mod_bound(len + c - 1, c);
    let q = (len + c - 1) / c;
    assert(c * q <= len + c - 1);
    assert(q * c == c * q) by (nonlinear_arith);
}

/// Downmix interleaved samples to mono: each frame of `channels` samples
/// becomes their arithmetic mean; a single channel is the identity copy.
pub fn convert_to_mono(samples: &Vec<i64>, channels: u16) -> (r: Vec<i64>)
    requires
        channels >= 1,
        samples@.len() <= 0x7FFF_0000,
        forall|i: int| 0 <= i < samples@.len() ==> sample_in_range(#[trigger] samples@[i]),
    ensures
        r@ == spec_downmix(samples@, channels as int),
        forall|i: int| 0 <= i < r@.len() ==> sample_in_range(#[trigger] r@[i]),
{
    let n = samples.len();
    if channels == 1 {
        let mut out: Vec<i64> = Vec::new();
        let mut i: usize = 0;
        while i < n
            invariant
                i <= n,
                n == samples@.len() <= 0x7FFF_0000,
                out@ =~= samples@.subrange(0, i as int),
            decreases n - i,
        {
            out.push(samples[i]);
            i += 1;
        }
        proof {
            assert(out@ =~= samples@);
            lemma_downmix_identity(samples@);
        }
        return out;
    }
    let c = channels as usize;
    let m = (n + c - 1) / c;
    proof {
        lemma_frame_count_bounds(n as int, c as int);
    }
    let mut out: Vec<i64> = Vec::new();
    let mut k: usize = 0;
    while k < m
        invariant
            1 <= c <= 0xFFFF,
            c == channels as int,
            n == samples@.len() <= 0x7FFF_0000,
            m == spec_frame_count(n as int, c as int),
            m * c < n + c,
            k <= m,
            out@.len() == k as int,
            forall|j: int|
                0 <= j < k as int ==> out@[j] == spec_mean(
                    spec_frame(samples@, c as int, j),
                    c as int,
                ),
            forall|j: int| 0 <= j < out@.len() ==> sample_in_range(#[trigger] out@[j]),
            forall|i: int| 0 <= i < samples@.len() ==> sample_in_range(#[trigger] samples@[i]),
        decreases m - k,
    {
        proof {
            assert(k * c <= (m - 1) * c) by (nonlinear_arith)
                requires
                    k + 1 <= m,
                    c >= 1,
            ;
            assert((m - 1) * c == m * c - c) by (nonlinear_arith);
        }
        let lo = k * c;
        let hi = if n - lo > c {
            lo + c
        } else {
            n
        };
        let ghost frame = spec_frame(samples@, c as int, k as int);
        proof {
            assert((k as int + 1) * c == k as int * c + c) by (nonlinear_arith);
            assert(frame =~= samples@.subrange(lo as int, hi as int));
        }
        let mut sum: i64 = 0;
        let mut j = lo;
        while j < hi
            invariant
                lo <= j <= hi <= n,
                n == samples@.len(),
                1 <= c <= 0xFFFF,
                hi - lo <= c,
                sum == spec_sum(samples@.subrange(lo as int, j as int)),
                -((j - lo) * SAMPLE_BOUND) <= sum <= (j - lo) * SAMPLE_BOUND,
                forall|i: int| 0 <= i < samples@.len() ==> sample_in_range(#[trigger] samples@[i]),
            decreases hi - j,
        {
            proof {
                let pre = samples@.subrange(lo as int, j as int);
                let post = samples@.subrange(lo as int, j as int + 1);
                assert(post.drop_last() =~= pre);
                assert(post.last() == samples@[j as int]);
            }
            sum = sum + samples[j];
            j += 1;
        }
        proof {
            assert(sum == spec_sum(frame));
            assert((hi - lo) * SAMPLE_BOUND <= c * SAMPLE_BOUND) by (nonlinear_arith)
                requires
                    hi - lo <= c,
                    SAMPLE_BOUND > 0,
            ;
        }
        let mean = div_floor(sum, c as i64);
        proof {
            lemma_div_is_ordered(sum as int, c * SAMPLE_BOUND, c as int);
            lemma_div_is_ordered(-(c * SAMPLE_BOUND), sum as int, c as int);
            lemma_div_multiples_vanish(SAMPLE_BOUND as int, c as int);
            lemma_div_multiples_vanish(-(SAMPLE_BOUND as int), c as int);
            assert(c * SAMPLE_BOUND == SAMPLE_BOUND * c) by (nonlinear_arith);
            assert(-(c * SAMPLE_BOUND) == (-SAMPLE_BOUND) * c) by (nonlinear_arith);
            assert(-SAMPLE_BOUND <= sum as int / (c as int) <= SAMPLE_BOUND);
            assert(mean == spec_mean(frame, c as int));
        }
        out.push(mean);
        k += 1;
    }
    proof {
        assert(out@ =~= spec_downmix(samples@, channels as int));
    }
    out
}

/// Law: downmixing a single channel is the identity transform.
pub proof fn lemma_downmix_identity(s: Seq<i64>)
    ensures
        spec_downmix(s, 1) =~= s,
{
    assert(spec_frame_count(s.len() as int, 1) == s.len());
    assert forall|i: int| 0 <= i < s.len() implies spec_downmix(s, 1)[i] == s[i] by {
        let frame = spec_frame(s, 1, i);
        assert(frame =~= seq![s[i]]);
        assert(frame.drop_last() =~= Seq::<i64>::empty());
        assert(spec_sum(frame.drop_last()) == 0);
        assert(spec_sum(frame) == s[i]);
        assert(spec_sum(frame) / 1 == s[i]);
    }
}

/// Scale one fixed-point sample to a 16-bit PCM value, clamping at both
/// boundaries instead of wrapping around.
pub fn scale_sample(s: i64) -> (r: i16)
    requires
        sample_in_range(s),
    ensures
        r == spec_scale(s as int),
{
    let msc = s * PCM_SCALE;
    let v = div_floor(msc, SAMPLE_UNIT);
    if v > 32767 {
        32767
    } else if v < -32768 {
        -32768
    } else {
        v as i16
    }
}

/// Law: scaling is monotonic; a louder sample never encodes below a
/// quieter one.
pub proof fn lemma_scale_monotonic(s1: int, s2: int)
    requires
        s1 <= s2,
    ensures
        spec_scale(s1) as int <= spec_scale(s2) as int,
{
    lemma_mul_inequality(s1, s2, PCM_SCALE as int);
    lemma_div_is_ordered(s1 * PCM_SCALE, s2 * PCM_SCALE, SAMPLE_UNIT as int);
}

/// Law: every sample at or above full scale encodes to the top PCM value
/// 32767, and every sample at or below -65537/65536 of full scale encodes
/// to the bottom PCM value -32768: out-of-range input clamps, it never
/// wraps around.
pub proof fn lemma_scale_clamps(s: int)
    ensures
        s >= SAMPLE_UNIT ==> spec_scale(s) == 32767i16,
        s <= -(SAMPLE_UNIT as int) - 1 ==> spec_scale(s) == -32768i16,
{
    if s >= SAMPLE_UNIT {
        lemma_scale_monotonic(SAMPLE_UNIT as int, s);
        assert((SAMPLE_UNIT * PCM_SCALE) / (SAMPLE_UNIT as int) == PCM_SCALE) by {
            lemma_div_multiples_vanish(PCM_SCALE as int, SAMPLE_UNIT as int);
            assert(SAMPLE_UNIT * PCM_SCALE == PCM_SCALE * SAMPLE_UNIT) by (nonlinear_arith);
        }
        assert(spec_scale(SAMPLE_UNIT as int) == 32767i16);
    }
    if s <= -(SAMPLE_UNIT as int) - 1 {
        lemma_scale_monotonic(s, -(SAMPLE_UNIT as int) - 1);
        assert(((-65537) * PCM_SCALE) / (SAMPLE_UNIT as int) == -32768);
        assert(spec_scale(-(SAMPLE_UNIT as int) - 1) == -32768i16);
    }
}

fn pcm16(v: i16) -> (r: u16)
    ensures
        r == spec_pcm16(v as int),
{
    if v >= 0 {
        proof {
            lemma_small_mod(v as nat, 0x10000nat);
        }
        v as u16
    } else {
        let w = v as i32 + 0x10000;
        proof {
            lemma_fundamental_div_mod_converse(v as int, 0x10000, -1, v as int + 0x10000);
        }
        w as u16
    }
}

proof fn lemma_sample_bytes_push(s: Seq<i16>, x: i16)
    ensures
        spec_sample_bytes(s.push(x)) == spec_sample_bytes(s) + spec_u16_to_le_bytes(
            spec_pcm16(x as int),
        ),
{
    assert(s.push(x).drop_last() =~= s);
    assert(s.push(x).last() == x);
}

proof fn lemma_sample_bytes_len(s: Seq<i16>)
    ensures
        spec_sample_bytes(s).len() == 2 * s.len(),
    decreases s.len(),
{
    lemma_auto_spec_u16_to_from_le_bytes();
    if s.len() > 0 {
        lemma_sample_bytes_len(s.drop_last());
    }
}

/// The header is 44 bytes, carries a channel count of 1 at offset 22 and
/// the sample rate at offset 24.
pub proof fn lemma_wav_header_fields(sample_rate: u32, mono_len: int)
    ensures
        spec_wav_header(sample_rate, mono_len).len() == 44,
        spec_wav_header(sample_rate, mono_len).subrange(22, 24) == spec_u16_to_le_bytes(1u16),
        spec_wav_header(sample_rate, mono_len).subrange(24, 28) == spec_u32_to_le_bytes(sample_rate),
{
    lemma_auto_spec_u16_to_from_le_bytes();
    lemma_auto_spec_u32_to_from_le_bytes();
    let h = spec_wav_header(sample_rate, mono_len);
    assert(h.subrange(22, 24) =~= spec_u16_to_le_bytes(1u16));
    assert(h.subrange(24, 28) =~= spec_u32_to_le_bytes(sample_rate));
}

/// Encode interleaved fixed-point samples as a mono 16-bit PCM WAV byte
/// stream at the given sample rate, or return `None` when the clip is too
/// short to be worth transcribing.
pub fn encode_wav(samples: &Vec<i64>, sample_rate: u32, channels: u16) -> (r: Option<Vec<u8>>)
    requires
        channels >= 1,
        sample_rate <= 0x7FFF_FFFF,
        samples@.len() <= 0x7FFF_0000,
        forall|i: int| 0 <= i < samples@.len() ==> sample_in_range(#[trigger] samples@[i]),
    ensures
        (r is None) <==> spec_too_short(samples@.len() as int, sample_rate),
        r matches Some(b) ==> b@ == spec_wav_bytes(
            spec_scale_seq(spec_downmix(samples@, channels as int)),
            sample_rate,
        ),
        r matches Some(b) ==> b@.len() == 44 + 2 * spec_frame_count(
            samples@.len() as int,
            channels as int,
        ) && b@.len() >= 44,
        r matches Some(b) ==> b@.subrange(22, 24) == spec_u16_to_le_bytes(1u16),
        r matches Some(b) ==> b@.subrange(24, 28) == spec_u32_to_le_bytes(sample_rate),
{
    if (samples.len() as u64) * 2 < sample_rate as u64 {
        return None;
    }
    let mono = convert_to_mono(samples, channels);
    let n = mono.len();
    let ghost scaled = spec_scale_seq(mono@);
    proof {
        lemma_frame_count_bounds(samples@.len() as int, channels as int);
        assert(n <= samples@.len());
        assert(scaled.len() == n as int);
    }
    let mut out: Vec<u8> = Vec::new();
    out.push(0x52);
    out.push(0x49);
    out.push(0x46);
    out.push(0x46);
    let mut t = u32_to_le_bytes(36 + 2 * (n as u32));
    out.append(&mut t);
    out.push(0x57);
    out.push(0x41);
    out.push(0x56);
    out.push(0x45);
    out.push(0x66);
    out.push(0x6d);
    out.push(0x74);
    out.push(0x20);
    let mut t = u32_to_le_bytes(16);
    out.append(&mut t);
    let mut t = u16_to_le_bytes(1);
    out.append(&mut t);
    let mut t = u16_to_le_bytes(1);
    out.append(&mut t);
    let mut t = u32_to_le_bytes(sample_rate);
    out.append(&mut t);
    let mut t = u32_to_le_bytes(2 * sample_rate);
    out.append(&mut t);
    let mut t = u16_to_le_bytes(2);
    out.append(&mut t);
    let mut t = u16_to_le_bytes(16);
    out.append(&mut t);
    out.push(0x64);
    out.push(0x61);
    out.push(0x74);
    out.push(0x61);
    let mut t = u32_to_le_bytes(2 * (n as u32));
    out.append(&mut t);
    proof {
        assert(out@ =~= spec_wav_header(sample_rate, n as int));
    }
    let ghost header = spec_wav_header(sample_rate, n as int);
    let mut i: usize = 0;
    while i < n
        invariant
            i <= n,
            n == mono@.len(),
            scaled == spec_scale_seq(mono@),
            forall|j: int| 0 <= j < mono@.len() ==> sample_in_range(#[trigger] mono@[j]),
            out@ == header + spec_sample_bytes(scaled.subrange(0, i as int)),
        decreases n - i,
    {
        let sc = scale_sample(mono[i]);
        let p = pcm16(sc);
        let mut b = u16_to_le_bytes(p);
        out.append(&mut b);
        proof {
            let pre = scaled.subrange(0, i as int);
            let post = scaled.subrange(0, i as int + 1);
            assert(sc == scaled[i as int]);
            assert(post =~= pre.push(sc));
            lemma_sample_bytes_push(pre, sc);
            assert(out@ =~= header + spec_sample_bytes(post));
        }
        i += 1;
    }
    proof {
        assert(scaled.subrange(0, n as int) =~= scaled);
        assert(out@ == spec_wav_bytes(scaled, sample_rate));
        lemma_wav_header_fields(sample_rate, n as int);
        lemma_sample_bytes_len(scaled);
        assert(out@.subrange(22, 24) =~= header.subrange(22, 24));
        assert(out@.subrange(24, 28) =~= header.subrange(24, 28));
    }
    Some(out)
}

} // verus!

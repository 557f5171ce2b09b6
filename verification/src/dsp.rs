use vstd::prelude::*;

verus! {

use vstd::arithmetic::div_mod::{
    lemma_div_is_ordered, lemma_div_is_ordered_by_denominator, lemma_div_multiples_vanish,
    lemma_fundamental_div_mod, lemma_multiply_divide_lt,
};
use vstd::arithmetic::mul::{lemma_mul_inequality, lemma_mul_upper_bound};
use crate::note::Hz;

// Fixed-point scales used throughout the signal path.
//
// Angles are fractions of a full turn held in 32 bits, so that phase
// arithmetic wraps exactly where the angle does. Amplitudes are Q15:
// 32768 stands for 1.0.

/// Sine over the first half turn, Q15 in and out.
///
/// `x` counts `1/2^32` of a turn, `0 <= x <= 2^31` (half a turn); the result
/// approximates `32768 * sin(pi * x / 2^31)`. A parabola through the three
/// zeros and peak of the half-wave is sharpened by one smoothing step,
/// `p * (0.775 + 0.225 * p)` in Q15 coefficients.
pub open spec fn sin_half_s(x: int) -> int {
    let p = (x * (0x80000000 - x)) / 0x200000000000;
    (p * (25395 + (7373 * p) / 32768)) / 32768
}

/// Sine of a whole turn, odd by construction: the second half turn is the
/// mirrored first half.
pub open spec fn sin_turn_s(t: int) -> int {
    if t < 0x80000000 {
        sin_half_s(t)
    } else {
        -sin_half_s(t - 0x80000000)
    }
}

/// Cosine as the sine shifted a quarter turn forward.
pub open spec fn cos_turn_s(t: int) -> int {
    sin_turn_s((t + 0x40000000) % 0x100000000)
}

/// The half-turn sine stays within one Q15 unit.
pub proof fn lemma_sin_half_bounds(x: int)
    requires
        0 <= x <= 0x80000000,
    ensures
        0 <= sin_half_s(x) <= 32768,
{
    let prod = x * (0x80000000 - x);
    assert(0 <= prod <= 0x1000000000000000) by (nonlinear_arith)
        requires
            0 <= x <= 0x80000000,
            prod == x * (0x80000000 - x),
    ;
    let p = prod / 0x200000000000;
    lemma_div_is_ordered(0, prod, 0x200000000000);
    lemma_div_is_ordered(prod, 0x1000000000000000, 0x200000000000);
    assert(0x1000000000000000int / 0x200000000000int == 32768);
    let scaled = 7373 * p;
    lemma_mul_inequality(p, 32768, 7373);
    assert(scaled <= 7373 * 32768);
    lemma_mul_inequality(0, p, 7373);
    lemma_div_is_ordered(0, scaled, 32768);
    lemma_div_is_ordered(scaled, 7373int * 32768, 32768int);
    assert((7373int * 32768) / 32768 == 7373);
    let inner = 25395 + scaled / 32768;
    assert(25395 <= inner <= 32768);
    lemma_mul_upper_bound(p, 32768, inner, 32768);
    lemma_mul_inequality(0, p, inner);
    lemma_div_is_ordered(0, p * inner, 32768);
    lemma_div_is_ordered(p * inner, 32768int * 32768, 32768int);
    assert((32768int * 32768) / 32768 == 32768);
}

/// The full-turn sine stays within one Q15 unit either way.
pub proof fn lemma_sin_turn_bounds(t: int)
    requires
        0 <= t < 0x100000000,
    ensures
        -32768 <= sin_turn_s(t) <= 32768,
{
    if t < 0x80000000 {
        lemma_sin_half_bounds(t);
    } else {
        lemma_sin_half_bounds(t - 0x80000000);
    }
}

/// Sine over the first half turn, Q15.
pub fn sin_half(x: u32) -> (r: u16)
    requires
        x <= 0x80000000,
    ensures
        r == sin_half_s(x as int),
        r <= 32768,
{
    let xe: u64 = x as u64;
    proof {
        assert(xe * (0x80000000 - xe) <= 0x1000000000000000) by (nonlinear_arith)
            requires
                xe <= 0x80000000,
        ;
    }
    let prod: u64 = xe * (0x80000000 - xe);
    proof {
        lemma_div_is_ordered(prod as int, 0x1000000000000000, 0x200000000000);
        assert(0x1000000000000000int / 0x200000000000int == 32768);
    }
    let p: u64 = prod / 0x200000000000;
    let inner: u64 = 25395 + (7373 * p) / 32768;
    proof {
        lemma_mul_inequality(p as int, 32768int, 7373int);
        lemma_div_is_ordered(7373 * (p as int), 7373int * 32768, 32768int);
        assert((7373int * 32768) / 32768 == 7373);
        lemma_mul_upper_bound(p as int, 32768int, inner as int, 32768int);
        lemma_div_is_ordered(p * inner, 32768int * 32768, 32768int);
        assert((32768int * 32768) / 32768 == 32768);
    }
    let q: u64 = (p * inner) / 32768;
    q as u16
}

/// Sine of a 32-bit turn fraction, Q15; odd across the half turn.
pub fn sin_turn(t: u32) -> (r: i32)
    ensures
        r == sin_turn_s(t as int),
        -32768 <= r <= 32768,
{
    if t < 0x80000000 {
        sin_half(t) as i32
    } else {
        -(sin_half(t - 0x80000000) as i32)
    }
}

/// Cosine of a 32-bit turn fraction, Q15.
pub fn cos_turn(t: u32) -> (r: i32)
    ensures
        r == cos_turn_s(t as int),
        -32768 <= r <= 32768,
{
    sin_turn(t.wrapping_add(0x40000000))
}

/// Largest supported window size, in samples, of a matched-filter kernel.
pub const MAX_WINDOW: u64 = 0x1000000;

/// Hann phase of the tap at offset `k` from the centre of a window of `ws`
/// samples: `k / (2 * ws)` of a turn, as a 32-bit turn fraction.
pub open spec fn hann_phase(ws: int, k: int) -> int {
    (k * 0x80000000) / ws
}

/// Hann weight of the tap at offset `k >= 0`: `cos^2(k * pi / ws) / ws` on
/// the fixed-point grid, so Q30 scaled down by the window size.
pub open spec fn hann_weight_s(ws: int, k: int) -> int {
    let c = cos_turn_s(hann_phase(ws, k));
    (c * c) / ws
}

/// Carrier phase of the tap at offset `k`, as a 32-bit turn fraction, where
/// `step` is the per-sample phase increment of the target frequency.
pub open spec fn carrier_phase(step: int, k: int) -> int {
    (k * step) % 0x100000000
}

/// Real part of the kernel tap at signed offset `k`: Hann weight times the
/// sine of the carrier. Odd in `k`, because the sine is.
pub open spec fn tap_re_s(ws: int, step: int, k: int) -> int {
    if k >= 0 {
        hann_weight_s(ws, k) * sin_turn_s(carrier_phase(step, k))
    } else {
        -(hann_weight_s(ws, -k) * sin_turn_s(carrier_phase(step, -k)))
    }
}

/// Imaginary part of the kernel tap at signed offset `k`: Hann weight times
/// the cosine of the carrier. Even in `k`.
pub open spec fn tap_im_s(ws: int, step: int, k: int) -> int {
    if k >= 0 {
        hann_weight_s(ws, k) * cos_turn_s(carrier_phase(step, k))
    } else {
        hann_weight_s(ws, -k) * cos_turn_s(carrier_phase(step, -k))
    }
}

/// Per-sample carrier phase increment for a target of `f_mhz` milli-hertz at
/// `fs` samples per second, as a 32-bit turn fraction.
pub open spec fn carrier_step_s(fs: int, f_mhz: int) -> int {
    (f_mhz * 0x100000000) / (fs * 1000)
}

/// Window size in samples for a kernel of `periods` carrier periods: the
/// period count over the target frequency, forced even so that the window is
/// symmetric about a centre tap.
pub open spec fn kernel_window_s(fs: int, f_mhz: int, periods: int) -> int {
    let w = (periods * fs * 1000) / f_mhz;
    w + w % 2
}

/// One complex tap of a matched-filter kernel, components Q45-scaled.
#[derive(Debug, Clone, Copy, PartialEq, Eq, Structural)]
pub struct KernelTap {
    pub re: i64,
    pub im: i64,
}

/// The taps of the kernel for the given rate, target and period count:
/// `ws + 1` taps at offsets `-ws/2 ..= ws/2`, each the Hann weight times the
/// complex carrier at its offset.
pub open spec fn kernel_taps_s(fs: int, f_mhz: int, periods: int) -> Seq<KernelTap> {
    let ws = kernel_window_s(fs, f_mhz, periods);
    let step = carrier_step_s(fs, f_mhz);
    Seq::new(
        (ws + 1) as nat,
        |j: int|
            KernelTap {
                re: tap_re_s(ws, step, j - ws / 2) as i64,
                im: tap_im_s(ws, step, j - ws / 2) as i64,
            },
    )
}

/// Largest magnitude a tap component of a kernel of `len` taps can have:
/// the largest Hann weight times the Q15 unit.
pub open spec fn tap_limit(len: int) -> int {
    (0x40000000int / (len - 1)) * 32768
}

/// A Hann-windowed complex sinusoid tuned to one target frequency, ready to
/// be correlated against a sample window.
#[derive(Debug)]
pub struct MatchedFilterKernel {
    pub taps: Vec<KernelTap>,
}

impl MatchedFilterKernel {
    /// Structural facts every built kernel satisfies: an odd tap count of at
    /// least three, a bounded length, and tap components below the Hann
    /// ceiling for that length.
    pub open spec fn wf(self) -> bool {
        &&& 3 <= self.taps.len()
        &&& self.taps.len() % 2 == 1
        &&& self.taps.len() <= MAX_WINDOW + 2
        &&& forall|j: int|
            0 <= j < self.taps.len() ==> {
                &&& -tap_limit(self.taps.len() as int) <= (#[trigger] self.taps@[j]).re
                    <= tap_limit(self.taps.len() as int)
                &&& -tap_limit(self.taps.len() as int) <= self.taps@[j].im <= tap_limit(
                    self.taps.len() as int,
                )
            }
    }

    /// Build the kernel for `f_target` at sample rate `fs`, `periods` carrier
    /// periods long. Longer windows resolve the frequency more sharply but
    /// respond more slowly; the window must stay inside one sample buffer.
    pub fn build(fs: u32, f_target: Hz, periods: u8) -> (r: MatchedFilterKernel)
        requires
            1 <= fs,
            1 <= periods,
            1 <= f_target.0,
            f_target.0 < (fs as int) * 1000,
            (periods as int) * (fs as int) * 1000 / (f_target.0 as int) <= MAX_WINDOW,
        ensures
            r.wf(),
            r.taps@ == kernel_taps_s(fs as int, f_target.0 as int, periods as int),
            r.taps@.len() == kernel_window_s(fs as int, f_target.0 as int, periods as int) + 1,
    {
        let ghost gfs = fs as int;
        let ghost gf = f_target.0 as int;
        let ghost gp = periods as int;
        let fs64: u64 = fs as u64;
        let denom: u64 = fs64 * 1000;
        proof {
            lemma_mul_upper_bound(periods as int, 255, denom as int, 0x3E8_0000_0000);
            lemma_mul_inequality(1, periods as int, denom as int);
            assert((periods as int) * (denom as int) == gp * gfs * 1000) by (nonlinear_arith)
                requires
                    denom == gfs * 1000,
                    gp == periods as int,
            ;
        }
        let num: u64 = (periods as u64) * denom;
        let f: u64 = f_target.0;
        proof {
            lemma_div_is_ordered(f as int, num as int, f as int);
            lemma_div_multiples_vanish(1, f as int);
            assert((f as int) * 1 == f as int);
        }
        let w0: u64 = num / f;
        let ws: u64 = w0 + w0 % 2;
        let h: u64 = ws / 2;
        proof {
            assert(ws == kernel_window_s(gfs, gf, gp));
            assert(ws % 2 == 0);
            assert(2 <= ws <= MAX_WINDOW + 1);
            lemma_mul_inequality(f as int, denom as int - 1, 0x100000000int);
            lemma_multiply_divide_lt((f as int) * 0x100000000, denom as int, 0x100000000int);
        }
        let step128: u128 = (f as u128) * 0x100000000 / (denom as u128);
        let step: u32 = step128 as u32;
        proof {
            assert(step == carrier_step_s(gfs, gf));
        }
        let ghost target = kernel_taps_s(gfs, gf, gp);
        let ghost lim = tap_limit((ws + 1) as int);
        let mut taps: Vec<KernelTap> = Vec::new();
        let mut i: u64 = 0;
        while i <= ws
            invariant
                ws == kernel_window_s(gfs, gf, gp),
                step == carrier_step_s(gfs, gf),
                ws % 2 == 0,
                2 <= ws <= MAX_WINDOW + 1,
                h == ws / 2,
                target == kernel_taps_s(gfs, gf, gp),
                lim == tap_limit((ws + 1) as int),
                i <= ws + 1,
                taps@.len() == i,
                forall|j: int| 0 <= j < i ==> #[trigger] taps@[j] == target[j],
                forall|j: int|
                    0 <= j < i ==> -lim <= (#[trigger] taps@[j]).re <= lim && -lim <= taps@[j].im
                        <= lim,
            decreases ws + 1 - i,
        {
            let k: u64 = if i < h {
                h - i
            } else {
                i - h
            };
            let t0 = tap_for_offset(ws, step, k);
            let t = if i < h {
                KernelTap { re: -t0.re, im: t0.im }
            } else {
                t0
            };
            proof {
                assert(target[i as int] == t);
            }
            taps.push(t);
            i = i + 1;
        }
        proof {
            assert(taps@ =~= target);
            assert((ws + 1) % 2 == 1int);
        }
        MatchedFilterKernel { taps }
    }
}

/// The kernel tap at nonnegative offset `k` from the centre of a window of
/// `ws` samples, carrier advancing `step` per sample.
fn tap_for_offset(ws: u64, step: u32, k: u64) -> (t: KernelTap)
    requires
        2 <= ws <= MAX_WINDOW + 1,
        ws % 2 == 0,
        k <= ws / 2,
    ensures
        t.re == tap_re_s(ws as int, step as int, k as int),
        t.im == tap_im_s(ws as int, step as int, k as int),
        -tap_limit(ws as int + 1) <= t.re <= tap_limit(ws as int + 1),
        -tap_limit(ws as int + 1) <= t.im <= tap_limit(ws as int + 1),
{
    proof {
        lemma_mul_inequality(k as int, ws as int / 2, 0x80000000int);
        assert((ws as int / 2) * 0x80000000 == (ws as int) * 0x40000000);
        lemma_div_is_ordered((k as int) * 0x80000000, (ws as int) * 0x40000000, ws as int);
        lemma_div_multiples_vanish(0x40000000, ws as int);
    }
    let hp: u64 = (k * 0x80000000) / ws;
    let c_h: i32 = cos_turn(hp as u32);
    proof {
        assert(0 <= (c_h as int) * (c_h as int) <= 0x40000000) by (nonlinear_arith)
            requires
                -32768 <= c_h <= 32768,
        ;
    }
    let sq: u64 = ((c_h as i64) * (c_h as i64)) as u64;
    proof {
        lemma_div_is_ordered(sq as int, 0x40000000, ws as int);
        lemma_div_is_ordered_by_denominator(0x40000000, 2, ws as int);
    }
    let hw: u64 = sq / ws;
    proof {
        lemma_mul_upper_bound(k as int, 0x800000, step as int, 0xFFFFFFFF);
    }
    let pt: u64 = (k * (step as u64)) % 0x100000000;
    let s: i32 = sin_turn(pt as u32);
    let c: i32 = cos_turn(pt as u32);
    proof {
        let q = 0x40000000int / (ws as int);
        assert(-(q * 32768) <= (hw as int) * (s as int) <= q * 32768) by (nonlinear_arith)
            requires
                0 <= hw <= q,
                -32768 <= s <= 32768,
        ;
        assert(-(q * 32768) <= (hw as int) * (c as int) <= q * 32768) by (nonlinear_arith)
            requires
                0 <= hw <= q,
                -32768 <= c <= 32768,
        ;
        assert(q <= 0x20000000int);
    }
    let re: i64 = (hw as i64) * (s as i64);
    let im: i64 = (hw as i64) * (c as i64);
    KernelTap { re, im }
}

/// Real part of the complex inner product of `n` leading taps against the
/// samples starting at `k`.
pub open spec fn conv_re_s(data: Seq<i16>, taps: Seq<KernelTap>, k: int, n: int) -> int
    decreases n,
{
    if n <= 0 {
        0
    } else {
        conv_re_s(data, taps, k, n - 1) + (data[k + n - 1] as int) * taps[n - 1].re
    }
}

/// Imaginary part of the complex inner product of `n` leading taps against
/// the samples starting at `k`.
pub open spec fn conv_im_s(data: Seq<i16>, taps: Seq<KernelTap>, k: int, n: int) -> int
    decreases n,
{
    if n <= 0 {
        0
    } else {
        conv_im_s(data, taps, k, n - 1) + (data[k + n - 1] as int) * taps[n - 1].im
    }
}

/// Squared magnitude of the full complex inner product at offset `k`.
pub open spec fn mag_sq_s(data: Seq<i16>, taps: Seq<KernelTap>, k: int) -> int {
    let re = conv_re_s(data, taps, k, taps.len() as int);
    let im = conv_im_s(data, taps, k, taps.len() as int);
    re * re + im * im
}

/// A full correlation sum stays under `2^61`: the Hann weights shrink as the
/// window grows, so length times the largest term is bounded whatever the
/// kernel.
proof fn lemma_conv_fit(len: int)
    requires
        3 <= len <= MAX_WINDOW + 2,
    ensures
        len * (32768 * tap_limit(len)) <= 0x2000000000000000,
        0 <= tap_limit(len),
{
    let d = len - 1;
    let q = 0x40000000int / d;
    lemma_fundamental_div_mod(0x40000000int, d);
    lemma_div_is_ordered_by_denominator(0x40000000int, 2, d);
    lemma_div_is_ordered(0, 0x40000000int, d);
    assert(len * q == d * q + q) by (nonlinear_arith)
        requires
            len == d + 1,
    ;
    assert(d * q <= 0x40000000);
    assert(len * q <= 0x60000000);
    assert(len * (32768 * (q * 32768)) == (len * q) * 0x40000000) by (nonlinear_arith);
    lemma_mul_inequality(len * q, 0x60000000int, 0x40000000int);
    lemma_mul_inequality(0, q, 32768int);
}

/// Correlate the kernel against the samples starting at index `k`, returning
/// the complex sum as a real and an imaginary accumulator.
///
/// The kernel must fit inside the buffer from `k` on: applying a kernel that
/// overruns the window is a contract violation, not a recoverable state.
pub fn conv_at_k(data: &Vec<i16>, kernel: &MatchedFilterKernel, k: usize) -> (r: (i64, i64))
    requires
        kernel.wf(),
        k + kernel.taps.len() < data.len(),
    ensures
        r.0 == conv_re_s(data@, kernel.taps@, k as int, kernel.taps.len() as int),
        r.1 == conv_im_s(data@, kernel.taps@, k as int, kernel.taps.len() as int),
        -0x2000000000000000 <= r.0 <= 0x2000000000000000,
        -0x2000000000000000 <= r.1 <= 0x2000000000000000,
{
    let len = kernel.taps.len();
    let ghost lim = tap_limit(len as int);
    let ghost term = 32768 * lim;
    proof {
        lemma_conv_fit(len as int);
    }
    let mut re: i64 = 0;
    let mut im: i64 = 0;
    let mut i: usize = 0;
    while i < len
        invariant
            kernel.wf(),
            len == kernel.taps.len(),
            k + len < data.len(),
            lim == tap_limit(len as int),
            term == 32768 * lim,
            0 <= lim,
            len * term <= 0x2000000000000000,
            i <= len,
            re == conv_re_s(data@, kernel.taps@, k as int, i as int),
            im == conv_im_s(data@, kernel.taps@, k as int, i as int),
            -(i * term) <= re <= i * term,
            -(i * term) <= im <= i * term,
        decreases len - i,
    {
        let d = data[k + i];
        let t = kernel.taps[i];
        proof {
            assert(-term <= (d as int) * t.re <= term) by (nonlinear_arith)
                requires
                    -32768 <= d as int <= 32768,
                    -lim <= t.re <= lim,
                    term == 32768 * lim,
                    0 <= lim,
            ;
            assert(-term <= (d as int) * t.im <= term) by (nonlinear_arith)
                requires
                    -32768 <= d as int <= 32768,
                    -lim <= t.im <= lim,
                    term == 32768 * lim,
                    0 <= lim,
            ;
            assert((i + 1) * term == i * term + term) by (nonlinear_arith);
            lemma_mul_inequality(i as int + 1, len as int, term);
        }
        re = re + (d as i64) * t.re;
        im = im + (d as i64) * t.im;
        i = i + 1;
    }
    (re, im)
}

/// Floor of the square root: the greatest `r` with `r * r <= x`.
pub fn isqrt(x: u128) -> (r: u64)
    requires
        x < 0x10000000000000000000000000000000,
    ensures
        (r as int) * (r as int) <= x < (r as int + 1) * (r as int + 1),
{
    let mut lo: u64 = 0;
    let mut hi: u64 = 0x4000000000000000;
    proof {
        assert((hi as int + 1) * (hi as int + 1) > x) by (nonlinear_arith)
            requires
                hi == 0x4000000000000000u64,
                x < 0x10000000000000000000000000000000,
        ;
    }
    while lo < hi
        invariant
            lo <= hi,
            hi <= 0x4000000000000000,
            (lo as int) * (lo as int) <= x,
            x < (hi as int + 1) * (hi as int + 1),
        decreases hi - lo,
    {
        let mid: u64 = lo + (hi - lo + 1) / 2;
        proof {
            assert(lo < mid <= hi);
            lemma_mul_upper_bound(mid as int, 0x4000000000000000, mid as int, 0x4000000000000000);
        }
        if (mid as u128) * (mid as u128) <= x {
            lo = mid;
        } else {
            hi = mid - 1;
        }
    }
    lo
}

/// Absolute detection threshold on the correlation magnitude. It is an
/// amplitude-dependent constant, not normalised to signal energy: a known
/// fragility, kept deliberately simple.
pub const DETECTION_THRESHOLD: u64 = 20_000_000_000_000;

/// Whether the correlation of `taps` against `data` at offset `k` clears the
/// detection threshold.
pub open spec fn detected_s(data: Seq<i16>, taps: Seq<KernelTap>, k: int) -> bool {
    mag_sq_s(data, taps, k) >= (DETECTION_THRESHOLD + 1) * (DETECTION_THRESHOLD + 1)
}

/// Correlation magnitude of the kernel against the most recent window,
/// anchored at sample `anchor`.
pub fn detect(data: &Vec<i16>, kernel: &MatchedFilterKernel, anchor: usize) -> (mag: u64)
    requires
        kernel.wf(),
        anchor + kernel.taps.len() < data.len(),
    ensures
        (mag as int) * (mag as int) <= mag_sq_s(data@, kernel.taps@, anchor as int) < (mag as int
            + 1) * (mag as int + 1),
{
    let (re, im) = conv_at_k(data, kernel, anchor);
    proof {
        assert(0 <= (re as int) * (re as int) <= 0x4000000000000000000000000000000
            && 0 <= (im as int) * (im as int) <= 0x4000000000000000000000000000000)
            by (nonlinear_arith)
            requires
                -0x2000000000000000 <= re as int <= 0x2000000000000000,
                -0x2000000000000000 <= im as int <= 0x2000000000000000,
        ;
    }
    let ms: u128 = ((re as i128) * (re as i128)) as u128 + ((im as i128) * (im as i128)) as u128;
    isqrt(ms)
}

/// Whether a correlation magnitude counts as a confirmed pitch.
pub fn is_hit(mag: u64) -> (r: bool)
    ensures
        r == (mag > DETECTION_THRESHOLD),
{
    mag > DETECTION_THRESHOLD
}

/// Squared magnitude of one kernel tap.
pub open spec fn tap_energy(t: KernelTap) -> int {
    t.re * t.re + t.im * t.im
}

/// The Hann phase of an offset within the half window is at most a quarter
/// turn.
proof fn lemma_hann_phase_range(ws: int, k: int)
    requires
        2 <= ws,
        ws % 2 == 0,
        0 <= k <= ws / 2,
    ensures
        0 <= hann_phase(ws, k) <= 0x40000000,
{
    lemma_mul_inequality(k, ws / 2, 0x80000000int);
    assert((ws / 2) * 0x80000000 == ws * 0x40000000);
    lemma_div_is_ordered(0, k * 0x80000000, ws);
    lemma_div_is_ordered(k * 0x80000000, ws * 0x40000000, ws);
    lemma_div_multiples_vanish(0x40000000, ws);
}

/// Hann weights are nonnegative and peak at the centre tap: no offset
/// outweighs offset zero.
pub proof fn lemma_kernel_center_hann_max(ws: int, k: int)
    requires
        2 <= ws,
        ws % 2 == 0,
        0 <= k <= ws / 2,
    ensures
        0 <= hann_weight_s(ws, k) <= hann_weight_s(ws, 0),
{
    lemma_hann_phase_range(ws, k);
    lemma_hann_phase_range(ws, 0);
    lemma_div_multiples_vanish(0, ws);
    assert(hann_phase(ws, 0) == 0);
    vstd::arithmetic::div_mod::lemma_mod_bound(0x40000000int, 0x100000000int);
    lemma_small_mod_dsp(0x40000000int, 0x100000000int);
    assert(cos_turn_s(0) == sin_half_s(0x40000000));
    assert(0x40000000int * (0x80000000 - 0x40000000) == 0x1000000000000000);
    assert(0x1000000000000000int / 0x200000000000 == 32768);
    assert((7373int * 32768) / 32768 == 7373);
    assert(32768int * (25395 + 7373) == 0x40000000);
    assert(0x40000000int / 32768 == 32768);
    assert(sin_half_s(0x40000000) == 32768);
    assert(hann_weight_s(ws, 0) == 0x40000000int / ws);
    let hp = hann_phase(ws, k);
    lemma_small_mod_dsp(hp + 0x40000000, 0x100000000int);
    let c = cos_turn_s(hp);
    lemma_sin_turn_bounds(hp + 0x40000000);
    assert(0 <= c * c <= 0x40000000) by (nonlinear_arith)
        requires
            -32768 <= c <= 32768,
    ;
    lemma_div_is_ordered(0, c * c, ws);
    lemma_div_is_ordered(c * c, 0x40000000int, ws);
}

/// A nonnegative value below the modulus is its own remainder.
proof fn lemma_small_mod_dsp(x: int, m: int)
    requires
        0 <= x < m,
    ensures
        x % m == x,
{
    vstd::arithmetic::div_mod::lemma_small_mod(x as nat, m as nat);
}

/// Tap components stay within the tap limit of their window.
proof fn lemma_tap_component_bounds(ws: int, step: int, k: int)
    requires
        2 <= ws,
        ws % 2 == 0,
        0 <= step,
        -ws / 2 <= k <= ws / 2,
    ensures
        -tap_limit(ws + 1) <= tap_re_s(ws, step, k) <= tap_limit(ws + 1),
        -tap_limit(ws + 1) <= tap_im_s(ws, step, k) <= tap_limit(ws + 1),
{
    let ka = if k >= 0 {
        k
    } else {
        -k
    };
    lemma_kernel_center_hann_max(ws, ka);
    lemma_div_multiples_vanish(0, ws);
    assert(hann_phase(ws, 0) == 0);
    lemma_small_mod_dsp(0x40000000int, 0x100000000int);
    assert(hann_weight_s(ws, 0) == 0x40000000int / ws);
    let hw = hann_weight_s(ws, ka);
    let q = 0x40000000int / ws;
    vstd::arithmetic::div_mod::lemma_mod_bound(ka * step, 0x100000000int);
    let pt = carrier_phase(step, ka);
    lemma_sin_turn_bounds(pt);
    lemma_small_mod_dsp((pt + 0x40000000) % 0x100000000, 0x100000000int);
    vstd::arithmetic::div_mod::lemma_mod_bound(pt + 0x40000000, 0x100000000int);
    lemma_sin_turn_bounds((pt + 0x40000000) % 0x100000000);
    let s = sin_turn_s(pt);
    let c = cos_turn_s(pt);
    assert(-(q * 32768) <= hw * s <= q * 32768) by (nonlinear_arith)
        requires
            0 <= hw <= q,
            -32768 <= s <= 32768,
    ;
    assert(-(q * 32768) <= hw * c <= q * 32768) by (nonlinear_arith)
        requires
            0 <= hw <= q,
            -32768 <= c <= 32768,
    ;
}

/// The centre tap of a built kernel is the pure Hann peak: no real part, and
/// an imaginary part of the full centre Hann weight, which
/// `lemma_kernel_center_hann_max` shows no other offset outweighs.
pub proof fn lemma_kernel_center_tap(fs: int, f_mhz: int, periods: int)
    requires
        1 <= fs,
        1 <= periods,
        1 <= f_mhz < fs * 1000,
    ensures
        ({
            let ws = kernel_window_s(fs, f_mhz, periods);
            let taps = kernel_taps_s(fs, f_mhz, periods);
            &&& taps[ws / 2].re == 0
            &&& taps[ws / 2].im == hann_weight_s(ws, 0) * 32768
        }),
{
    let ws = kernel_window_s(fs, f_mhz, periods);
    let step = carrier_step_s(fs, f_mhz);
    let taps = kernel_taps_s(fs, f_mhz, periods);
    assert(ws % 2 == 0 && 2 <= ws) by {
        lemma_mul_inequality(1, periods, fs * 1000);
        assert(periods * (fs * 1000) == periods * fs * 1000) by (nonlinear_arith);
        lemma_div_is_ordered(f_mhz, periods * fs * 1000, f_mhz);
        lemma_div_multiples_vanish(1, f_mhz);
        assert(f_mhz * 1 == f_mhz);
    }
    assert(0 <= step) by {
        lemma_mul_inequality(0, f_mhz, 0x100000000int);
        lemma_div_is_ordered(0, f_mhz * 0x100000000, fs * 1000);
    }
    lemma_tap_component_bounds(ws, step, 0);
    assert(0 * step == 0);
    lemma_small_mod_dsp(0, 0x100000000int);
    assert(carrier_phase(step, 0) == 0);
    assert(0int * (0x80000000 - 0) == 0);
    assert(0int / 0x200000000000 == 0);
    assert((7373int * 0) / 32768 == 0);
    assert(0int * (25395 + 0) == 0);
    assert(0int / 32768 == 0);
    assert(sin_half_s(0) == 0);
    assert(sin_turn_s(0) == 0);
    assert(hann_weight_s(ws, 0) * 0 == 0);
    assert(tap_re_s(ws, step, 0) == 0);
    lemma_small_mod_dsp(0x40000000int, 0x100000000int);
    assert(cos_turn_s(0) == sin_half_s(0x40000000));
    assert(0x40000000int * (0x80000000 - 0x40000000) == 0x1000000000000000);
    assert(0x1000000000000000int / 0x200000000000 == 32768);
    assert((7373int * 32768) / 32768 == 7373);
    assert(32768int * (25395 + 7373) == 0x40000000);
    assert(0x40000000int / 32768 == 32768);
    assert(sin_half_s(0x40000000) == 32768);
    assert(tap_im_s(ws, step, 0) == hann_weight_s(ws, 0) * 32768);
    assert(taps[ws / 2].re == tap_re_s(ws, step, 0) as i64);
    assert(taps[ws / 2].im == tap_im_s(ws, step, 0) as i64);
}

/// Energy of the built kernel is symmetric about the centre tap, and the tap
/// count is odd: the mirrored tap carries the negated sine and the same
/// cosine, so its energy is unchanged.
pub proof fn lemma_kernel_energy_symmetric(fs: int, f_mhz: int, periods: int, j: int)
    requires
        1 <= fs,
        1 <= periods,
        1 <= f_mhz < fs * 1000,
        0 <= j < kernel_taps_s(fs, f_mhz, periods).len(),
    ensures
        kernel_taps_s(fs, f_mhz, periods).len() % 2 == 1,
        tap_energy(
            kernel_taps_s(fs, f_mhz, periods)[kernel_taps_s(fs, f_mhz, periods).len() - 1 - j],
        ) == tap_energy(kernel_taps_s(fs, f_mhz, periods)[j]),
{
    let ws = kernel_window_s(fs, f_mhz, periods);
    let step = carrier_step_s(fs, f_mhz);
    let taps = kernel_taps_s(fs, f_mhz, periods);
    assert(ws % 2 == 0 && 2 <= ws) by {
        lemma_mul_inequality(1, periods, fs * 1000);
        assert(periods * (fs * 1000) == periods * fs * 1000) by (nonlinear_arith);
        lemma_div_is_ordered(f_mhz, periods * fs * 1000, f_mhz);
        lemma_div_multiples_vanish(1, f_mhz);
        assert(f_mhz * 1 == f_mhz);
    }
    assert(0 <= step) by {
        lemma_mul_inequality(0, f_mhz, 0x100000000int);
        lemma_div_is_ordered(0, f_mhz * 0x100000000, fs * 1000);
    }
    let h = ws / 2;
    let ko = j - h;
    let km = (ws - j) - h;
    assert(km == -ko);
    lemma_tap_component_bounds(ws, step, ko);
    lemma_tap_component_bounds(ws, step, km);
    assert(taps[j].re == tap_re_s(ws, step, ko) && taps[j].im == tap_im_s(ws, step, ko));
    assert(taps[ws - j].re == tap_re_s(ws, step, km) && taps[ws - j].im == tap_im_s(ws, step, km));
    if ko == 0 {
        assert(0 * step == 0);
        lemma_small_mod_dsp(0, 0x100000000int);
        assert(carrier_phase(step, 0) == 0);
        assert(0int * (0x80000000 - 0) == 0);
        assert(0int / 0x200000000000 == 0);
        assert(sin_half_s(0) == 0);
        assert(sin_turn_s(0) == 0);
        assert(hann_weight_s(ws, 0) * 0 == 0);
        assert(tap_re_s(ws, step, 0) == 0);
    }
    assert(tap_re_s(ws, step, km) == -tap_re_s(ws, step, ko));
    assert(tap_im_s(ws, step, km) == tap_im_s(ws, step, ko));
    let a = tap_re_s(ws, step, ko);
    let b = tap_im_s(ws, step, ko);
    assert((-a) * (-a) + b * b == a * a + b * b) by (nonlinear_arith);
}

/// A floor square root clears a threshold exactly when the squared value
/// clears the squared successor of the threshold.
pub proof fn lemma_mag_threshold(mag: int, ms: int, t: int)
    requires
        0 <= mag,
        0 <= t,
        mag * mag <= ms < (mag + 1) * (mag + 1),
    ensures
        (mag > t) <==> ms >= (t + 1) * (t + 1),
{
    if mag > t {
        lemma_mul_inequality(t + 1, mag, t + 1);
        lemma_mul_inequality(t + 1, mag, mag);
    }
    if ms >= (t + 1) * (t + 1) {
        if mag <= t {
            lemma_mul_inequality(mag + 1, t + 1, mag + 1);
            lemma_mul_inequality(mag + 1, t + 1, t + 1);
        }
    }
}

} // verus!

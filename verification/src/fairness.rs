//! The fair-use priority calculator.
//!
//! The score of a request is
//! `base + wait_weight * wait_seconds - usage_weight * ln(1 + tokens / scale)`,
//! held in milli-units throughout. The natural logarithm is computed as
//! `ln(2) * log2`, where `log2` is a piecewise-linear base-2 logarithm in
//! steps of 1/65536: exact at powers of two and interpolated in between.
//! Higher scores dequeue first; between equal scores, the lighter user wins.

use vstd::arithmetic::div_mod::{
    lemma_div_is_ordered, lemma_div_multiples_vanish, lemma_multiply_divide_lt,
    lemma_fundamental_div_mod,
};
use vstd::arithmetic::mul::lemma_mul_inequality;
use vstd::arithmetic::power2::{
    lemma2_to64, lemma2_to64_rest, lemma_pow2_adds, lemma_pow2_pos, lemma_pow2_strictly_increases,
    pow2,
};
use vstd::prelude::*;

use crate::settings::FairnessSettings;

verus! {

/// A request's place in the waiting line: the fairness score, and the recent
/// token count as a tie-break (fewer recent tokens wins between equal scores).
#[derive(Debug, Clone, Copy, PartialEq, Eq, Structural)]
pub struct Priority {
    pub score_milli: i64,
    pub usage: u64,
}

/// `a` is dequeued in preference to `b`.
pub open spec fn spec_higher_priority(a: Priority, b: Priority) -> bool {
    a.score_milli > b.score_milli || (a.score_milli == b.score_milli && a.usage < b.usage)
}

pub fn higher_priority(a: &Priority, b: &Priority) -> (r: bool)
    ensures
        r == spec_higher_priority(*a, *b),
{
    a.score_milli > b.score_milli || (a.score_milli == b.score_milli && a.usage < b.usage)
}

// ---------------------------------------------------------------------------
// The fixed-point logarithm
// ---------------------------------------------------------------------------

/// Floor of the base-2 logarithm.
pub open spec fn spec_ilog2(x: nat) -> nat
    decreases x,
{
    if x < 2 {
        0
    } else {
        1 + spec_ilog2(x / 2)
    }
}

/// `1 + u / scale` in 1/65536 steps, where `scale` is in milli-units.
pub open spec fn spec_xfp(u: nat, scale_milli: nat) -> nat {
    65536 + (u * 65536000) / scale_milli
}

/// The leading 17 bits of `x`: `x` shifted down so that exactly one bit
/// stands above the low 16.
pub open spec fn spec_norm(x: nat) -> nat {
    x / pow2((spec_ilog2(x) - 16) as nat)
}

/// Piecewise-linear base-2 logarithm of `x / 65536`, in 1/65536 steps.
pub open spec fn spec_log2fp(x: nat) -> int {
    if x < 65536 {
        0
    } else {
        (spec_ilog2(x) - 16) * 65536 + spec_norm(x) - 65536
    }
}

/// `1000 * ln(1 + u / scale)`, via `ln(2) ~ 693147 / 1000000`.
pub open spec fn spec_ln_milli(u: nat, scale_milli: nat) -> int {
    spec_log2fp(spec_xfp(u, scale_milli)) * 693147 / 65536000
}

pub proof fn lemma_ilog2_bounds(x: nat)
    requires
        x >= 1,
    ensures
        pow2(spec_ilog2(x)) <= x < pow2(spec_ilog2(x) + 1),
    decreases x,
{
    lemma2_to64();
    if x < 2 {
        assert(spec_ilog2(x) == 0);
    } else {
        lemma_ilog2_bounds(x / 2);
        let k = spec_ilog2(x / 2);
        assert(spec_ilog2(x) == k + 1);
        lemma_pow2_adds(k, 1);
        lemma_pow2_adds(k + 1, 1);
        lemma_fundamental_div_mod(x as int, 2);
        assert(pow2(k + 1) == pow2(k) * 2);
        assert(pow2(k + 2) == pow2(k + 1) * 2);
    }
}

pub proof fn lemma_ilog2_monotone(a: nat, b: nat)
    requires
        1 <= a <= b,
    ensures
        spec_ilog2(a) <= spec_ilog2(b),
{
    lemma_ilog2_bounds(a);
    lemma_ilog2_bounds(b);
    if spec_ilog2(a) > spec_ilog2(b) {
        lemma_pow2_strictly_increases(spec_ilog2(b) + 1, spec_ilog2(a) + 1);
        assert(pow2(spec_ilog2(b) + 1) <= pow2(spec_ilog2(a))) by {
            if spec_ilog2(b) + 1 < spec_ilog2(a) {
                lemma_pow2_strictly_increases(spec_ilog2(b) + 1, spec_ilog2(a));
            }
        }
        assert(false);
    }
}

pub proof fn lemma_ilog2_ge16(x: nat)
    requires
        x >= 65536,
    ensures
        spec_ilog2(x) >= 16,
{
    lemma2_to64();
    lemma_ilog2_bounds(x);
    if spec_ilog2(x) < 16 {
        lemma_pow2_strictly_increases(spec_ilog2(x) + 1, 16);
        assert(pow2(spec_ilog2(x) + 1) <= 65536) by {
            if spec_ilog2(x) + 1 < 16 {
            } else {
                assert(spec_ilog2(x) + 1 == 16);
            }
        }
        assert(false);
    }
}

pub proof fn lemma_norm_bounds(x: nat)
    requires
        x >= 65536,
    ensures
        65536 <= spec_norm(x) < 131072,
{
    lemma2_to64();
    lemma_ilog2_ge16(x);
    lemma_ilog2_bounds(x);
    let k = spec_ilog2(x);
    let e = (k - 16) as nat;
    let d = pow2(e) as int;
    lemma_pow2_pos(e);
    lemma_pow2_adds(16, e);
    assert(pow2(k) == 65536 * pow2(e));
    lemma_pow2_adds(17, e);
    assert(pow2(k + 1) == pow2(17) * pow2(e)) by {
        lemma_pow2_adds(17, e);
        assert(17 + e == k + 1);
    }
    // Lower bound: x >= 65536 * d, so x / d >= 65536.
    lemma_div_multiples_vanish(65536, d);
    lemma_div_is_ordered(65536 * d, x as int, d);
    // Upper bound: x < 131072 * d, so x / d < 131072.
    assert(x < 131072 * d);
    lemma_multiply_divide_lt(x as int, d, 131072);
}

pub proof fn lemma_log2fp_nonneg(x: nat)
    ensures
        0 <= spec_log2fp(x),
{
    if x >= 65536 {
        lemma_ilog2_ge16(x);
        lemma_norm_bounds(x);
        let k = spec_ilog2(x);
        assert((k - 16) * 65536 >= 0) by (nonlinear_arith)
            requires
                k >= 16,
        ;
    }
}

pub proof fn lemma_log2fp_monotone(a: nat, b: nat)
    requires
        65536 <= a <= b,
    ensures
        spec_log2fp(a) <= spec_log2fp(b),
{
    let ka = spec_ilog2(a);
    let kb = spec_ilog2(b);
    lemma_ilog2_ge16(a);
    lemma_ilog2_ge16(b);
    lemma_ilog2_monotone(a, b);
    lemma_norm_bounds(a);
    lemma_norm_bounds(b);
    if ka == kb {
        lemma_pow2_pos((ka - 16) as nat);
        lemma_div_is_ordered(a as int, b as int, pow2((ka - 16) as nat) as int);
    } else {
        assert(ka < kb);
        assert((ka - 16) * 65536 + 65536 <= (kb - 16) * 65536) by (nonlinear_arith)
            requires
                16 <= ka < kb,
        ;
    }
}

pub proof fn lemma_ln_milli_monotone(u1: nat, u2: nat, scale_milli: nat)
    requires
        scale_milli >= 1,
        u1 <= u2,
    ensures
        0 <= spec_ln_milli(u1, scale_milli) <= spec_ln_milli(u2, scale_milli),
{
    let x1 = spec_xfp(u1, scale_milli);
    let x2 = spec_xfp(u2, scale_milli);
    lemma_mul_inequality(u1 as int, u2 as int, 65536000);
    lemma_div_is_ordered((u1 * 65536000) as int, (u2 * 65536000) as int, scale_milli as int);
    assert(x1 <= x2);
    lemma_log2fp_monotone(x1, x2);
    lemma_log2fp_nonneg(x1);
    lemma_mul_inequality(spec_log2fp(x1), spec_log2fp(x2), 693147);
    lemma_div_is_ordered(spec_log2fp(x1) * 693147, spec_log2fp(x2) * 693147, 65536000);
    vstd::arithmetic::div_mod::lemma_div_pos_is_pos(spec_log2fp(x1) * 693147, 65536000);
    assert(spec_log2fp(x1) * 693147 >= 0) by (nonlinear_arith)
        requires
            spec_log2fp(x1) >= 0,
    ;
}

pub proof fn lemma_ln_milli_zero(scale_milli: nat)
    requires
        scale_milli >= 1,
    ensures
        spec_ln_milli(0, scale_milli) == 0,
{
    lemma2_to64();
    assert((0 * 65536000) as int == 0);
    assert(spec_xfp(0, scale_milli) == 65536 + 0int / scale_milli as int);
    assert(spec_xfp(0, scale_milli) == 65536);
    reveal_with_fuel(spec_ilog2, 20);
    assert(spec_ilog2(65536) == 16);
    assert(spec_norm(65536) == 65536nat / pow2(0));
    assert(spec_log2fp(65536) == 0);
}

/// Bounds on the logarithm for any token count a machine can hold.
pub proof fn lemma_ln_milli_upper(u: nat, scale_milli: nat)
    requires
        scale_milli >= 1,
        u < pow2(64),
    ensures
        spec_xfp(u, scale_milli) < pow2(91),
        spec_log2fp(spec_xfp(u, scale_milli)) <= 4915199,
        0 <= spec_ln_milli(u, scale_milli) <= 53000,
{
    lemma2_to64();
    lemma2_to64_rest();
    let x = spec_xfp(u, scale_milli);
    assert(u * 65536000 < pow2(64) * 65536000) by (nonlinear_arith)
        requires
            u < pow2(64),
    ;
    lemma_div_is_ordered((u * 65536000) as int, (pow2(64) * 65536000) as int, scale_milli as int);
    assert((u * 65536000) / scale_milli <= u * 65536000) by {
        vstd::arithmetic::div_mod::lemma_div_is_ordered_by_denominator(
            (u * 65536000) as int,
            1,
            scale_milli as int,
        );
        vstd::arithmetic::div_mod::lemma_div_by_self(1);
        assert((u * 65536000) as int / 1 == u * 65536000);
    }
    lemma_pow2_adds(64, 27);
    assert(65536000 < pow2(27));
    assert(pow2(64) * 65536000 < pow2(64) * pow2(27)) by (nonlinear_arith)
        requires
            65536000 < pow2(27),
            pow2(64) > 0,
    ;
    assert(x < 65536 + pow2(91));
    lemma_pow2_adds(64, 26);
    assert(x < pow2(91) + 65536);
    // ilog2(x) <= 91, hence log2fp is bounded.
    if x >= 65536 {
        lemma_ilog2_bounds(x);
        lemma_ilog2_ge16(x);
        let k = spec_ilog2(x);
        assert(pow2(k) <= x);
        lemma_pow2_adds(91, 1);
        assert(x < pow2(92)) by {
            assert(65536 < pow2(91));
        }
        assert(k < 92) by {
            if k >= 92 {
                if k > 92 {
                    lemma_pow2_strictly_increases(92, k);
                }
                assert(pow2(92) <= pow2(k));
                assert(false);
            }
        }
        lemma_norm_bounds(x);
        assert(spec_log2fp(x) <= (91 - 16) * 65536 + 131071 - 65536) by (nonlinear_arith)
            requires
                16 <= k <= 91,
                spec_log2fp(x) == (k - 16) * 65536 + spec_norm(x) - 65536,
                spec_norm(x) < 131072,
        ;
        assert(spec_log2fp(x) <= 4915200 + 65535);
    }
    // x >= 65536 always holds.
    assert(x >= 65536);
    assert(spec_log2fp(x) <= 4980735);
    lemma_log2fp_nonneg(x);
    lemma_mul_inequality(spec_log2fp(x), 4980735, 693147);
    lemma_div_is_ordered(spec_log2fp(x) * 693147, 4980735int * 693147, 65536000);
    assert(4980735int * 693147 / 65536000 <= 53000);
    vstd::arithmetic::div_mod::lemma_div_pos_is_pos(spec_log2fp(x) * 693147, 65536000);
    assert(spec_log2fp(x) * 693147 >= 0) by (nonlinear_arith)
        requires
            spec_log2fp(x) >= 0,
    ;
}

// ---------------------------------------------------------------------------
// Executable logarithm
// ---------------------------------------------------------------------------

fn ilog2_u128(x: u128) -> (k: u32)
    requires
        x >= 1,
    ensures
        k as nat == spec_ilog2(x as nat),
        k <= 127,
{
    let mut v = x;
    let mut k: u32 = 0;
    proof {
        lemma2_to64();
    }
    while v >= 2
        invariant
            v >= 1,
            k <= 127,
            spec_ilog2(x as nat) == k + spec_ilog2(v as nat),
            pow2(k as nat) * v <= x,
        decreases v,
    {
        proof {
            lemma_pow2_adds(k as nat, 1);
            lemma2_to64();
            lemma_pow2_pos(k as nat);
            lemma_fundamental_div_mod(v as int, 2);
            assert(pow2(k as nat + 1) * ((v as nat) / 2) <= pow2(k as nat) * v) by (
            nonlinear_arith)
                requires
                    pow2(k as nat + 1) == pow2(k as nat) * 2,
                    2 * ((v as nat) / 2) <= v,
                    pow2(k as nat) > 0,
            ;
            assert(pow2(k as nat + 1) <= pow2(k as nat) * v) by (nonlinear_arith)
                requires
                    v >= 2,
                    pow2(k as nat + 1) == pow2(k as nat) * 2,
                    pow2(k as nat) > 0,
            ;
            assert(pow2(k as nat + 1) <= x);
            if k as nat + 1 > 127 {
                lemma2_to64_rest();
                lemma_pow2_adds(64, 64);
                if k as nat + 1 > 128 {
                    lemma_pow2_strictly_increases(128, k as nat + 1);
                }
                assert(pow2(128) <= pow2(k as nat + 1));
                assert(pow2(128) == 0x10000000000000000 * 0x10000000000000000);
                assert(false);
            }
        }
        v = v / 2;
        k = k + 1;
    }
    proof {
        assert(spec_ilog2(v as nat) == 0);
    }
    k
}

fn pow2_u128(e: u32) -> (r: u128)
    requires
        e <= 100,
    ensures
        r as nat == pow2(e as nat),
{
    let mut r: u128 = 1;
    let mut i: u32 = 0;
    proof {
        lemma2_to64();
    }
    while i < e
        invariant
            i <= e <= 100,
            r as nat == pow2(i as nat),
        decreases e - i,
    {
        proof {
            lemma_pow2_adds(i as nat, 1);
            lemma2_to64();
            if i as nat + 1 < 101 {
                lemma_pow2_strictly_increases(i as nat + 1, 101);
            }
            lemma_pow2_adds(64, 37);
            lemma2_to64_rest();
            assert(pow2(101) == pow2(64) * pow2(37));
        }
        r = r * 2;
        i = i + 1;
    }
    r
}

/// `1000 * ln(1 + u / scale)` rounded down, where `scale` is in milli-units.
pub fn ln_milli(u: u64, scale_milli: i64) -> (r: u64)
    requires
        scale_milli >= 1,
    ensures
        r as int == spec_ln_milli(u as nat, scale_milli as nat),
        r <= 53000,
{
    proof {
        lemma2_to64();
        lemma2_to64_rest();
        lemma_ln_milli_upper(u as nat, scale_milli as nat);
        assert((u as nat) < pow2(64));
    }
    let num: u128 = (u as u128) * 65536000;
    let x: u128 = 65536 + num / (scale_milli as u128);
    proof {
        assert(x as nat == spec_xfp(u as nat, scale_milli as nat));
        lemma_ilog2_ge16(x as nat);
        lemma_norm_bounds(x as nat);
    }
    let k = ilog2_u128(x);
    let d = pow2_u128(k - 16);
    proof {
        lemma_pow2_pos((k - 16) as nat);
    }
    let m = x / d;
    proof {
        assert(m as nat == spec_norm(x as nat));
        let kk = spec_ilog2(x as nat);
        assert(spec_log2fp(x as nat) == (kk - 16) * 65536 + m - 65536);
        assert((k - 16) as nat * 65536 <= (91 - 16) * 65536) by (nonlinear_arith)
            requires
                k as nat == kk,
                16 <= kk <= 91,
        {
        }
        assert(kk <= 91) by {
            lemma_ilog2_bounds(x as nat);
            lemma_pow2_adds(91, 1);
            assert(65536 < pow2(91));
            if kk >= 92 {
                if kk > 92 {
                    lemma_pow2_strictly_increases(92, kk);
                }
                assert(pow2(92) <= pow2(kk));
                assert(false);
            }
        }
    }
    let lf: u128 = ((k - 16) as u128) * 65536 + (m - 65536);
    proof {
        assert(lf as int == spec_log2fp(x as nat));
        assert(lf <= 4980735);
    }
    let r128: u128 = lf * 693147 / 65536000;
    proof {
        assert(r128 as int == spec_ln_milli(u as nat, scale_milli as nat));
    }
    r128 as u64
}

// ---------------------------------------------------------------------------
// The score
// ---------------------------------------------------------------------------

pub open spec fn clamp_i64(x: int) -> int {
    if x > i64::MAX {
        i64::MAX as int
    } else if x < i64::MIN {
        i64::MIN as int
    } else {
        x
    }
}

/// The usage penalty in milli-units.
pub open spec fn spec_penalty(s: FairnessSettings, u: nat) -> int {
    let ln = spec_ln_milli(u, s.usage_scale_milli as nat);
    if s.usage_weight_milli >= 0 {
        (s.usage_weight_milli * ln) / 1000
    } else {
        -(((-s.usage_weight_milli) * ln) / 1000)
    }
}

/// The score before clamping to the machine range.
pub open spec fn spec_raw_score(s: FairnessSettings, wait_seconds: nat, u: nat) -> int {
    s.base_priority_milli + s.wait_weight_milli * wait_seconds - spec_penalty(s, u)
}

/// The fairness score in milli-units, clamped to the machine range.
pub open spec fn spec_score(s: FairnessSettings, wait_seconds: nat, u: nat) -> int {
    clamp_i64(spec_raw_score(s, wait_seconds, u))
}

/// Computes a request's priority from the current settings, the time it has
/// already waited, and the caller's recent token usage.
pub fn calculate_priority(settings: &FairnessSettings, wait_seconds: u64, recent_tokens: u64) -> (p:
    Priority)
    requires
        settings.wf(),
    ensures
        p.score_milli as int == spec_score(*settings, wait_seconds as nat, recent_tokens as nat),
        p.usage == recent_tokens,
{
    let ln = ln_milli(recent_tokens, settings.usage_scale_milli);
    let uw = settings.usage_weight_milli;
    proof {
        assert((uw as int) * (ln as int) <= 0x8000_0000_0000_0000int * 53000 && (-(uw as int))
            * (ln as int) <= 0x8000_0000_0000_0000int * 53000) by (nonlinear_arith)
            requires
                -0x8000_0000_0000_0000 <= uw as int <= 0x7FFF_FFFF_FFFF_FFFF,
                0 <= ln as int <= 53000,
        ;
    }
    let pen_mag: u128 = if uw >= 0 {
        (uw as u128) * (ln as u128) / 1000
    } else {
        let mag: u128 = (-(uw as i128)) as u128;
        mag * (ln as u128) / 1000
    };
    proof {
        assert(pen_mag as int <= 0x8000_0000_0000_0000int * 53000 / 1000) by {
            let w: int = if uw >= 0 {
                uw as int
            } else {
                -(uw as int)
            };
            assert(w * (ln as int) <= 0x8000_0000_0000_0000int * 53000) by (nonlinear_arith)
                requires
                    0 <= w <= 0x8000_0000_0000_0000,
                    0 <= ln as int <= 53000,
            ;
            lemma_div_is_ordered(
                w * (ln as int),
                0x8000_0000_0000_0000int * 53000,
                1000,
            );
        }
    }
    let pen: i128 = if uw >= 0 {
        pen_mag as i128
    } else {
        -(pen_mag as i128)
    };
    proof {
        assert(pen as int == spec_penalty(
            *settings,
            recent_tokens as nat,
        ));
    }
    let base = settings.base_priority_milli as i128;
    let ww = settings.wait_weight_milli as i128;
    let w128 = wait_seconds as i128;
    proof {
        assert(ww * w128 <= 0x7FFF_FFFF_FFFF_FFFFi128 * 0xFFFF_FFFF_FFFF_FFFFi128 && ww * w128
            >= -0x8000_0000_0000_0000i128 * 0xFFFF_FFFF_FFFF_FFFFi128) by (nonlinear_arith)
            requires
                -0x8000_0000_0000_0000i128 <= ww <= 0x7FFF_FFFF_FFFF_FFFFi128,
                0 <= w128 <= 0xFFFF_FFFF_FFFF_FFFFi128,
        ;
    }
    let t1: i128 = base + ww * w128;
    let big: i128 = 0x40_0000_0000_0000_0000;  // 2^70
    let score: i64 = if t1 > big {
        i64::MAX
    } else if t1 < -big {
        i64::MIN
    } else {
        let s = t1 - pen;
        if s > i64::MAX as i128 {
            i64::MAX
        } else if s < i64::MIN as i128 {
            i64::MIN
        } else {
            s as i64
        }
    };
    Priority { score_milli: score, usage: recent_tokens }
}

// ---------------------------------------------------------------------------
// Laws
// ---------------------------------------------------------------------------

/// With no wait and no recent usage, the score is exactly the base priority.
pub proof fn lemma_priority_zero_is_base(s: FairnessSettings)
    requires
        s.wf(),
    ensures
        spec_score(s, 0, 0) == s.base_priority_milli,
{
    lemma_ln_milli_zero(s.usage_scale_milli as nat);
    assert(spec_penalty(s, 0) == 0);
    assert(spec_raw_score(s, 0, 0) == s.base_priority_milli);
}

/// With a positive wait weight the priority strictly rises with waiting,
/// as long as neither score saturates the machine range.
pub proof fn lemma_priority_increases_with_wait(s: FairnessSettings, w1: nat, w2: nat, u: nat)
    requires
        s.wf(),
        s.wait_weight_milli >= 1,
        w1 < w2,
        i64::MIN <= spec_raw_score(s, w1, u),
        spec_raw_score(s, w2, u) <= i64::MAX,
    ensures
        spec_score(s, w2, u) > spec_score(s, w1, u),
        spec_higher_priority(
            Priority { score_milli: spec_score(s, w2, u) as i64, usage: u as u64 },
            Priority { score_milli: spec_score(s, w1, u) as i64, usage: u as u64 },
        ),
{
    assert(s.wait_weight_milli * w1 + s.wait_weight_milli <= s.wait_weight_milli * w2)
        by (nonlinear_arith)
        requires
            s.wait_weight_milli >= 1,
            w1 < w2,
    ;
    assert(spec_raw_score(s, w1, u) < spec_raw_score(s, w2, u));
}

/// With a positive usage weight the priority strictly falls as recent usage
/// grows: the score never rises, and between equal scores the lighter user
/// ranks first.
pub proof fn lemma_priority_decreases_with_usage(s: FairnessSettings, w: nat, u1: u64, u2: u64)
    requires
        s.wf(),
        s.usage_weight_milli >= 1,
        u1 < u2,
    ensures
        spec_score(s, w, u2 as nat) <= spec_score(s, w, u1 as nat),
        spec_higher_priority(
            Priority { score_milli: spec_score(s, w, u1 as nat) as i64, usage: u1 },
            Priority { score_milli: spec_score(s, w, u2 as nat) as i64, usage: u2 },
        ),
{
    lemma_ln_milli_monotone(u1 as nat, u2 as nat, s.usage_scale_milli as nat);
    let l1 = spec_ln_milli(u1 as nat, s.usage_scale_milli as nat);
    let l2 = spec_ln_milli(u2 as nat, s.usage_scale_milli as nat);
    lemma_mul_inequality(l1, l2, s.usage_weight_milli as int);
    assert(s.usage_weight_milli * l1 == l1 * s.usage_weight_milli) by (nonlinear_arith);
    assert(s.usage_weight_milli * l2 == l2 * s.usage_weight_milli) by (nonlinear_arith);
    lemma_div_is_ordered(s.usage_weight_milli * l1, s.usage_weight_milli * l2, 1000);
    assert(spec_penalty(s, u1 as nat) <= spec_penalty(s, u2 as nat));
    assert(spec_raw_score(s, w, u2 as nat) <= spec_raw_score(s, w, u1 as nat));
}

} // verus!

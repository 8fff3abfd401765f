//! What the number formats promise: which patterns are numbers, that they are ordered by the values
//! they stand for, and that eight-bit floats are rounded to the nearest.
use crate::half::{
    e4m3_bits, e4m3_magnitude, e4m3_mid, e4m3_rounded, float_gt, float_units, fp8_block,
    fp8_block_count, is_finite, is_half_nan, is_infinite, is_nan, narrowed, nearest_code, order_key,
    widened,
};
use vstd::arithmetic::power2::{
    lemma2_to64, lemma_pow2_adds, lemma_pow2_pos, lemma_pow2_unfold, pow2,
};
use vstd::prelude::*;

verus! {

/// A pattern is no number where its exponent bits are all set and its mantissa bits are not all
/// clear, infinite where these are all clear, and finite otherwise.
pub proof fn law_patterns(u: u32)
    ensures
        is_nan(u) <==> (u >> 23) & 0xff == 0xff && u & 0x7f_ffff != 0,
        is_infinite(u) <==> (u >> 23) & 0xff == 0xff && u & 0x7f_ffff == 0,
        is_finite(u) <==> (u >> 23) & 0xff != 0xff,
{
    let m = u % 0x8000_0000u32;
    assert((m > 0x7f80_0000 <==> (u >> 23) & 0xff == 0xff && u & 0x7f_ffff != 0) && (m
        == 0x7f80_0000 <==> (u >> 23) & 0xff == 0xff && u & 0x7f_ffff == 0) && (m < 0x7f80_0000 <==> (u
        >> 23) & 0xff != 0xff)) by (bit_vector)
        requires
            m == u % 0x8000_0000u32,
    ;
}

/// The value of a pattern, in units of the smallest float.
pub open spec fn float_value(u: u32) -> int {
    if u < 0x8000_0000 {
        float_units(u as int)
    } else {
        -float_units(u - 0x8000_0000)
    }
}

proof fn lemma_units_step(m: int)
    requires
        0 <= m,
    ensures
        0 <= float_units(m) < float_units(m + 1),
{
    let e = m / 0x80_0000;
    let r = m % 0x80_0000;
    lemma2_to64();
    if r == 0x7f_ffff {
        assert((m + 1) / 0x80_0000 == e + 1 && (m + 1) % 0x80_0000 == 0);
        lemma_pow2_pos(e as nat);
        if e > 0 {
            let p = pow2((e - 1) as nat) as int;
            lemma_pow2_unfold(e as nat);
            lemma_pow2_pos((e - 1) as nat);
            assert(0x80_0000 * (2 * p) > (0x7f_ffff + 0x80_0000) * p) by (nonlinear_arith)
                requires
                    p > 0,
            ;
            assert((0x7f_ffff + 0x80_0000) * p >= 0) by (nonlinear_arith)
                requires
                    p > 0,
            ;
        }
    } else {
        assert((m + 1) / 0x80_0000 == e && (m + 1) % 0x80_0000 == r + 1);
        if e > 0 {
            let p = pow2((e - 1) as nat) as int;
            lemma_pow2_pos((e - 1) as nat);
            assert((r + 1 + 0x80_0000) * p > (r + 0x80_0000) * p && (r + 0x80_0000) * p >= 0)
                by (nonlinear_arith)
                requires
                    p > 0,
                    r >= 0,
            ;
        }
    }
}

/// Greater magnitudes have greater patterns.
proof fn lemma_units_grow(a: int, b: int)
    requires
        0 <= a <= b,
    ensures
        0 <= float_units(a) <= float_units(b),
        a < b ==> float_units(a) < float_units(b),
    decreases b - a,
{
    lemma_units_step(a);
    if a < b {
        lemma_units_grow(a, b - 1);
        lemma_units_step(b - 1);
    }
}

/// Patterns compare as the values that they stand for, and what is no number compares with nothing.
pub proof fn law_order_is_by_value(a: u32, b: u32)
    ensures
        order_key(a) < order_key(b) <==> float_value(a) < float_value(b),
        order_key(a) == order_key(b) <==> float_value(a) == float_value(b),
        float_gt(a, b) <==> !is_nan(a) && !is_nan(b) && float_value(a) > float_value(b),
{
    let ma = a as int % 0x8000_0000;
    let mb = b as int % 0x8000_0000;
    if ma <= mb {
        lemma_units_grow(ma, mb);
    } else {
        lemma_units_grow(mb, ma);
    }
    lemma_units_grow(0, ma);
    lemma_units_grow(0, mb);
    assert(float_units(0) == 0);
    lemma_signed_order(a, b, float_units(ma), float_units(mb));
}

/// Signed numbers compare by their magnitudes.
proof fn lemma_signed_order(a: u32, b: u32, fa: int, fb: int)
    requires
        fa == float_units(a as int % 0x8000_0000),
        fb == float_units(b as int % 0x8000_0000),
        0 <= fa,
        0 <= fb,
        fa == 0 <==> a as int % 0x8000_0000 == 0,
        fb == 0 <==> b as int % 0x8000_0000 == 0,
        a as int % 0x8000_0000 < b as int % 0x8000_0000 <==> fa < fb,
        a as int % 0x8000_0000 == b as int % 0x8000_0000 <==> fa == fb,
    ensures
        order_key(a) < order_key(b) <==> float_value(a) < float_value(b),
        order_key(a) == order_key(b) <==> float_value(a) == float_value(b),
{
    assert(float_value(a) == if a < 0x8000_0000 {
        fa
    } else {
        -fa
    });
    assert(float_value(b) == if b < 0x8000_0000 {
        fb
    } else {
        -fb
    });
}

/// Infinite halves widen to infinite floats of the same sign, and what is no number to what is none.
/// What is too great for a half, or no number, narrows to an infinite half of the same sign.
pub proof fn law_halves_at_the_edge(h: u16, u: u32)
    ensures
        h as int % 0x8000 == 0x7c00 ==> is_infinite(widened(h)) && widened(h) as int / 0x8000_0000
            == h as int / 0x8000,
        is_half_nan(h) ==> is_nan(widened(h)),
        is_infinite(u) || is_nan(u) ==> narrowed(u) as int % 0x8000 == 0x7c00 && narrowed(u) as int
            / 0x8000 == u as int / 0x8000_0000,
{
}

// Eight-bit floats

/// The value of an eight-bit float with four exponent bits and three mantissa bits, in units of the
/// smallest one.
pub open spec fn e4m3_units(code: int) -> int {
    if code < 8 {
        code
    } else {
        (8 + code % 8) * pow2((code / 8 - 1) as nat)
    }
}

proof fn lemma_split_pow(x: int, a: nat, b: nat)
    ensures
        x * pow2(a + b) == x * pow2(a) * pow2(b),
{
    lemma_pow2_adds(a, b);
    let p = pow2(a) as int;
    let q = pow2(b) as int;
    assert(x * (p * q) == x * p * q) by (nonlinear_arith);
}

/// Every code of an eight-bit float stands for the value that its exponent and mantissa say.
pub proof fn law_e4m3_value(code: int)
    requires
        0 <= code <= 126,
    ensures
        float_units(e4m3_bits(code) as int) == e4m3_units(code) * pow2(140),
        is_finite(e4m3_bits(code)),
{
    lemma2_to64();
    if code >= 8 {
        let e = code / 8;
        let m = code % 8;
        let bits = (code + 960) * 0x10_0000;
        assert(bits / 0x80_0000 == 120 + e && bits % 0x80_0000 == m * 0x10_0000);
        let p = pow2((119 + e) as nat) as int;
        assert((m * 0x10_0000 + 0x80_0000) * p == (8 + m) * 0x10_0000 * p) by (nonlinear_arith);
        lemma_split_pow(8 + m, 20, (119 + e) as nat);
        lemma_split_pow(8 + m, (e - 1) as nat, 140);
    } else if code == 0 {
        let p = pow2(140) as int;
        assert(0 * p == 0) by (nonlinear_arith);
    } else if code == 1 {
        lemma_split_pow(1, 23, 117);
    } else if code < 4 {
        let bits = 0x3b80_0000 + (code - 2) * 0x40_0000;
        assert(bits / 0x80_0000 == 119 && bits % 0x80_0000 == (code - 2) * 0x40_0000);
        lemma_split_pow(code, 22, 118);
    } else {
        let bits = 0x3c00_0000 + (code - 4) * 0x20_0000;
        assert(bits / 0x80_0000 == 120 && bits % 0x80_0000 == (code - 4) * 0x20_0000);
        lemma_split_pow(code, 21, 119);
    }
}

/// The border between two codes lies half way between their values.
pub proof fn law_e4m3_mid_is_half_way(code: int)
    requires
        0 <= code < 126,
    ensures
        2 * float_units(e4m3_mid(code) as int) == float_units(e4m3_bits(code) as int) + float_units(
            e4m3_bits(code + 1) as int,
        ),
{
    lemma2_to64();
    law_e4m3_value(code);
    law_e4m3_value(code + 1);
    let q = pow2(140) as int;
    let a = e4m3_units(code);
    let b = e4m3_units(code + 1);
    assert(a * q + b * q == (a + b) * q) by (nonlinear_arith);
    lemma_pow2_unfold(140);
    if code >= 8 {
        let e = code / 8;
        let m = code % 8;
        let bits = (code + 960) * 0x10_0000 + 0x8_0000;
        assert(bits / 0x80_0000 == 120 + e && bits % 0x80_0000 == m * 0x10_0000 + 0x8_0000);
        let p = pow2((119 + e) as nat) as int;
        assert((m * 0x10_0000 + 0x8_0000 + 0x80_0000) * p == (17 + 2 * m) * 0x8_0000 * p)
            by (nonlinear_arith);
        lemma_split_pow(17 + 2 * m, 19, (119 + e) as nat);
        lemma_split_pow(17 + 2 * m, (e - 1) as nat, 139);
        let r = pow2((e - 1) as nat) as int;
        let h = pow2(139) as int;
        if m < 7 {
            assert((code + 1) / 8 == e && (code + 1) % 8 == m + 1);
            assert((8 + m) * r + (9 + m) * r == (17 + 2 * m) * r) by (nonlinear_arith);
        } else {
            assert((code + 1) / 8 == e + 1 && (code + 1) % 8 == 0);
            lemma_pow2_unfold(e as nat);
            assert(15 * r + 8 * (2 * r) == 31 * r) by (nonlinear_arith);
        }
        assert(a + b == (17 + 2 * m) * r);
        let s = a + b;
        assert(s * (2 * h) == 2 * (s * h)) by (nonlinear_arith);
    } else {
        let h = pow2(139) as int;
        let s = a + b;
        assert((8 + 8int % 8) * pow2(0) == 8);
        assert(s == 2 * code + 1);
        assert(s * (2 * h) == 2 * (s * h)) by (nonlinear_arith);
        if code == 0 {
            lemma_split_pow(1, 23, 116);
        } else if code == 1 {
            lemma_split_pow(3, 22, 117);
        } else if code < 4 {
            let bits = 0x3ba0_0000 + (code - 2) * 0x40_0000;
            assert(bits / 0x80_0000 == 119 && bits % 0x80_0000 == (code - 2) * 0x40_0000
                + 0x20_0000);
            lemma_split_pow(2 * code + 1, 21, 118);
        } else {
            let bits = 0x3c10_0000 + (code - 4) * 0x20_0000;
            assert(bits / 0x80_0000 == 120 && bits % 0x80_0000 == (code - 4) * 0x20_0000
                + 0x10_0000);
            lemma_split_pow(2 * code + 1, 20, 119);
        }
    }
}

/// Greater codes have greater values.
proof fn lemma_codes_grow(a: int, b: int)
    requires
        0 <= a <= b <= 126,
    ensures
        float_units(e4m3_bits(a) as int) <= float_units(e4m3_bits(b) as int),
    decreases b - a,
{
    if a < b {
        lemma_codes_grow(a, b - 1);
        lemma_units_grow(e4m3_bits(b - 1) as int, e4m3_bits(b) as int);
    }
}

/// Rounding to an eight-bit float keeps the sign and gives the nearest value: no other code is
/// nearer. What is beyond the greatest value is taken as that.
pub proof fn law_e4m3_is_nearest(x: u32, r: u32, other: int)
    requires
        e4m3_rounded(x, r),
        !is_nan(x),
        0 <= other <= 126,
    ensures
        x as int % 0x8000_0000 <= 0x43e0_0000 ==> ({
            let f = float_units(x as int % 0x8000_0000);
            let v = float_units(r as int % 0x8000_0000);
            let w = float_units(e4m3_bits(other) as int);
            (if v <= f {
                f - v
            } else {
                v - f
            }) <= if w <= f {
                f - w
            } else {
                w - f
            }
        }),
        x as int % 0x8000_0000 > 0x43e0_0000 ==> r as int % 0x8000_0000 == 0x43e0_0000,
        x < 0x8000_0000 ==> r < 0x8000_0000,
        x > 0x8000_0000 ==> r >= 0x8000_0000,
{
    let mag = e4m3_magnitude(x);
    let code = choose|code: int|
        {
            &&& #[trigger] nearest_code(mag, code)
            &&& r == e4m3_bits(code) + if x >= 0x8000_0000 && !is_nan(x) && x != 0x8000_0000 {
                0x8000_0000int
            } else {
                0int
            }
        };
    assert(nearest_code(mag, code));
    law_e4m3_value(code);
    let n = e4m3_bits(code) as int;
    assert(r as int % 0x8000_0000 == n);
    let f = float_units(mag as int);
    let v = float_units(n);
    let w = float_units(e4m3_bits(other) as int);
    if code > 0 {
        law_e4m3_mid_is_half_way(code - 1);
        lemma_units_grow(e4m3_mid(code - 1) as int, mag as int);
        lemma_codes_grow(code - 1, code);
    }
    if code < 126 {
        law_e4m3_mid_is_half_way(code);
        lemma_units_grow(mag as int, e4m3_mid(code) as int);
        lemma_codes_grow(code, code + 1);
    } else {
        lemma_units_grow(mag as int, n);
    }
    if other < code {
        lemma_codes_grow(other, code - 1);
    } else if other > code {
        lemma_codes_grow(code + 1, other);
    }
    if x as int % 0x8000_0000 > 0x43e0_0000 {
        if code < 126 {
            lemma_mid_below(code);
        }
    }
}

proof fn lemma_mid_below(code: int)
    requires
        0 <= code < 126,
    ensures
        e4m3_mid(code) < 0x43e0_0000,
{
}

/// The blocks behind the rotary dimensions follow one another without a gap, have 64 dimensions but
/// for the last, and end where the row ends.
pub proof fn law_fp8_blocks_in_a_row(head_dim: usize, n_rot: usize, i: int)
    requires
        n_rot < head_dim,
        0 <= i < fp8_block_count(head_dim, n_rot),
    ensures
        fp8_block(head_dim, n_rot, 0).0 == n_rot,
        fp8_block(head_dim, n_rot, i).0 < fp8_block(head_dim, n_rot, i).1,
        i + 1 < fp8_block_count(head_dim, n_rot) ==> fp8_block(head_dim, n_rot, i + 1).0
            == fp8_block(head_dim, n_rot, i).1 && fp8_block(head_dim, n_rot, i).1 - fp8_block(
            head_dim,
            n_rot,
            i,
        ).0 == 64,
        i + 1 == fp8_block_count(head_dim, n_rot) ==> fp8_block(head_dim, n_rot, i).1 == head_dim
            && fp8_block(head_dim, n_rot, i).1 - fp8_block(head_dim, n_rot, i).0 <= 64,
{
}

} // verus!

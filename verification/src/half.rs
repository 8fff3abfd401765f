//! Floating-point numbers as bit patterns: half precision, rounding to eight-bit floats, order.
use vstd::arithmetic::power2::{
    lemma2_to64, lemma_pow2_adds, lemma_pow2_pos, lemma_pow2_strictly_increases, lemma_pow2_unfold,
    pow2,
};
use vstd::bits::lemma_u32_shr_is_div;
use vstd::prelude::*;

verus! {

/// The bits of the 32-bit float `mant * 2^-24`, for `mant` from 1 to 1023: its highest bit moves into
/// the exponent, and the others to the top of the fraction.
pub open spec fn tiny_bits(mant: int) -> int {
    if mant < 0x2 {
        102 * 0x80_0000 + mant * 0x80_0000
    } else if mant < 0x4 {
        103 * 0x80_0000 + mant * 0x40_0000
    } else if mant < 0x8 {
        104 * 0x80_0000 + mant * 0x20_0000
    } else if mant < 0x10 {
        105 * 0x80_0000 + mant * 0x10_0000
    } else if mant < 0x20 {
        106 * 0x80_0000 + mant * 0x80000
    } else if mant < 0x40 {
        107 * 0x80_0000 + mant * 0x40000
    } else if mant < 0x80 {
        108 * 0x80_0000 + mant * 0x20000
    } else if mant < 0x100 {
        109 * 0x80_0000 + mant * 0x10000
    } else if mant < 0x200 {
        110 * 0x80_0000 + mant * 0x8000
    } else {
        111 * 0x80_0000 + mant * 0x4000
    }
}

/// The 32-bit float that a half stands for, as bit patterns. Every half but NaN has one, and every
/// NaN becomes the quiet NaN.
pub open spec fn widened(h: u16) -> u32 {
    let sign = h as int / 0x8000;
    let exp = h as int / 0x400 % 32;
    let mant = h as int % 0x400;
    if exp == 0 && mant == 0 {
        (sign * 0x8000_0000) as u32
    } else if exp == 0 {
        (sign * 0x8000_0000 + tiny_bits(mant)) as u32
    } else if exp < 31 {
        (sign * 0x8000_0000 + (exp + 112) * 0x80_0000 + mant * 0x2000) as u32
    } else if mant == 0 {
        (sign * 0x8000_0000 + 0x7f80_0000) as u32
    } else {
        0x7fc0_0000
    }
}

/// Find the bits of `mant * 2^-24`.
fn make_tiny(mant: u32) -> (r: u32)
    requires
        1 <= mant < 0x400,
    ensures
        r == tiny_bits(mant as int),
        r < 0x4000_0000,
{
    let mut top: u32 = 0x200;
    let mut field: u32 = 111;
    let mut unit: u32 = 0x4000;
    while mant < top
        invariant
            1 <= mant < 2 * top,
            top == 0x200 && field == 111 && unit == 0x4000 || top == 0x100 && field == 110 && unit
                == 0x8000 || top == 0x80 && field == 109 && unit == 0x1_0000 || top == 0x40
                && field == 108 && unit == 0x2_0000 || top == 0x20 && field == 107 && unit
                == 0x4_0000 || top == 0x10 && field == 106 && unit == 0x8_0000 || top == 8 && field
                == 105 && unit == 0x10_0000 || top == 4 && field == 104 && unit == 0x20_0000 || top
                == 2 && field == 103 && unit == 0x40_0000 || top == 1 && field == 102 && unit
                == 0x80_0000,
        decreases top,
    {
        top = top / 2;
        field = field - 1;
        unit = unit * 2;
    }
    assert(mant * unit < 0x100_0000) by (nonlinear_arith)
        requires
            mant < 2 * top,
            top * unit == 0x80_0000,
            unit > 0,
    ;
    field * 0x80_0000 + mant * unit
}

/// Convert a half to the bit pattern of a 32-bit float.
pub fn f16_to_f32(h: u16) -> (r: u32)
    ensures
        r == widened(h),
{
    let sign: u32 = (h / 0x8000) as u32;
    let exp: u32 = (h / 0x400 % 32) as u32;
    let mant: u32 = (h % 0x400) as u32;
    if exp == 0 && mant == 0 {
        sign * 0x8000_0000
    } else if exp == 0 {
        sign * 0x8000_0000 + make_tiny(mant)
    } else if exp < 31 {
        sign * 0x8000_0000 + (exp + 112) * 0x80_0000 + mant * 0x2000
    } else if mant == 0 {
        sign * 0x8000_0000 + 0x7f80_0000
    } else {
        0x7fc0_0000
    }
}

/// `x / 2^s`, rounded to the nearest integer, halves up.
pub open spec fn rounded_shift(x: int, s: nat) -> int {
    (x + pow2(s) / 2) / pow2(s) as int
}

/// The half nearest to a 32-bit float, as bit patterns, ties away from zero. What is too large, NaN
/// among it, becomes infinity of its sign, what is too small becomes zero of its sign.
pub open spec fn narrowed(u: u32) -> u16 {
    let sign = u as int / 0x8000_0000 * 0x8000;
    let mag = u as int % 0x8000_0000;
    let exp = mag / 0x80_0000 - 112;
    let mant = mag % 0x80_0000;
    if exp >= 31 {
        (sign + 0x7c00) as u16
    } else if exp >= 1 {
        (sign + rounded_shift(mag - 112 * 0x80_0000, 13)) as u16
    } else if exp >= -10 {
        (sign + rounded_shift(mant + 0x80_0000, (14 - exp) as nat)) as u16
    } else {
        sign as u16
    }
}

proof fn lemma_rounded_shift(x: u32, s: u32)
    requires
        1 <= s <= 24,
        x < 0x8000_0000,
    ensures
        pow2(s as nat) <= 0x100_0000,
        pow2((s - 1) as nat) == pow2(s as nat) / 2,
        rounded_shift(x as int, s as nat) == x as int / pow2(s as nat) as int + (x as int / pow2(
            (s - 1) as nat,
        ) as int) % 2,
        x >> s == x as int / pow2(s as nat) as int,
        x >> ((s - 1) as u32) == x as int / pow2((s - 1) as nat) as int,
{
    lemma2_to64();
    lemma_pow2_pos(s as nat);
    lemma_pow2_pos((s - 1) as nat);
    lemma_pow2_unfold(s as nat);
    if s < 24 {
        lemma_pow2_strictly_increases(s as nat, 24);
    }
    lemma_u32_shr_is_div(x, s);
    lemma_u32_shr_is_div(x, (s - 1) as u32);
    let h = pow2((s - 1) as nat) as int;
    let p = pow2(s as nat) as int;
    let a = x as int;
    assert(p == 2 * h);
    let q = a / h;
    let r = a % h;
    assert(a == h * q + r && 0 <= r < h) by (nonlinear_arith)
        requires
            h > 0,
            q == a / h,
            r == a % h,
    ;
    let k = q / 2;
    let b = q % 2;
    assert(a / p == k) by (nonlinear_arith)
        requires
            h > 0,
            p == 2 * h,
            a == h * q + r,
            0 <= r < h,
            q == 2 * k + b,
            b == 0 || b == 1,
    ;
    assert((a + h) / p == k + b) by (nonlinear_arith)
        requires
            h > 0,
            p == 2 * h,
            a == h * q + r,
            0 <= r < h,
            q == 2 * k + b,
            b == 0 || b == 1,
    ;
}

/// Convert the bit pattern of a 32-bit float to the nearest half.
pub fn f32_to_f16(u: u32) -> (r: u16)
    ensures
        r == narrowed(u),
{
    let sign: u32 = u / 0x8000_0000 * 0x8000;
    let mag: u32 = u % 0x8000_0000;
    let field: u32 = mag / 0x80_0000;
    let mant: u32 = mag % 0x80_0000;
    if field >= 143 {
        (sign + 0x7c00) as u16
    } else if field >= 113 {
        let x: u32 = mag - 112 * 0x80_0000;
        proof {
            lemma2_to64();
            assert(pow2(13) == 0x2000);
        }
        (sign + (x + 0x1000) / 0x2000) as u16
    } else if field >= 102 {
        let x: u32 = mant + 0x80_0000;
        let s: u32 = 126 - field;
        proof {
            lemma_rounded_shift(x, s);
            lemma_pow2_pos(s as nat);
            lemma2_to64();
            if s > 14 {
                lemma_pow2_strictly_increases(14, s as nat);
            }
            assert(pow2(14) == 0x4000);
            let q = x as int / pow2(s as nat) as int;
            assert(0 <= q <= 0x3ff) by (nonlinear_arith)
                requires
                    x < 0x100_0000,
                    pow2(s as nat) >= 0x4000,
                    q == x as int / pow2(s as nat) as int,
            ;
        }
        let base: u32 = x >> s;
        let half: u32 = (x >> (s - 1)) % 2;
        (sign + base + half) as u16
    } else {
        sign as u16
    }
}

/// Taken apart, the bits of `mant * 2^-24` are an exponent `e` and a fraction that stands for
/// `mant * 2^(126 - e)`.
proof fn lemma_tiny_bits(mant: int)
    requires
        1 <= mant < 0x400,
    ensures
        ({
            let mag = tiny_bits(mant);
            let e = mag / 0x80_0000;
            &&& 0 < mag < 0x4000_0000
            &&& 103 <= e <= 112
            &&& mag % 0x80_0000 + 0x80_0000 == mant * pow2((126 - e) as nat)
            &&& pow2((126 - e) as nat) >= 0x4000
        }),
{
    lemma2_to64();
    assert(pow2(14) == 0x4000 && pow2(15) == 0x8000 && pow2(16) == 0x1_0000 && pow2(17) == 0x2_0000
        && pow2(18) == 0x4_0000 && pow2(19) == 0x8_0000 && pow2(20) == 0x10_0000 && pow2(21)
        == 0x20_0000 && pow2(22) == 0x40_0000 && pow2(23) == 0x80_0000);
}

/// A half that is no number.
pub open spec fn is_half_nan(h: u16) -> bool {
    h as int % 0x8000 > 0x7c00
}

/// Widening a half and narrowing the result gives the half back, unless it is NaN.
pub proof fn law_half_round_trip(h: u16)
    requires
        !is_half_nan(h),
    ensures
        narrowed(widened(h)) == h,
{
    lemma2_to64();
    assert(pow2(13) == 0x2000);
    let u = widened(h);
    let sign = h as int / 0x8000;
    let exp = h as int / 0x400 % 32;
    let mant = h as int % 0x400;
    assert(h == sign * 0x8000 + exp * 0x400 + mant);
    assert(0 <= sign <= 1);
    if exp == 0 && mant == 0 {
        assert(u as int % 0x8000_0000 == 0);
    } else if exp == 0 {
        let mag = tiny_bits(mant);
        lemma_tiny_bits(mant);
        assert(u as int % 0x8000_0000 == mag);
        assert(u as int / 0x8000_0000 == sign);
        let p = pow2((126 - mag / 0x80_0000) as nat) as int;
        assert((mant * p + p / 2) / p == mant) by (nonlinear_arith)
            requires
                p >= 2,
        ;
    } else if exp < 31 {
        let mag = (exp + 112) * 0x80_0000 + mant * 0x2000;
        assert(u as int % 0x8000_0000 == mag);
        assert(u as int / 0x8000_0000 == sign);
        assert(rounded_shift(mag - 112 * 0x80_0000, 13) == exp * 0x400 + mant);
    } else {
        assert(u as int % 0x8000_0000 == 0x7f80_0000);
    }
}

// What bit patterns stand for

/// The magnitude of a 32-bit float in units of `2^-149`, its least step. The sign bit is left off.
pub open spec fn float_units(mag: int) -> int {
    let e = mag / 0x80_0000;
    let m = mag % 0x80_0000;
    if e == 0 {
        m
    } else {
        (m + 0x80_0000) * pow2((e - 1) as nat)
    }
}

/// The magnitude of a half in units of `2^-24`, its least step. The sign bit is left off.
pub open spec fn half_units(mag: int) -> int {
    let e = mag / 0x400;
    let m = mag % 0x400;
    if e == 0 {
        m
    } else {
        (m + 0x400) * pow2((e - 1) as nat)
    }
}

/// How many of the steps of a 32-bit float make a step of a half: `2^125`.
pub open spec fn half_step() -> int {
    pow2(125) as int
}

/// `x * 2^a * 2^b == x * 2^(a + b)`.
proof fn lemma_scale(x: int, a: nat, b: nat)
    ensures
        x * pow2(a) * pow2(b) == x * pow2(a + b),
{
    lemma_pow2_adds(a, b);
    let p = pow2(a) as int;
    let q = pow2(b) as int;
    assert(x * p * q == x * (p * q)) by (nonlinear_arith);
}

/// Widening is exact: every finite half and the 32-bit float that it becomes have the same sign and
/// the same magnitude.
pub proof fn law_widening_is_exact(h: u16)
    requires
        h as int % 0x8000 < 0x7c00,
    ensures
        widened(h) as int / 0x8000_0000 == h as int / 0x8000,
        float_units(widened(h) as int % 0x8000_0000) == half_units(h as int % 0x8000) * half_step(),
{
    let hm = h as int % 0x8000;
    let exp = hm / 0x400;
    let mant = hm % 0x400;
    let u = widened(h);
    assert(h as int / 0x400 % 32 == exp && h as int % 0x400 == mant);
    let mag = u as int % 0x8000_0000;
    if exp == 0 && mant == 0 {
        assert(mag == 0);
        let p = half_step();
        assert(0 * p == 0) by (nonlinear_arith);
    } else if exp == 0 {
        lemma_tiny_bits(mant);
        assert(mag == tiny_bits(mant));
        let e = mag / 0x80_0000;
        lemma_scale(mant, (126 - e) as nat, (e - 1) as nat);
    } else {
        assert(mag == (exp + 112) * 0x80_0000 + mant * 0x2000);
        assert(mag / 0x80_0000 == exp + 112);
        assert(mag % 0x80_0000 == mant * 0x2000);
        lemma2_to64();
        assert(pow2(13) == 0x2000);
        lemma_scale(mant + 0x400, 13, (exp + 111) as nat);
        lemma_scale(mant + 0x400, (exp - 1) as nat, 125);
        assert(float_units(mag) == (mant + 0x400) * 0x2000 * pow2((exp + 111) as nat));
    }
}

/// A larger half stands for more.
proof fn lemma_half_units_grow(a: int, b: int)
    requires
        0 <= a < b,
    ensures
        half_units(a) < half_units(b),
{
    let (ea, ma) = (a / 0x400, a % 0x400);
    let (eb, mb) = (b / 0x400, b % 0x400);
    if ea == eb {
        if ea > 0 {
            lemma_pow2_pos((ea - 1) as nat);
            let p = pow2((ea - 1) as nat) as int;
            assert((ma + 0x400) * p < (mb + 0x400) * p) by (nonlinear_arith)
                requires
                    ma < mb,
                    p > 0,
            ;
        }
    } else {
        let q = pow2((eb - 1) as nat) as int;
        lemma_pow2_pos((eb - 1) as nat);
        assert((mb + 0x400) * q >= 0x400 * q) by (nonlinear_arith)
            requires
                mb >= 0,
                q > 0,
        ;
        if ea == 0 {
            assert(0x400 * q >= 0x400) by (nonlinear_arith)
                requires
                    q > 0,
            ;
        } else {
            let p = pow2((ea - 1) as nat) as int;
            lemma_pow2_pos((ea - 1) as nat);
            lemma_pow2_unfold(ea as nat);
            if ea < eb - 1 {
                lemma_pow2_strictly_increases(ea as nat, (eb - 1) as nat);
            }
            assert((ma + 0x400) * p < 0x400 * q) by (nonlinear_arith)
                requires
                    0 <= ma < 0x400,
                    p > 0,
                    q >= 2 * p,
            ;
        }
    }
}

/// The step from a half to the next one.
proof fn lemma_half_step_up(m: int)
    requires
        m >= 0x400,
    ensures
        half_units(m + 1) - half_units(m) == pow2((m / 0x400 - 1) as nat),
{
    let e = m / 0x400;
    let r = m % 0x400;
    let p = pow2((e - 1) as nat) as int;
    if r == 0x3ff {
        assert((m + 1) / 0x400 == e + 1 && (m + 1) % 0x400 == 0);
        lemma_pow2_unfold(e as nat);
        assert(0x400 * (2 * p) - 0x7ff * p == p) by (nonlinear_arith);
        assert(0x400 * pow2(e as nat) == 0x400 * (2 * p));
    } else {
        assert((m + 1) / 0x400 == e && (m + 1) % 0x400 == r + 1);
        assert((r + 1 + 0x400) * p - (r + 0x400) * p == p) by (nonlinear_arith);
    }
}

/// The half with magnitude `n` is near: below it is less than half a step away, above it no more
/// than half a step.
pub open spec fn near(mag: int, n: int) -> bool {
    let f = float_units(mag);
    let v = half_units(n) * half_step();
    ||| v <= f && 2 * (f - v) < (half_units(n + 1) - half_units(n)) * half_step()
    ||| f < v && n >= 1 && 2 * (v - f) <= (half_units(n) - half_units(n - 1)) * half_step()
}

/// The magnitude that narrowing gives.
pub open spec fn narrowed_mag(mag: int) -> int {
    let exp = mag / 0x80_0000 - 112;
    if exp >= 1 {
        rounded_shift(mag - 112 * 0x80_0000, 13)
    } else if exp >= -10 {
        rounded_shift(mag % 0x80_0000 + 0x80_0000, (14 - exp) as nat)
    } else {
        0
    }
}

proof fn lemma_near_normal(mag: int)
    requires
        113 <= mag / 0x80_0000 < 143,
    ensures
        near(mag, narrowed_mag(mag)),
        0x400 <= narrowed_mag(mag) <= 0x7c00,
{
    lemma2_to64();
    assert(pow2(13) == 0x2000);
    let e = mag / 0x80_0000;
    let x = mag - 112 * 0x80_0000;
    let lo = x / 0x2000;
    let r = x % 0x2000;
    let n = narrowed_mag(mag);
    assert(n == if r < 0x1000 {
        lo
    } else {
        lo + 1
    });
    let exp = e - 112;
    let m = lo % 0x400;
    assert(lo / 0x400 == exp);
    assert(mag % 0x80_0000 == m * 0x2000 + r);
    let g = pow2((exp - 1) as nat) as int;
    let q = pow2((e - 1) as nat) as int;
    let p = half_step();
    lemma_pow2_pos((e - 1) as nat);
    lemma_scale(1, 13, (e - 1) as nat);
    lemma_scale(1, (exp - 1) as nat, 125);
    assert(0x2000 * q == g * p);
    lemma_half_step_up(lo);
    let v = (m + 0x400) * g;
    assert(v * p == (m + 0x400) * (0x2000 * q)) by (nonlinear_arith)
        requires
            v == (m + 0x400) * g,
            0x2000 * q == g * p,
    ;
    assert((m * 0x2000 + r + 0x80_0000) * q == (m + 0x400) * (0x2000 * q) + r * q)
        by (nonlinear_arith);
    assert((v + g) * p == v * p + g * p) by (nonlinear_arith);
    assert(half_units(lo) == v && half_units(lo + 1) == v + g);
    let f = float_units(mag);
    assert(f == v * p + r * q);
    if r < 0x1000 {
        assert(0 <= r * q && 2 * (r * q) < 0x2000 * q) by (nonlinear_arith)
            requires
                0 <= r < 0x1000,
                q > 0,
        ;
    } else {
        assert(r * q < 0x2000 * q && 2 * (0x2000 * q - r * q) <= 0x2000 * q) by (nonlinear_arith)
            requires
                0x1000 <= r < 0x2000,
                q > 0,
        ;
    }
}

proof fn lemma_near_tiny(mag: int)
    requires
        0 <= mag / 0x80_0000 < 113,
    ensures
        near(mag, narrowed_mag(mag)),
        0 <= narrowed_mag(mag) <= 0x400,
{
    let e = mag / 0x80_0000;
    let m = mag % 0x80_0000;
    let p = half_step();
    let n = narrowed_mag(mag);
    let f = float_units(mag);
    lemma2_to64();
    lemma_pow2_pos(0);
    assert(half_units(0x401) == 0x401 && half_units(0x400) == 0x400);
    if e >= 102 {
        let s = (126 - e) as nat;
        let x = m + 0x80_0000;
        let w = pow2(s) as int;
        let q = pow2((e - 1) as nat) as int;
        lemma_pow2_unfold(s);
        lemma_pow2_pos((s - 1) as nat);
        lemma_pow2_pos((e - 1) as nat);
        lemma_scale(1, s, (e - 1) as nat);
        assert(w * q == p);
        if s > 14 {
            lemma_pow2_strictly_increases(14, s);
        }
        assert(pow2(14) == 0x4000);
        let k = w / 2;
        assert(w == 2 * k);
        assert(-k < n * w - x <= k && 0 <= n <= 0x400) by (nonlinear_arith)
            requires
                n == (x + k) / w,
                w == 2 * k,
                w >= 0x4000,
                0x80_0000 <= x < 0x100_0000,
        ;
        assert(n * p == n * w * q) by (nonlinear_arith)
            requires
                p == w * q,
        ;
        assert(n * w * q - x * q == (n * w - x) * q) by (nonlinear_arith);
        let d = n * w - x;
        assert(2 * (d * q) <= p && -p < 2 * (d * q)) by (nonlinear_arith)
            requires
                -k < d <= k,
                p == 2 * k * q,
                q > 0,
        ;
        assert(d > 0 ==> d * q > 0) by (nonlinear_arith)
            requires
                q > 0,
        ;
        assert(d <= 0 ==> d * q <= 0) by (nonlinear_arith)
            requires
                q > 0,
        ;
        assert(f == x * q);
        assert(half_units(n) == n);
        if n >= 1 {
            assert(half_units(n - 1) == n - 1);
        }
        assert(half_units(n + 1) == n + 1);
        if d > 0 {
            assert(n >= 1) by (nonlinear_arith)
                requires
                    d == n * w - x,
                    d > 0,
                    x > 0,
                    w > 0,
            ;
        }
    } else {
        assert(half_units(0) == 0 && half_units(1) == 1);
        lemma_pow2_pos(125);
        lemma_scale(1, 25, 100);
        assert(0x200_0000 * pow2(100) == p);
        lemma_pow2_pos(100);
        if e == 0 {
            assert(2 * m < 0x200_0000 * pow2(100)) by (nonlinear_arith)
                requires
                    m < 0x80_0000,
                    pow2(100) > 0,
            ;
        } else {
            let q = pow2((e - 1) as nat) as int;
            lemma_pow2_pos((e - 1) as nat);
            if e - 1 < 100 {
                lemma_pow2_strictly_increases((e - 1) as nat, 100);
            }
            assert(0 <= (m + 0x80_0000) * q && 2 * ((m + 0x80_0000) * q) < 0x200_0000 * pow2(100))
                by (nonlinear_arith)
                requires
                    0 <= m < 0x80_0000,
                    0 < q <= pow2(100),
            ;
        }
    }
}

/// No half is nearer than one that is near, and of two that are as near it is the larger one.
proof fn lemma_near_is_nearest(mag: int, n: int, other: int)
    requires
        near(mag, n),
        0 <= n,
        0 <= other,
        other != n,
    ensures
        ({
            let f = float_units(mag);
            let v = half_units(n) * half_step();
            let w = half_units(other) * half_step();
            let d = if v <= f {
                f - v
            } else {
                v - f
            };
            &&& w <= f ==> d < f - w || d == f - w && other < n
            &&& f < w ==> d < w - f
        }),
{
    let p = half_step();
    lemma_pow2_pos(125);
    let (a, b) = (half_units(n), half_units(other));
    let v = a * p;
    let w = b * p;
    if other < n {
        lemma_half_units_grow(other, n);
        if other < n - 1 {
            lemma_half_units_grow(other, n - 1);
        }
        let c = half_units(n - 1);
        assert(w <= c * p && w < v && (a - c) * p == v - c * p) by (nonlinear_arith)
            requires
                b <= c,
                b < a,
                v == a * p,
                w == b * p,
                p > 0,
        ;
    } else {
        lemma_half_units_grow(n, other);
        if n + 1 < other {
            lemma_half_units_grow(n + 1, other);
        }
        let c = half_units(n + 1);
        assert(c * p <= w && v < w && (c - a) * p == c * p - v) by (nonlinear_arith)
            requires
                c <= b,
                a < b,
                v == a * p,
                w == b * p,
                p > 0,
        ;
    }
}

/// Narrowing gives the nearest half, with the sign of the number: no other half is nearer, and where
/// another one is as near it is the one closer to zero. From halfway between the greatest half and
/// the power of two behind it on, the result is infinity.
pub proof fn law_narrowed_is_nearest(u: u32, other: u16)
    requires
        !is_nan(u),
        other as int % 0x8000 < 0x7c00,
    ensures
        narrowed(u) as int / 0x8000 == u as int / 0x8000_0000,
        u as int % 0x8000_0000 >= 0x477f_f000 ==> narrowed(u) as int % 0x8000 == 0x7c00,
        u as int % 0x8000_0000 < 0x477f_f000 ==> {
            let n = narrowed(u) as int % 0x8000;
            let m = other as int % 0x8000;
            let f = float_units(u as int % 0x8000_0000);
            let v = half_units(n) * half_step();
            let w = half_units(m) * half_step();
            let d = if v <= f {
                f - v
            } else {
                v - f
            };
            &&& n < 0x7c00
            &&& m != n && w <= f ==> d < f - w || d == f - w && m < n
            &&& m != n && f < w ==> d < w - f
        },
{
    lemma2_to64();
    assert(pow2(13) == 0x2000);
    let mag = u as int % 0x8000_0000;
    let e = mag / 0x80_0000;
    let m = other as int % 0x8000;
    let n = narrowed_mag(mag);
    if e < 113 {
        lemma_near_tiny(mag);
    } else if e < 143 {
        lemma_near_normal(mag);
    }
    if e < 143 {
        assert(narrowed(u) as int == u as int / 0x8000_0000 * 0x8000 + n);
        if m != n {
            lemma_near_is_nearest(mag, n, m);
        }
    }
}

/// A number rounded to half precision.
pub open spec fn half_rounded(u: u32) -> u32 {
    widened(narrowed(u))
}

/// Narrowing never gives NaN.
proof fn lemma_narrowed_is_number(u: u32)
    ensures
        !is_half_nan(narrowed(u)),
{
    lemma2_to64();
    assert(pow2(13) == 0x2000);
    let mag = u as int % 0x8000_0000;
    let exp = mag / 0x80_0000 - 112;
    let mant = mag % 0x80_0000;
    if -10 <= exp <= 0 {
        let s = (14 - exp) as nat;
        if s > 14 {
            lemma_pow2_strictly_increases(14, s);
        }
        assert(pow2(14) == 0x4000);
        let p = pow2(s) as int;
        let r = rounded_shift(mant + 0x80_0000, s);
        assert(0 <= r <= 0x400) by (nonlinear_arith)
            requires
                p >= 0x4000,
                0 <= mant < 0x80_0000,
                r == (mant + 0x80_0000 + p / 2) / p,
        ;
    }
}

/// Rounding twice is rounding once.
pub proof fn law_half_rounding_is_stable(u: u32)
    ensures
        half_rounded(half_rounded(u)) == half_rounded(u),
{
    lemma_narrowed_is_number(u);
    law_half_round_trip(narrowed(u));
}

/// Round the first `n` numbers to half precision.
pub fn f16_round_inplace(x: &mut Vec<u32>, n: usize)
    requires
        n <= old(x)@.len(),
    ensures
        final(x)@ == Seq::new(
            old(x)@.len(),
            |i: int|
                if i < n {
                    half_rounded(old(x)@[i])
                } else {
                    old(x)@[i]
                },
        ),
{
    let mut i: usize = 0;
    while i < n
        invariant
            i <= n <= x@.len(),
            x@.len() == old(x)@.len(),
            forall|k: int| 0 <= k < i ==> x@[k] == half_rounded(old(x)@[k]),
            forall|k: int| i <= k < x@.len() ==> x@[k] == old(x)@[k],
        decreases n - i,
    {
        let v: u32 = f16_to_f32(f32_to_f16(x[i]));
        x.set(i, v);
        i = i + 1;
    }
}

// Order of 32-bit floats

/// A bit pattern that is no number.
pub open spec fn is_nan(u: u32) -> bool {
    u as int % 0x8000_0000 > 0x7f80_0000
}

/// Where a number stands in the order of numbers: both zeros at 0.
pub open spec fn order_key(u: u32) -> int {
    if u < 0x8000_0000 {
        u as int
    } else {
        0x8000_0000 - u
    }
}

/// `a > b` as floats: never with a NaN.
pub open spec fn float_gt(a: u32, b: u32) -> bool {
    !is_nan(a) && !is_nan(b) && order_key(a) > order_key(b)
}

/// The bit pattern of negative infinity.
pub const NEG_INFINITY_BITS: u32 = 0xff80_0000;

/// The bit pattern of -1e30, which stands for a score that counts for nothing.
pub const NEG_INF_BITS: u32 = 0xf149_f2ca;

/// Compare two floats by their bit patterns.
pub fn is_float_gt(a: u32, b: u32) -> (r: bool)
    ensures
        r == float_gt(a, b),
{
    if a % 0x8000_0000 > 0x7f80_0000 || b % 0x8000_0000 > 0x7f80_0000 {
        return false;
    }
    let ka: i64 = if a < 0x8000_0000 {
        a as i64
    } else {
        0x8000_0000 - a as i64
    };
    let kb: i64 = if b < 0x8000_0000 {
        b as i64
    } else {
        0x8000_0000 - b as i64
    };
    ka > kb
}

/// A bit pattern of a number that is not infinite.
pub open spec fn is_finite(u: u32) -> bool {
    (u as int) % 0x8000_0000 < 0x7f80_0000
}

/// A bit pattern of one of the infinities.
pub open spec fn is_infinite(u: u32) -> bool {
    (u as int) % 0x8000_0000 == 0x7f80_0000
}

/// How many values are no numbers, how many are infinite, and how many are finite.
#[derive(Clone, Copy, PartialEq, Eq, Structural, Debug)]
pub struct Health {
    pub nan: usize,
    pub infinite: usize,
    pub finite: usize,
}

/// Count the values of each kind.
pub fn health_of(values: &[u32]) -> (r: Health)
    ensures
        r.nan == values@.filter(|v: u32| is_nan(v)).len(),
        r.infinite == values@.filter(|v: u32| is_infinite(v)).len(),
        r.finite == values@.filter(|v: u32| is_finite(v)).len(),
        r.nan + r.infinite + r.finite == values@.len(),
{
    let mut r = Health { nan: 0, infinite: 0, finite: 0 };
    let mut i: usize = 0;
    proof {
        reveal(Seq::filter);
    }
    while i < values.len()
        invariant
            i <= values@.len(),
            r.nan == values@.take(i as int).filter(|v: u32| is_nan(v)).len(),
            r.infinite == values@.take(i as int).filter(|v: u32| is_infinite(v)).len(),
            r.finite == values@.take(i as int).filter(|v: u32| is_finite(v)).len(),
            r.nan + r.infinite + r.finite == i,
        decreases values@.len() - i,
    {
        proof {
            reveal(Seq::filter);
            assert(values@.take(i + 1).drop_last() =~= values@.take(i as int));
        }
        let magnitude: u32 = values[i] % 0x8000_0000;
        if magnitude > 0x7f80_0000 {
            r.nan = r.nan + 1;
        } else if magnitude == 0x7f80_0000 {
            r.infinite = r.infinite + 1;
        } else {
            r.finite = r.finite + 1;
        }
        i = i + 1;
    }
    assert(values@.take(i as int) =~= values@);
    r
}

/// The greatest magnitude among the values that are numbers; zero if there are none.
pub open spec fn greatest_magnitude(values: Seq<u32>) -> u32
    decreases values.len(),
{
    if values.len() == 0 {
        0
    } else {
        let before = greatest_magnitude(values.drop_last());
        let magnitude = values.last() % 0x8000_0000;
        if float_gt(magnitude, before) {
            magnitude
        } else {
            before
        }
    }
}

/// Find the greatest magnitude.
pub fn max_magnitude(values: &[u32]) -> (r: u32)
    ensures
        r == greatest_magnitude(values@),
{
    let mut best: u32 = 0;
    let mut i: usize = 0;
    while i < values.len()
        invariant
            i <= values@.len(),
            best == greatest_magnitude(values@.take(i as int)),
        decreases values@.len() - i,
    {
        assert(values@.take(i + 1).drop_last() =~= values@.take(i as int));
        let magnitude: u32 = values[i] % 0x8000_0000;
        if is_float_gt(magnitude, best) {
            best = magnitude;
        }
        i = i + 1;
    }
    assert(values@.take(i as int) =~= values@);
    best
}

/// The greatest magnitude is a number that no number's magnitude is above, and unless it is zero it
/// is the magnitude of a value.
pub proof fn law_greatest_magnitude(values: Seq<u32>)
    ensures
        greatest_magnitude(values) <= 0x7f80_0000,
        forall|i: int|
            0 <= i < values.len() && !is_nan(#[trigger] values[i]) ==> values[i] % 0x8000_0000
                <= greatest_magnitude(values),
        greatest_magnitude(values) != 0 ==> exists|i: int|
            0 <= i < values.len() && (#[trigger] values[i]) % 0x8000_0000 == greatest_magnitude(
                values,
            ),
    decreases values.len(),
{
    if values.len() > 0 {
        let front = values.drop_last();
        law_greatest_magnitude(front);
        let best = greatest_magnitude(values);
        assert forall|i: int| 0 <= i < values.len() && !is_nan(#[trigger] values[i]) implies values[i]
            % 0x8000_0000 <= best by {
            if i < front.len() {
                assert(front[i] == values[i]);
            }
        }
        if best != 0 {
            if best == greatest_magnitude(front) {
                let k = choose|k: int|
                    0 <= k < front.len() && (#[trigger] front[k]) % 0x8000_0000 == best;
                assert(values[k] == front[k]);
            } else {
                assert(values[values.len() - 1] % 0x8000_0000 == best);
            }
        }
    }
}

// Eight-bit floats

/// The bit pattern of the eight-bit float with a code: four bits of exponent, three of mantissa.
/// Codes below 8 are multiples of 1/512.
pub open spec fn e4m3_bits(code: int) -> u32 {
    if code >= 8 {
        ((code + 960) * 0x10_0000) as u32
    } else if code == 0 {
        0
    } else if code == 1 {
        0x3b00_0000
    } else if code < 4 {
        (0x3b80_0000 + (code - 2) * 0x40_0000) as u32
    } else {
        (0x3c00_0000 + (code - 4) * 0x20_0000) as u32
    }
}

/// The bit pattern of the number halfway between the codes `code` and `code + 1`.
pub open spec fn e4m3_mid(code: int) -> u32 {
    if code >= 8 {
        ((code + 960) * 0x10_0000 + 0x8_0000) as u32
    } else if code == 0 {
        0x3a80_0000
    } else if code == 1 {
        0x3b40_0000
    } else if code < 4 {
        (0x3ba0_0000 + (code - 2) * 0x40_0000) as u32
    } else {
        (0x3c10_0000 + (code - 4) * 0x20_0000) as u32
    }
}

/// The code nearest to a magnitude, ties to the even code. The largest code is 126, for 448.
pub open spec fn nearest_code(mag: u32, code: int) -> bool {
    &&& 0 <= code <= 126
    &&& code > 0 ==> (mag > e4m3_mid(code - 1) || mag == e4m3_mid(code - 1) && code % 2 == 0)
    &&& code < 126 ==> (mag < e4m3_mid(code) || mag == e4m3_mid(code) && code % 2 == 0)
}

/// The magnitude that is rounded: at most 448, which also stands in for NaN.
pub open spec fn e4m3_magnitude(x: u32) -> u32 {
    let mag = (x as int % 0x8000_0000) as u32;
    if mag > 0x43e0_0000 {
        0x43e0_0000
    } else {
        mag
    }
}

/// `r` is `x` rounded to the nearest eight-bit float. A negative number keeps its sign; negative
/// zero and NaN come out positive.
pub open spec fn e4m3_rounded(x: u32, r: u32) -> bool {
    exists|code: int|
        {
            &&& #[trigger] nearest_code(e4m3_magnitude(x), code)
            &&& r == e4m3_bits(code) + if x >= 0x8000_0000 && !is_nan(x) && x != 0x8000_0000 {
                0x8000_0000int
            } else {
                0int
            }
        }
}

/// There is only one nearest code.
pub proof fn law_nearest_code_unique(mag: u32, a: int, b: int)
    requires
        nearest_code(mag, a),
        nearest_code(mag, b),
    ensures
        a == b,
{
    if a < b {
        lemma_mid_increases(a, b - 1);
    } else if b < a {
        lemma_mid_increases(b, a - 1);
    }
}

proof fn lemma_mid_increases(a: int, b: int)
    requires
        0 <= a <= b <= 126,
    ensures
        e4m3_mid(a) <= e4m3_mid(b),
        a < b ==> e4m3_mid(a) < e4m3_mid(b),
{
}

fn e4m3_value(code: u32) -> (r: u32)
    requires
        code <= 126,
    ensures
        r == e4m3_bits(code as int),
{
    if code >= 8 {
        (code + 960) * 0x10_0000
    } else if code == 0 {
        0
    } else if code == 1 {
        0x3b00_0000
    } else if code < 4 {
        0x3b80_0000 + (code - 2) * 0x40_0000
    } else {
        0x3c00_0000 + (code - 4) * 0x20_0000
    }
}

fn e4m3_midpoint(code: u32) -> (r: u32)
    requires
        code <= 126,
    ensures
        r == e4m3_mid(code as int),
{
    if code >= 8 {
        (code + 960) * 0x10_0000 + 0x8_0000
    } else if code == 0 {
        0x3a80_0000
    } else if code == 1 {
        0x3b40_0000
    } else if code < 4 {
        0x3ba0_0000 + (code - 2) * 0x40_0000
    } else {
        0x3c10_0000 + (code - 4) * 0x20_0000
    }
}

/// Round a float to the nearest eight-bit float, by a binary search over the codes.
pub fn e4m3_dequant(x: u32) -> (r: u32)
    ensures
        e4m3_rounded(x, r),
{
    let mut mag: u32 = x % 0x8000_0000;
    let nan: bool = mag > 0x7f80_0000;
    if mag > 0x43e0_0000 {
        mag = 0x43e0_0000;
    }
    let mut lo: u32 = 0;
    let mut hi: u32 = 126;
    while lo < hi
        invariant
            lo <= hi <= 126,
            mag <= 0x43e0_0000,
            e4m3_bits(lo as int) <= mag,
            hi < 126 ==> mag < e4m3_bits(hi + 1),
        decreases hi - lo,
    {
        let mid: u32 = (lo + hi + 1) / 2;
        if e4m3_value(mid) <= mag {
            lo = mid;
        } else {
            hi = mid - 1;
        }
    }
    let mut best: u32 = lo;
    if best < 126 {
        let m: u32 = e4m3_midpoint(best);
        if mag > m || (mag == m && best % 2 == 1) {
            best = best + 1;
        }
    }
    assert(mag == e4m3_magnitude(x));
    assert(nearest_code(e4m3_magnitude(x), best as int));
    let v: u32 = e4m3_value(best);
    if x > 0x8000_0000 && !nan {
        v + 0x8000_0000
    } else {
        v
    }
}

/// The rows of 64 that the dimensions behind the first `n_rot` are cut into; the last may be
/// shorter.
pub open spec fn fp8_block_count(head_dim: usize, n_rot: usize) -> nat {
    if head_dim <= n_rot {
        0
    } else {
        ((head_dim - n_rot + 63) / 64) as nat
    }
}

/// Block `i` of a row.
pub open spec fn fp8_block(head_dim: usize, n_rot: usize, i: int) -> (usize, usize) {
    let start = n_rot + 64 * i;
    (
        start as usize,
        if start + 64 <= head_dim {
            (start + 64) as usize
        } else {
            head_dim
        },
    )
}

/// Cut the dimensions that are rounded to eight-bit floats into blocks, each of which gets a scale
/// of its own. The first `n_rot` dimensions are rotary and stay as they are.
pub fn fp8_kv_blocks(head_dim: usize, n_rot: usize) -> (r: Vec<(usize, usize)>)
    ensures
        r@ == Seq::new(
            fp8_block_count(head_dim, n_rot),
            |i: int| fp8_block(head_dim, n_rot, i),
        ),
{
    let mut blocks: Vec<(usize, usize)> = Vec::new();
    if head_dim <= n_rot {
        assert(blocks@ =~= Seq::new(0nat, |i: int| fp8_block(head_dim, n_rot, i)));
        return blocks;
    }
    let mut off: usize = n_rot;
    while head_dim - off >= 64
        invariant
            n_rot <= off <= head_dim,
            n_rot < head_dim,
            off == n_rot + 64 * blocks@.len(),
            blocks@ =~= Seq::new(blocks@.len(), |i: int| fp8_block(head_dim, n_rot, i)),
        decreases head_dim - off,
    {
        blocks.push((off, off + 64));
        off = off + 64;
    }
    if off < head_dim {
        blocks.push((off, head_dim));
    }
    blocks
}

/// The blocks of a row follow each other from the first `n_rot` dimensions to the end.
pub proof fn law_fp8_blocks_cover(head_dim: usize, n_rot: usize, k: int)
    requires
        n_rot <= k < head_dim,
    ensures
        ({
            let i = (k - n_rot) / 64;
            &&& 0 <= i < fp8_block_count(head_dim, n_rot)
            &&& fp8_block(head_dim, n_rot, i).0 <= k < fp8_block(head_dim, n_rot, i).1
        }),
{
}

} // verus!

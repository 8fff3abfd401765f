//! Quantized blocks: their layout in bytes, the codes they hold, and integer dot products.
//!
//! Scales are floats and stand in the blocks as bit patterns: half precision in the weight blocks,
//! single precision in the activation blocks.
use crate::bytes::{decode_le, le_value, lemma_byte_range, lemma_le_value_bound};
use vstd::prelude::*;
use vstd::slice::slice_subrange;

pub use crate::quant_tables::{IQ2XXS_GRID, KMASK_IQ2XS, KSIGNS_IQ2XS};

verus! {

/// Q2_K block: 256 elements in 84 bytes, 16 sub-blocks of 16 elements each.
#[derive(Copy, Clone, Debug)]
pub struct BlockQ2K {
    /// Scale and minimum of each sub-block, four bits each.
    pub scales: [u8; 16],
    /// 2-bit values, four to a byte.
    pub qs: [u8; 64],
    /// Super-block scale.
    pub d: u16,
    /// Super-block minimum.
    pub dmin: u16,
}

/// Q4_K block: 256 elements in 144 bytes.
#[derive(Copy, Clone, Debug)]
pub struct BlockQ4K {
    /// Super-block scale.
    pub d: u16,
    /// Super-block minimum.
    pub dmin: u16,
    /// 6-bit scales for 8 sub-blocks.
    pub scales: [u8; 12],
    /// 4-bit values, two to a byte.
    pub qs: [u8; 128],
}

/// Q8_K block: 256 elements in 292 bytes.
#[derive(Copy, Clone, Debug)]
pub struct BlockQ8K {
    /// Scale, the bit pattern of a 32-bit float.
    pub d: u32,
    /// 8-bit values.
    pub qs: [i8; 256],
    /// Sums of 16 sub-blocks.
    pub bsums: [i16; 16],
}

/// Q8_0 block: 32 elements in 34 bytes.
#[derive(Copy, Clone, Debug)]
pub struct BlockQ80 {
    /// Scale.
    pub d: u16,
    /// 8-bit values.
    pub qs: [i8; 32],
}

/// IQ2_XXS block: 256 elements in 66 bytes, 8 groups of four numbers each.
#[derive(Copy, Clone, Debug)]
pub struct BlockIq2Xxs {
    /// Super-block scale.
    pub d: u16,
    /// Grid indices, sign indices and group scales.
    pub qs: [u16; 32],
}

/// The sum of `f` over the numbers below `n`.
pub open spec fn sum_below(n: nat, f: spec_fn(int) -> int) -> int
    decreases n,
{
    if n == 0 {
        0
    } else {
        sum_below((n - 1) as nat, f) + f(n - 1)
    }
}

/// A run of `k` terms that are `c` times another sum's terms.
proof fn lemma_sum_run(
    base: nat,
    k: nat,
    f: spec_fn(int) -> int,
    g: spec_fn(int) -> int,
    c: int,
)
    requires
        forall|i: int| 0 <= i < k ==> #[trigger] f(base + i) == c * g(i),
    ensures
        sum_below(base + k, f) == sum_below(base, f) + c * sum_below(k, g),
    decreases k,
{
    if k > 0 {
        let m = (k - 1) as nat;
        lemma_sum_run(base, m, f, g, c);
        assert(f((base + m) as int) == c * g(m as int));
        assert(c * (sum_below(m, g) + g(m as int)) == c * sum_below(m, g) + c * g(m as int))
            by (nonlinear_arith);
    } else {
        assert(c * 0 == 0) by (nonlinear_arith);
    }
}

// Integer dot products

/// The 2-bit value at a shift of a byte.
pub open spec fn two_bits(b: u8, shift: u32) -> int {
    ((b >> shift) & 3) as int
}

/// Dot product of 16 2-bit values with 16 8-bit values: of each byte the two bits at `shift`.
pub fn dot_q2_16(q2: &[u8], q8: &[i8], shift: u32) -> (r: i32)
    requires
        q2@.len() >= 16,
        q8@.len() >= 16,
        shift < 8,
    ensures
        r == sum_below(16, |i: int| q8@[i] * two_bits(q2@[i], shift)),
        -6144 <= r <= 6144,
{
    let ghost f = |i: int| q8@[i] * two_bits(q2@[i], shift);
    let mut sum: i32 = 0;
    let mut i: usize = 0;
    while i < 16
        invariant
            i <= 16,
            q2@.len() >= 16,
            q8@.len() >= 16,
            shift < 8,
            f == (|i: int| q8@[i] * two_bits(q2@[i], shift)),
            sum == sum_below(i as nat, f),
            -384 * i <= sum <= 384 * i,
        decreases 16 - i,
    {
        let b: u8 = q2[i];
        let q: i32 = ((b >> shift) & 3) as i32;
        assert((b >> shift) & 3 <= 3) by (bit_vector);
        let v: i32 = q8[i] as i32;
        assert(-384 <= v * q <= 384) by (nonlinear_arith)
            requires
                -128 <= v <= 127,
                0 <= q <= 3,
        ;
        assert(f(i as int) == v * q);
        sum = sum + v * q;
        i = i + 1;
    }
    sum
}

/// In a dot product, element `e` of a Q2_K block belongs to sub-block `e / 16`, stands in byte
/// `e / 128 * 32 + e % 32`, and at the shift that its row of 32 gives.
pub open spec fn q2_code(block: BlockQ2K, e: int) -> int {
    two_bits(block.qs@[e / 128 * 32 + e % 32], (e % 128 / 32 * 2) as u32)
}

/// The four low bits of a sub-block's scale byte.
pub open spec fn q2_scale(block: BlockQ2K, sub: int) -> int {
    (block.scales@[sub] & 0x0f) as int
}

/// The four high bits of a sub-block's scale byte.
pub open spec fn q2_min(block: BlockQ2K, sub: int) -> int {
    (block.scales@[sub] >> 4) as int
}

/// The integer part of the dot product of a Q2_K block with a Q8_K block: the sum of scaled codes
/// times values.
pub open spec fn q2_dot(block: BlockQ2K, q8: Seq<i8>) -> int {
    sum_below(256, |e: int| q2_scale(block, e / 16) * (q8[e] * q2_code(block, e)))
}

/// What the minimums take away: the sum of minimums times sub-block sums.
pub open spec fn q2_mins(block: BlockQ2K, bsums: Seq<i16>) -> int {
    sum_below(16, |s: int| bsums[s] * q2_min(block, s))
}

proof fn lemma_q2_index(s: int, i: int)
    requires
        0 <= s < 16,
        0 <= i < 16,
    ensures
        (16 * s + i) / 16 == s,
        (16 * s + i) / 128 * 32 + (16 * s + i) % 32 == s / 8 * 32 + s % 2 * 16 + i,
        (16 * s + i) % 128 / 32 * 2 == s % 8 / 2 * 2,
{
}

/// A sub-block adds its scale times the dot product of its codes and values.
proof fn lemma_q2_sub(
    block: BlockQ2K,
    q8: Seq<i8>,
    s: nat,
    q2s: Seq<u8>,
    q8s: Seq<i8>,
    shift: u32,
)
    requires
        s < 16,
        q8.len() == 256,
        q2s == block.qs@.subrange((s / 8 * 32 + s % 2 * 16) as int, 64),
        q8s == q8.subrange((16 * s) as int, 256),
        shift == s % 8 / 2 * 2,
    ensures
        sum_below(
            16 * s + 16,
            |e: int| q2_scale(block, e / 16) * (q8[e] * q2_code(block, e)),
        ) == sum_below(
            16 * s,
            |e: int| q2_scale(block, e / 16) * (q8[e] * q2_code(block, e)),
        ) + q2_scale(block, s as int) * sum_below(
            16,
            |i: int| q8s[i] * two_bits(q2s[i], shift),
        ),
{
    let f = |e: int| q2_scale(block, e / 16) * (q8[e] * q2_code(block, e));
    let g = |i: int| q8s[i] * two_bits(q2s[i], shift);
    let c = q2_scale(block, s as int);
    assert forall|i: int| 0 <= i < 16 implies #[trigger] f(16 * s + i) == c * g(i) by {
        lemma_q2_index(s as int, i);
        assert(q8s[i] == q8[16 * s + i]);
        assert(q2s[i] == block.qs@[s as int / 8 * 32 + s as int % 2 * 16 + i]);
    }
    lemma_sum_run(16 * s, 16, f, g, c);
}

/// The two integer sums of a Q2_K block and a Q8_K block.
pub fn q2_k_q8_k_sums(block: &BlockQ2K, q8: &BlockQ8K) -> (r: (i32, i32))
    ensures
        r.0 == q2_dot(*block, q8.qs@),
        r.1 == q2_mins(*block, q8.bsums@),
{
    let ghost m = |s: int| q8.bsums@[s] * q2_min(*block, s);
    let mut mins: i32 = 0;
    let mut j: usize = 0;
    while j < 16
        invariant
            j <= 16,
            m == (|s: int| q8.bsums@[s] * q2_min(*block, s)),
            mins == sum_below(j as nat, m),
            -500_000 * j <= mins <= 500_000 * j,
        decreases 16 - j,
    {
        let sc: u8 = block.scales[j];
        let hi: i32 = (sc >> 4) as i32;
        assert(sc >> 4 <= 15) by (bit_vector);
        let v: i32 = q8.bsums[j] as i32;
        assert(-500_000 <= v * hi <= 500_000) by (nonlinear_arith)
            requires
                -32768 <= v <= 32767,
                0 <= hi <= 15,
        ;
        assert(m(j as int) == v * hi);
        mins = mins + v * hi;
        j = j + 1;
    }
    let ghost f = |e: int| q2_scale(*block, e / 16) * (q8.qs@[e] * q2_code(*block, e));
    let mut sum: i32 = 0;
    let mut s: usize = 0;
    assert(sum_below(0, f) == 0);
    while s < 16
        invariant
            s <= 16,
            f == (|e: int| q2_scale(*block, e / 16) * (q8.qs@[e] * q2_code(*block, e))),
            sum == sum_below(16 * s as nat, f),
            -100_000 * s <= sum <= 100_000 * s,
        decreases 16 - s,
    {
        let at: usize = s / 8 * 32 + s % 2 * 16;
        let shift: u32 = (s % 8 / 2 * 2) as u32;
        let q2s: &[u8] = slice_subrange(block.qs.as_slice(), at, 64);
        let q8s: &[i8] = slice_subrange(q8.qs.as_slice(), 16 * s, 256);
        let part: i32 = dot_q2_16(q2s, q8s, shift);
        let sc: u8 = block.scales[s];
        let lo: i32 = (sc & 0x0f) as i32;
        assert(sc & 0x0f <= 15) by (bit_vector);
        assert(-92_160 <= lo * part <= 92_160) by (nonlinear_arith)
            requires
                -6144 <= part <= 6144,
                0 <= lo <= 15,
        ;
        proof {
            lemma_q2_sub(*block, q8.qs@, s as nat, q2s@, q8s@, shift);
        }
        sum = sum + lo * part;
        s = s + 1;
    }
    (sum, mins)
}

/// The sub-block sums are the sums of the values.
pub open spec fn sums_agree(qs: Seq<i8>, bsums: Seq<i16>) -> bool {
    forall|s: int|
        0 <= s < 16 ==> (#[trigger] bsums[s]) as int == sum_below(16, |i: int| qs[16 * s + i] as int)
}

/// With sub-block sums that agree with the values, the minimums take away from every element its
/// sub-block's minimum times its value: scale times code minus minimum is what an element of the
/// block stands for.
pub proof fn law_q2_mins_per_element(block: BlockQ2K, qs: Seq<i8>, bsums: Seq<i16>)
    requires
        sums_agree(qs, bsums),
    ensures
        q2_mins(block, bsums) == sum_below(256, |e: int| q2_min(block, e / 16) * qs[e]),
{
    let m = |s: int| bsums[s] * q2_min(block, s);
    lemma_mins_upto(block, qs, bsums, 16);
    assert(q2_mins(block, bsums) == sum_below(16, m));
}

proof fn lemma_mins_upto(block: BlockQ2K, qs: Seq<i8>, bsums: Seq<i16>, n: nat)
    requires
        sums_agree(qs, bsums),
        n <= 16,
    ensures
        sum_below(n, |s: int| bsums[s] * q2_min(block, s)) == sum_below(
            16 * n,
            |e: int| q2_min(block, e / 16) * qs[e],
        ),
    decreases n,
{
    let f = |e: int| q2_min(block, e / 16) * qs[e];
    let m = |s: int| bsums[s] * q2_min(block, s);
    if n > 0 {
        let k = (n - 1) as nat;
        lemma_mins_upto(block, qs, bsums, k);
        let g = |i: int| qs[16 * k + i] as int;
        let c = q2_min(block, k as int);
        assert forall|i: int| 0 <= i < 16 implies #[trigger] f(16 * k + i) == c * g(i) by {
            assert((16 * k + i) / 16 == k);
        }
        lemma_sum_run(16 * k, 16, f, g, c);
        assert(bsums[k as int] as int == sum_below(16, g));
        assert(m(k as int) == bsums[k as int] * c);
        assert(bsums[k as int] * c == c * bsums[k as int]) by (nonlinear_arith);
    }
}

/// The integer dot product of 32 8-bit values with a Q8_0 block.
pub fn q8_0_dot(xq: &[i8], block: &BlockQ80) -> (r: i32)
    requires
        xq@.len() >= 32,
    ensures
        r == sum_below(32, |i: int| xq@[i] * block.qs@[i]),
{
    let ghost f = |i: int| xq@[i] * block.qs@[i];
    let mut sum: i32 = 0;
    let mut i: usize = 0;
    while i < 32
        invariant
            i <= 32,
            xq@.len() >= 32,
            f == (|i: int| xq@[i] * block.qs@[i]),
            sum == sum_below(i as nat, f),
            -20_000 * i <= sum <= 20_000 * i,
        decreases 32 - i,
    {
        let a: i32 = xq[i] as i32;
        let b: i32 = block.qs[i] as i32;
        assert(-20_000 <= a * b <= 20_000) by (nonlinear_arith)
            requires
                -128 <= a <= 127,
                -128 <= b <= 127,
        ;
        assert(f(i as int) == a * b);
        sum = sum + a * b;
        i = i + 1;
    }
    sum
}

// IQ2_XXS

/// The byte at position `j` of a grid entry.
pub open spec fn grid_byte(grid: u64, j: int) -> int {
    ((grid >> ((j * 8) as u64)) & 0xff) as int
}

/// Get the byte at position `j` of a grid entry.
pub fn iq2xxs_grid_byte(grid: u64, j: usize) -> (r: i32)
    requires
        j < 8,
    ensures
        r == grid_byte(grid, j as int),
        0 <= r <= 255,
{
    let s: u64 = (j * 8) as u64;
    assert((grid >> s) & 0xff <= 255) by (bit_vector);
    ((grid >> s) & 0xff) as i32
}

/// The sign of element `j`: negative if its bit is set.
pub open spec fn sign_of(signs: u8, j: int) -> int {
    if (signs >> (j as u8)) & 1 != 0 {
        -1
    } else {
        1
    }
}

proof fn lemma_sign_mask(signs: u8, j: u8)
    requires
        j < 8,
    ensures
        (signs & KMASK_IQ2XS@[j as int] != 0) == ((signs >> j) & 1 != 0),
{
    let m: u8 = 1u8 << j;
    assert((signs & (1u8 << j) != 0) == ((signs >> j) & 1 != 0)) by (bit_vector)
        requires
            j < 8,
    ;
    assert(1u8 << 0u8 == 1 && 1u8 << 1u8 == 2 && 1u8 << 2u8 == 4 && 1u8 << 3u8 == 8 && 1u8 << 4u8
        == 16 && 1u8 << 5u8 == 32 && 1u8 << 6u8 == 64 && 1u8 << 7u8 == 128) by (bit_vector);
    assert(m == KMASK_IQ2XS@[j as int]);
}

/// Get the sign of element `j` from a sign byte.
pub fn iq2xxs_sign(signs: u8, j: usize) -> (r: i32)
    requires
        j < 8,
    ensures
        r == sign_of(signs, j as int),
{
    proof {
        lemma_sign_mask(signs, j as u8);
    }
    if signs & KMASK_IQ2XS[j] != 0 {
        -1
    } else {
        1
    }
}

/// The eight signs of a byte multiplied.
pub open spec fn sign_product(signs: u8) -> int {
    sign_of(signs, 0) * sign_of(signs, 1) * sign_of(signs, 2) * sign_of(signs, 3) * sign_of(
        signs,
        4,
    ) * sign_of(signs, 5) * sign_of(signs, 6) * sign_of(signs, 7)
}

/// 1 if the number of set bits is odd, and 0 if it is even.
spec fn odd_bits(b: u8) -> u8 {
    (b ^ (b >> 1) ^ (b >> 2) ^ (b >> 3) ^ (b >> 4) ^ (b >> 5) ^ (b >> 6) ^ (b >> 7)) & 1
}

proof fn lemma_times_sign(a: int, b: int)
    requires
        a == 1 || a == -1,
        b == 1 || b == -1,
    ensures
        a * b == if a == b {
            1int
        } else {
            -1int
        },
{
    assert(a * b == if a == b {
        1int
    } else {
        -1int
    }) by (nonlinear_arith)
        requires
            a == 1 || a == -1,
            b == 1 || b == -1,
    ;
}

/// An even number of minus signs multiplies to one.
proof fn lemma_sign_product(b: u8)
    requires
        odd_bits(b) == 0,
    ensures
        sign_product(b) == 1,
{
    let s = |j: int| sign_of(b, j);
    let p1 = s(0) * s(1);
    lemma_times_sign(s(0), s(1));
    let p2 = p1 * s(2);
    lemma_times_sign(p1, s(2));
    let p3 = p2 * s(3);
    lemma_times_sign(p2, s(3));
    let p4 = p3 * s(4);
    lemma_times_sign(p3, s(4));
    let p5 = p4 * s(5);
    lemma_times_sign(p4, s(5));
    let p6 = p5 * s(6);
    lemma_times_sign(p5, s(6));
    lemma_times_sign(p6, s(7));
    assert(((b >> 0) & 1 == 0 || (b >> 0) & 1 == 1) && ((b >> 1) & 1 == 0 || (b >> 1) & 1 == 1) && ((b
        >> 2) & 1 == 0 || (b >> 2) & 1 == 1) && ((b >> 3) & 1 == 0 || (b >> 3) & 1 == 1) && ((b
        >> 4) & 1 == 0 || (b >> 4) & 1 == 1) && ((b >> 5) & 1 == 0 || (b >> 5) & 1 == 1) && ((b
        >> 6) & 1 == 0 || (b >> 6) & 1 == 1) && ((b >> 7) & 1 == 0 || (b >> 7) & 1 == 1) && (((b
        >> 0) & 1) + ((b >> 1) & 1) + ((b >> 2) & 1) + ((b >> 3) & 1) + ((b >> 4) & 1) + ((b >> 5)
        & 1) + ((b >> 6) & 1) + ((b >> 7) & 1)) % 2 == 0) by (bit_vector)
        requires
            (b ^ (b >> 1) ^ (b >> 2) ^ (b >> 3) ^ (b >> 4) ^ (b >> 5) ^ (b >> 6) ^ (b >> 7)) & 1
                == 0,
    ;
}

/// Every entry of the sign table has the seven bits of its index and an even number of minus signs.
pub proof fn law_sign_table(i: int)
    requires
        0 <= i < 128,
    ensures
        KSIGNS_IQ2XS@[i] & 0x7f == i,
        sign_product(KSIGNS_IQ2XS@[i]) == 1,
{
    assert(odd_bits(0u8) == 0 && odd_bits(129u8) == 0 && odd_bits(130u8) == 0 &&
        odd_bits(3u8) == 0 && odd_bits(132u8) == 0 && odd_bits(5u8) == 0 &&
        odd_bits(6u8) == 0 && odd_bits(135u8) == 0 && odd_bits(136u8) == 0 &&
        odd_bits(9u8) == 0 && odd_bits(10u8) == 0 && odd_bits(139u8) == 0 &&
        odd_bits(12u8) == 0 && odd_bits(141u8) == 0 && odd_bits(142u8) == 0 &&
        odd_bits(15u8) == 0 && odd_bits(144u8) == 0 && odd_bits(17u8) == 0 &&
        odd_bits(18u8) == 0 && odd_bits(147u8) == 0 && odd_bits(20u8) == 0 &&
        odd_bits(149u8) == 0 && odd_bits(150u8) == 0 && odd_bits(23u8) == 0 &&
        odd_bits(24u8) == 0 && odd_bits(153u8) == 0 && odd_bits(154u8) == 0 &&
        odd_bits(27u8) == 0 && odd_bits(156u8) == 0 && odd_bits(29u8) == 0 &&
        odd_bits(30u8) == 0 && odd_bits(159u8) == 0 && odd_bits(160u8) == 0 &&
        odd_bits(33u8) == 0 && odd_bits(34u8) == 0 && odd_bits(163u8) == 0 &&
        odd_bits(36u8) == 0 && odd_bits(165u8) == 0 && odd_bits(166u8) == 0 &&
        odd_bits(39u8) == 0 && odd_bits(40u8) == 0 && odd_bits(169u8) == 0 &&
        odd_bits(170u8) == 0 && odd_bits(43u8) == 0 && odd_bits(172u8) == 0 &&
        odd_bits(45u8) == 0 && odd_bits(46u8) == 0 && odd_bits(175u8) == 0 &&
        odd_bits(48u8) == 0 && odd_bits(177u8) == 0 && odd_bits(178u8) == 0 &&
        odd_bits(51u8) == 0 && odd_bits(180u8) == 0 && odd_bits(53u8) == 0 &&
        odd_bits(54u8) == 0 && odd_bits(183u8) == 0 && odd_bits(184u8) == 0 &&
        odd_bits(57u8) == 0 && odd_bits(58u8) == 0 && odd_bits(187u8) == 0 &&
        odd_bits(60u8) == 0 && odd_bits(189u8) == 0 && odd_bits(190u8) == 0 &&
        odd_bits(63u8) == 0 && odd_bits(192u8) == 0 && odd_bits(65u8) == 0 &&
        odd_bits(66u8) == 0 && odd_bits(195u8) == 0 && odd_bits(68u8) == 0 &&
        odd_bits(197u8) == 0 && odd_bits(198u8) == 0 && odd_bits(71u8) == 0 &&
        odd_bits(72u8) == 0 && odd_bits(201u8) == 0 && odd_bits(202u8) == 0 &&
        odd_bits(75u8) == 0 && odd_bits(204u8) == 0 && odd_bits(77u8) == 0 &&
        odd_bits(78u8) == 0 && odd_bits(207u8) == 0 && odd_bits(80u8) == 0 &&
        odd_bits(209u8) == 0 && odd_bits(210u8) == 0 && odd_bits(83u8) == 0 &&
        odd_bits(212u8) == 0 && odd_bits(85u8) == 0 && odd_bits(86u8) == 0 &&
        odd_bits(215u8) == 0 && odd_bits(216u8) == 0 && odd_bits(89u8) == 0 &&
        odd_bits(90u8) == 0 && odd_bits(219u8) == 0 && odd_bits(92u8) == 0 &&
        odd_bits(221u8) == 0 && odd_bits(222u8) == 0 && odd_bits(95u8) == 0 &&
        odd_bits(96u8) == 0 && odd_bits(225u8) == 0 && odd_bits(226u8) == 0 &&
        odd_bits(99u8) == 0 && odd_bits(228u8) == 0 && odd_bits(101u8) == 0 &&
        odd_bits(102u8) == 0 && odd_bits(231u8) == 0 && odd_bits(232u8) == 0 &&
        odd_bits(105u8) == 0 && odd_bits(106u8) == 0 && odd_bits(235u8) == 0 &&
        odd_bits(108u8) == 0 && odd_bits(237u8) == 0 && odd_bits(238u8) == 0 &&
        odd_bits(111u8) == 0 && odd_bits(240u8) == 0 && odd_bits(113u8) == 0 &&
        odd_bits(114u8) == 0 && odd_bits(243u8) == 0 && odd_bits(116u8) == 0 &&
        odd_bits(245u8) == 0 && odd_bits(246u8) == 0 && odd_bits(119u8) == 0 &&
        odd_bits(120u8) == 0 && odd_bits(249u8) == 0 && odd_bits(250u8) == 0 &&
        odd_bits(123u8) == 0 && odd_bits(252u8) == 0 && odd_bits(125u8) == 0 &&
        odd_bits(126u8) == 0 && odd_bits(255u8) == 0) by (bit_vector);
    assert(0u8 & 0x7f == 0 && 129u8 & 0x7f == 1 && 130u8 & 0x7f == 2 && 3u8 & 0x7f == 3 &&
        132u8 & 0x7f == 4 && 5u8 & 0x7f == 5 && 6u8 & 0x7f == 6 && 135u8 & 0x7f == 7 &&
        136u8 & 0x7f == 8 && 9u8 & 0x7f == 9 && 10u8 & 0x7f == 10 && 139u8 & 0x7f == 11 &&
        12u8 & 0x7f == 12 && 141u8 & 0x7f == 13 && 142u8 & 0x7f == 14 && 15u8 & 0x7f == 15 &&
        144u8 & 0x7f == 16 && 17u8 & 0x7f == 17 && 18u8 & 0x7f == 18 && 147u8 & 0x7f == 19 &&
        20u8 & 0x7f == 20 && 149u8 & 0x7f == 21 && 150u8 & 0x7f == 22 && 23u8 & 0x7f == 23 &&
        24u8 & 0x7f == 24 && 153u8 & 0x7f == 25 && 154u8 & 0x7f == 26 && 27u8 & 0x7f == 27 &&
        156u8 & 0x7f == 28 && 29u8 & 0x7f == 29 && 30u8 & 0x7f == 30 && 159u8 & 0x7f == 31 &&
        160u8 & 0x7f == 32 && 33u8 & 0x7f == 33 && 34u8 & 0x7f == 34 && 163u8 & 0x7f == 35 &&
        36u8 & 0x7f == 36 && 165u8 & 0x7f == 37 && 166u8 & 0x7f == 38 && 39u8 & 0x7f == 39 &&
        40u8 & 0x7f == 40 && 169u8 & 0x7f == 41 && 170u8 & 0x7f == 42 && 43u8 & 0x7f == 43 &&
        172u8 & 0x7f == 44 && 45u8 & 0x7f == 45 && 46u8 & 0x7f == 46 && 175u8 & 0x7f == 47 &&
        48u8 & 0x7f == 48 && 177u8 & 0x7f == 49 && 178u8 & 0x7f == 50 && 51u8 & 0x7f == 51 &&
        180u8 & 0x7f == 52 && 53u8 & 0x7f == 53 && 54u8 & 0x7f == 54 && 183u8 & 0x7f == 55 &&
        184u8 & 0x7f == 56 && 57u8 & 0x7f == 57 && 58u8 & 0x7f == 58 && 187u8 & 0x7f == 59 &&
        60u8 & 0x7f == 60 && 189u8 & 0x7f == 61 && 190u8 & 0x7f == 62 && 63u8 & 0x7f == 63 &&
        192u8 & 0x7f == 64 && 65u8 & 0x7f == 65 && 66u8 & 0x7f == 66 && 195u8 & 0x7f == 67 &&
        68u8 & 0x7f == 68 && 197u8 & 0x7f == 69 && 198u8 & 0x7f == 70 && 71u8 & 0x7f == 71 &&
        72u8 & 0x7f == 72 && 201u8 & 0x7f == 73 && 202u8 & 0x7f == 74 && 75u8 & 0x7f == 75 &&
        204u8 & 0x7f == 76 && 77u8 & 0x7f == 77 && 78u8 & 0x7f == 78 && 207u8 & 0x7f == 79 &&
        80u8 & 0x7f == 80 && 209u8 & 0x7f == 81 && 210u8 & 0x7f == 82 && 83u8 & 0x7f == 83 &&
        212u8 & 0x7f == 84 && 85u8 & 0x7f == 85 && 86u8 & 0x7f == 86 && 215u8 & 0x7f == 87 &&
        216u8 & 0x7f == 88 && 89u8 & 0x7f == 89 && 90u8 & 0x7f == 90 && 219u8 & 0x7f == 91 &&
        92u8 & 0x7f == 92 && 221u8 & 0x7f == 93 && 222u8 & 0x7f == 94 && 95u8 & 0x7f == 95 &&
        96u8 & 0x7f == 96 && 225u8 & 0x7f == 97 && 226u8 & 0x7f == 98 && 99u8 & 0x7f == 99 &&
        228u8 & 0x7f == 100 && 101u8 & 0x7f == 101 && 102u8 & 0x7f == 102 &&
        231u8 & 0x7f == 103 && 232u8 & 0x7f == 104 && 105u8 & 0x7f == 105 &&
        106u8 & 0x7f == 106 && 235u8 & 0x7f == 107 && 108u8 & 0x7f == 108 &&
        237u8 & 0x7f == 109 && 238u8 & 0x7f == 110 && 111u8 & 0x7f == 111 &&
        240u8 & 0x7f == 112 && 113u8 & 0x7f == 113 && 114u8 & 0x7f == 114 &&
        243u8 & 0x7f == 115 && 116u8 & 0x7f == 116 && 245u8 & 0x7f == 117 &&
        246u8 & 0x7f == 118 && 119u8 & 0x7f == 119 && 120u8 & 0x7f == 120 &&
        249u8 & 0x7f == 121 && 250u8 & 0x7f == 122 && 123u8 & 0x7f == 123 &&
        252u8 & 0x7f == 124 && 125u8 & 0x7f == 125 && 126u8 & 0x7f == 126 && 255u8 & 0x7f == 127) by (bit_vector);
    lemma_sign_product(KSIGNS_IQ2XS@[i]);
}

/// The 32-bit number made of two numbers of a block, low half first.
pub open spec fn word_at(qs: Seq<u16>, i: int) -> u32 {
    (qs[i] + qs[i + 1] * 0x1_0000) as u32
}

/// The integer that element `e` of a block stands for, in units of an eighth of the block's scale.
/// Each group of 32 has four grid indices in its first word; its second word holds four sign
/// indices of seven bits and the group's scale on top.
pub open spec fn iq2_value(block: BlockIq2Xxs, e: int) -> int {
    let g = e / 32;
    let t = e % 32 / 8;
    let lo = word_at(block.qs@, 4 * g);
    let hi = word_at(block.qs@, 4 * g + 2);
    let grid = IQ2XXS_GRID@[((lo >> ((8 * t) as u32)) & 0xff) as int];
    let signs = KSIGNS_IQ2XS@[((hi >> ((7 * t) as u32)) & 0x7f) as int];
    let scale = 2 * (hi >> 28u32) as int + 1;
    grid_byte(grid, e % 8) * sign_of(signs, e % 8) * scale
}

/// Get the integer that element `e` of a block stands for.
pub fn iq2_xxs_value(block: &BlockIq2Xxs, e: usize) -> (r: i32)
    requires
        e < 256,
    ensures
        r == iq2_value(*block, e as int),
        -8_000 <= r <= 8_000,
{
    let g: usize = e / 32;
    let t: u32 = (e % 32 / 8) as u32;
    let j: usize = e % 8;
    let lo: u32 = block.qs[4 * g] as u32 + block.qs[4 * g + 1] as u32 * 0x1_0000;
    let hi: u32 = block.qs[4 * g + 2] as u32 + block.qs[4 * g + 3] as u32 * 0x1_0000;
    let gs: u32 = 8 * t;
    let ss: u32 = 7 * t;
    assert((lo >> gs) & 0xff <= 0xff && (hi >> ss) & 0x7f <= 0x7f && hi >> 28u32 <= 15)
        by (bit_vector);
    let grid: u64 = IQ2XXS_GRID[((lo >> gs) & 0xff) as usize];
    let signs: u8 = KSIGNS_IQ2XS[((hi >> ss) & 0x7f) as usize];
    let scale: i32 = 2 * (hi >> 28u32) as i32 + 1;
    let b: i32 = iq2xxs_grid_byte(grid, j);
    let s: i32 = iq2xxs_sign(signs, j);
    assert(-255 <= b * s <= 255) by (nonlinear_arith)
        requires
            0 <= b <= 255,
            s == 1 || s == -1,
    ;
    assert(-8_000 <= b * s * scale <= 8_000) by (nonlinear_arith)
        requires
            -255 <= b * s <= 255,
            1 <= scale <= 31,
    ;
    b * s * scale
}

/// The integer part of the dot product of an IQ2_XXS block with a Q8_K block.
pub open spec fn iq2_dot(block: BlockIq2Xxs, q8: Seq<i8>) -> int {
    sum_below(256, |e: int| iq2_value(block, e) * q8[e])
}

/// Compute the integer part of the dot product of an IQ2_XXS block with a Q8_K block.
pub fn iq2_xxs_q8_k_sum(block: &BlockIq2Xxs, q8: &BlockQ8K) -> (r: i64)
    ensures
        r == iq2_dot(*block, q8.qs@),
{
    let ghost f = |e: int| iq2_value(*block, e) * q8.qs@[e];
    let mut sum: i64 = 0;
    let mut e: usize = 0;
    while e < 256
        invariant
            e <= 256,
            f == (|e: int| iq2_value(*block, e) * q8.qs@[e]),
            sum == sum_below(e as nat, f),
            -1_100_000 * e <= sum <= 1_100_000 * e,
        decreases 256 - e,
    {
        let v: i64 = iq2_xxs_value(block, e) as i64;
        let q: i64 = q8.qs[e] as i64;
        assert(-1_100_000 <= v * q <= 1_100_000) by (nonlinear_arith)
            requires
                -8_000 <= v <= 8_000,
                -128 <= q <= 127,
        ;
        assert(f(e as int) == v * q);
        sum = sum + v * q;
        e = e + 1;
    }
    sum
}

// Codes of single elements

/// The scale, the minimum and the code of element `e` of a Q2_K block as it is dequantized. In each
/// half of the block, 64 elements take their codes from the first 16 bytes, one shift after the
/// other, and 64 from the next 16.
pub open spec fn q2_stored(block: BlockQ2K, e: int) -> (int, int, int) {
    let sub = e / 128 * 8 + e % 64 / 16 * 2 + e % 128 / 64;
    (
        q2_scale(block, sub),
        q2_min(block, sub),
        two_bits(
            block.qs@[e / 128 * 32 + e % 128 / 64 * 16 + e % 16],
            (e % 64 / 16 * 2) as u32,
        ),
    )
}

/// Get the scale, the minimum and the code of element `e` of a Q2_K block. The element is
/// `d * scale * code - dmin * minimum`.
pub fn q2_k_element(block: &BlockQ2K, e: usize) -> (r: (u8, u8, u8))
    requires
        e < 256,
    ensures
        (r.0 as int, r.1 as int, r.2 as int) == q2_stored(*block, e as int),
{
    let sub: usize = e / 128 * 8 + e % 64 / 16 * 2 + e % 128 / 64;
    let at: usize = e / 128 * 32 + e % 128 / 64 * 16 + e % 16;
    let shift: u32 = (e % 64 / 16 * 2) as u32;
    let sc: u8 = block.scales[sub];
    (sc & 0x0f, sc >> 4, (block.qs[at] >> shift) & 3)
}

/// The 6-bit scale of sub-block `j` of a Q4_K block. Two scales take three bytes: six bits of the
/// first byte, and the next six from its top and the low bits of the second.
pub open spec fn q4_scale(block: BlockQ4K, j: int) -> int {
    let b = block.scales@[j * 3 / 2] as int;
    if j % 2 == 0 {
        b % 64
    } else {
        b / 64 + block.scales@[j * 3 / 2 + 1] as int % 16 * 4
    }
}

/// The 4-bit code of element `e` of a Q4_K block: the low half of a byte comes first.
pub open spec fn q4_code(block: BlockQ4K, e: int) -> int {
    let b = block.qs@[e / 2] as int;
    if e % 2 == 0 {
        b % 16
    } else {
        b / 16
    }
}

/// Get the scale and the code of element `e` of a Q4_K block. The element is
/// `d * scale * code - dmin * scale`.
pub fn q4_k_element(block: &BlockQ4K, e: usize) -> (r: (u8, u8))
    requires
        e < 256,
    ensures
        r.0 == q4_scale(*block, e as int / 32) && r.0 <= 63,
        r.1 == q4_code(*block, e as int) && r.1 <= 15,
{
    let j: usize = e / 32;
    let at: usize = j * 3 / 2;
    let scale: u8 = if j % 2 == 0 {
        block.scales[at] % 64
    } else {
        block.scales[at] / 64 + block.scales[at + 1] % 16 * 4
    };
    let b: u8 = block.qs[e / 2];
    let code: u8 = if e % 2 == 0 {
        b % 16
    } else {
        b / 16
    };
    (scale, code)
}

// Activations

/// A number cut to the range of 8 bits.
pub open spec fn clamp8(v: i32) -> i8 {
    if v < -128 {
        -128i8 as i8
    } else if v > 127 {
        127
    } else {
        v as i8
    }
}

/// The values of a block after storing codes in its front.
pub open spec fn stored_codes(old: Seq<i8>, codes: Seq<i32>) -> Seq<i8> {
    Seq::new(
        old.len(),
        |i: int|
            if i < codes.len() {
                clamp8(codes[i])
            } else {
                old[i]
            },
    )
}

/// The sum of the part of sub-block `s` that lies below `len`.
pub open spec fn sub_sum(qs: Seq<i8>, s: int, len: int) -> int {
    let n = if len < 16 * s {
        0
    } else if len < 16 * s + 16 {
        len - 16 * s
    } else {
        16
    };
    sum_below(n as nat, |i: int| qs[16 * s + i] as int)
}

impl BlockQ8K {
    /// Store a scale and up to 256 codes, cut to 8 bits, and the sums of the sub-blocks over these
    /// codes.
    pub fn store(&mut self, d: u32, codes: &[i32])
        requires
            codes@.len() <= 256,
        ensures
            final(self).d == d,
            final(self).qs@ == stored_codes(old(self).qs@, codes@),
            forall|s: int|
                0 <= s < 16 ==> (#[trigger] final(self).bsums@[s]) as int == sub_sum(
                    final(self).qs@,
                    s,
                    codes@.len() as int,
                ),
    {
        self.d = d;
        let mut i: usize = 0;
        while i < codes.len()
            invariant
                i <= codes@.len() <= 256,
                self.d == d,
                self.qs@ =~= stored_codes(old(self).qs@, codes@.take(i as int)),
            decreases codes@.len() - i,
        {
            let v: i32 = codes[i];
            let c: i8 = if v < -128 {
                -128
            } else if v > 127 {
                127
            } else {
                v as i8
            };
            self.qs[i] = c;
            i = i + 1;
        }
        assert(codes@.take(codes@.len() as int) =~= codes@);
        let ghost qs = self.qs@;
        let mut s: usize = 0;
        while s < 16
            invariant
                s <= 16,
                codes@.len() <= 256,
                self.d == d,
                qs == self.qs@,
                forall|k: int|
                    0 <= k < s ==> (#[trigger] self.bsums@[k]) as int == sub_sum(
                        qs,
                        k,
                        codes@.len() as int,
                    ),
            decreases 16 - s,
        {
            let base: usize = 16 * s;
            let n: usize = if codes.len() < base {
                0
            } else if codes.len() < base + 16 {
                codes.len() - base
            } else {
                16
            };
            let ghost f = |i: int| qs[16 * s + i] as int;
            let mut sum: i16 = 0;
            let mut k: usize = 0;
            while k < n
                invariant
                    k <= n <= 16,
                    s < 16,
                    base == 16 * s,
                    qs == self.qs@,
                    f == (|i: int| qs[16 * s + i] as int),
                    sum == sum_below(k as nat, f),
                    -128 * k <= sum <= 127 * k,
                decreases n - k,
            {
                assert(f(k as int) == qs[base + k]);
                sum = sum + self.qs[base + k] as i16;
                k = k + 1;
            }
            self.bsums[s] = sum;
            s = s + 1;
        }
    }
}

/// The sub-block sums of a block that was filled with 256 codes agree with its values.
pub proof fn law_full_block_sums_agree(qs: Seq<i8>, bsums: Seq<i16>)
    requires
        forall|s: int|
            0 <= s < 16 ==> (#[trigger] bsums[s]) as int == sub_sum(qs, s, 256),
    ensures
        sums_agree(qs, bsums),
{
}

// Blocks in bytes

/// View bytes as signed bytes with `bytemuck::cast_slice`, which keeps every byte. Source and target
/// have the same size and alignment, so it never fails.
#[verifier::external_body]
fn signed_bytes(b: &[u8]) -> (r: &[i8])
    ensures
        r@ == Seq::new(b@.len(), |i: int| b@[i] as i8),
{
    bytemuck::cast_slice::<u8, i8>(b)
}

/// A two-byte number at `pos`.
pub open spec fn le16(b: Seq<u8>, pos: int) -> u16 {
    (b[pos] + b[pos + 1] * 256) as u16
}

/// Bytes in memory are the fields of a Q8_0 block one after the other.
pub open spec fn is_q8_0(b: Seq<u8>, block: BlockQ80) -> bool {
    &&& block.d == le16(b, 0)
    &&& forall|i: int| 0 <= i < 32 ==> (#[trigger] block.qs@[i]) == b[2 + i] as i8
}

pub open spec fn is_q2_k(b: Seq<u8>, block: BlockQ2K) -> bool {
    &&& block.scales@ == b.subrange(0, 16)
    &&& block.qs@ == b.subrange(16, 80)
    &&& block.d == le16(b, 80)
    &&& block.dmin == le16(b, 82)
}

pub open spec fn is_q4_k(b: Seq<u8>, block: BlockQ4K) -> bool {
    &&& block.d == le16(b, 0)
    &&& block.dmin == le16(b, 2)
    &&& block.scales@ == b.subrange(4, 16)
    &&& block.qs@ == b.subrange(16, 144)
}

pub open spec fn is_iq2_xxs(b: Seq<u8>, block: BlockIq2Xxs) -> bool {
    &&& block.d == le16(b, 0)
    &&& forall|i: int| 0 <= i < 32 ==> (#[trigger] block.qs@[i]) == le16(b, 2 + 2 * i)
}

pub open spec fn is_q8_k(b: Seq<u8>, block: BlockQ8K) -> bool {
    &&& block.d == le_value(b.subrange(0, 4))
    &&& forall|i: int| 0 <= i < 256 ==> (#[trigger] block.qs@[i]) == b[4 + i] as i8
    &&& forall|i: int| 0 <= i < 16 ==> (#[trigger] block.bsums@[i]) == le16(b, 260 + 2 * i) as i16
}

/// The bytes of block `i` in a row of blocks of `size` bytes.
pub open spec fn block_bytes(data: Seq<u8>, size: int, i: int) -> Seq<u8> {
    data.subrange(size * i, size * i + size)
}

fn u16_at(b: &[u8], pos: usize) -> (r: u16)
    requires
        pos + 1 < b@.len(),
    ensures
        r == le16(b@, pos as int),
{
    b[pos] as u16 + b[pos + 1] as u16 * 256
}

/// Cut block `i` out of a row of blocks.
fn block_slice(data: &[u8], size: usize, i: usize) -> (r: &[u8])
    requires
        size * i + size <= data@.len(),
    ensures
        r@ == block_bytes(data@, size as int, i as int),
        r@.len() == size,
{
    let ghost len = data.len();
    assert(size * i + size <= len);
    let at: usize = size * i;
    slice_subrange(data, at, at + size)
}

impl BlockQ80 {
    /// Read block `i` of a row of blocks.
    pub fn read(data: &[u8], i: usize) -> (r: BlockQ80)
        requires
            34 * i + 34 <= data@.len(),
        ensures
            is_q8_0(block_bytes(data@, 34, i as int), r),
    {
        let b = block_slice(data, 34, i);
        let s = signed_bytes(slice_subrange(b, 2, 34));
        let mut qs: [i8; 32] = [0; 32];
        let mut k: usize = 0;
        while k < 32
            invariant
                k <= 32,
                s@.len() == 32,
                forall|j: int| 0 <= j < k ==> (#[trigger] qs@[j]) == s@[j],
            decreases 32 - k,
        {
            qs[k] = s[k];
            k = k + 1;
        }
        BlockQ80 { d: u16_at(b, 0), qs }
    }
}

impl BlockQ2K {
    /// Read block `i` of a row of blocks.
    pub fn read(data: &[u8], i: usize) -> (r: BlockQ2K)
        requires
            84 * i + 84 <= data@.len(),
        ensures
            is_q2_k(block_bytes(data@, 84, i as int), r),
    {
        let b = block_slice(data, 84, i);
        let mut scales: [u8; 16] = [0; 16];
        let mut k: usize = 0;
        while k < 16
            invariant
                k <= 16,
                b@.len() == 84,
                forall|j: int| 0 <= j < k ==> (#[trigger] scales@[j]) == b@[j],
            decreases 16 - k,
        {
            scales[k] = b[k];
            k = k + 1;
        }
        let mut qs: [u8; 64] = [0; 64];
        let mut n: usize = 0;
        while n < 64
            invariant
                n <= 64,
                b@.len() == 84,
                forall|j: int| 0 <= j < n ==> (#[trigger] qs@[j]) == b@[16 + j],
            decreases 64 - n,
        {
            qs[n] = b[16 + n];
            n = n + 1;
        }
        assert(scales@ =~= b@.subrange(0, 16));
        assert(qs@ =~= b@.subrange(16, 80));
        BlockQ2K { scales, qs, d: u16_at(b, 80), dmin: u16_at(b, 82) }
    }
}

impl BlockQ4K {
    /// Read block `i` of a row of blocks.
    pub fn read(data: &[u8], i: usize) -> (r: BlockQ4K)
        requires
            144 * i + 144 <= data@.len(),
        ensures
            is_q4_k(block_bytes(data@, 144, i as int), r),
    {
        let b = block_slice(data, 144, i);
        let mut scales: [u8; 12] = [0; 12];
        let mut k: usize = 0;
        while k < 12
            invariant
                k <= 12,
                b@.len() == 144,
                forall|j: int| 0 <= j < k ==> (#[trigger] scales@[j]) == b@[4 + j],
            decreases 12 - k,
        {
            scales[k] = b[4 + k];
            k = k + 1;
        }
        let mut qs: [u8; 128] = [0; 128];
        let mut n: usize = 0;
        while n < 128
            invariant
                n <= 128,
                b@.len() == 144,
                forall|j: int| 0 <= j < n ==> (#[trigger] qs@[j]) == b@[16 + j],
            decreases 128 - n,
        {
            qs[n] = b[16 + n];
            n = n + 1;
        }
        assert(scales@ =~= b@.subrange(4, 16));
        assert(qs@ =~= b@.subrange(16, 144));
        BlockQ4K { d: u16_at(b, 0), dmin: u16_at(b, 2), scales, qs }
    }
}

impl BlockIq2Xxs {
    /// Read block `i` of a row of blocks.
    pub fn read(data: &[u8], i: usize) -> (r: BlockIq2Xxs)
        requires
            66 * i + 66 <= data@.len(),
        ensures
            is_iq2_xxs(block_bytes(data@, 66, i as int), r),
    {
        let b = block_slice(data, 66, i);
        let mut qs: [u16; 32] = [0; 32];
        let mut k: usize = 0;
        while k < 32
            invariant
                k <= 32,
                b@.len() == 66,
                forall|j: int| 0 <= j < k ==> (#[trigger] qs@[j]) == le16(b@, 2 + 2 * j),
            decreases 32 - k,
        {
            qs[k] = u16_at(b, 2 + 2 * k);
            k = k + 1;
        }
        BlockIq2Xxs { d: u16_at(b, 0), qs }
    }
}

impl BlockQ8K {
    /// A block of zeros.
    pub fn zero() -> (r: BlockQ8K)
        ensures
            r.d == 0,
            forall|i: int| 0 <= i < 256 ==> (#[trigger] r.qs@[i]) == 0,
            forall|i: int| 0 <= i < 16 ==> (#[trigger] r.bsums@[i]) == 0,
    {
        BlockQ8K { d: 0, qs: [0; 256], bsums: [0; 16] }
    }

    /// Read block `i` of a row of blocks.
    pub fn read(data: &[u8], i: usize) -> (r: BlockQ8K)
        requires
            292 * i + 292 <= data@.len(),
        ensures
            is_q8_k(block_bytes(data@, 292, i as int), r),
    {
        let b = block_slice(data, 292, i);
        let s = signed_bytes(slice_subrange(b, 4, 260));
        let mut qs: [i8; 256] = [0; 256];
        let mut k: usize = 0;
        while k < 256
            invariant
                k <= 256,
                s@.len() == 256,
                forall|j: int| 0 <= j < k ==> (#[trigger] qs@[j]) == s@[j],
            decreases 256 - k,
        {
            qs[k] = s[k];
            k = k + 1;
        }
        let mut bsums: [i16; 16] = [0; 16];
        let mut n: usize = 0;
        while n < 16
            invariant
                n <= 16,
                b@.len() == 292,
                forall|j: int| 0 <= j < n ==> (#[trigger] bsums@[j]) == le16(b@, 260 + 2 * j) as i16,
            decreases 16 - n,
        {
            bsums[n] = u16_at(b, 260 + 2 * n) as i16;
            n = n + 1;
        }
        let head = slice_subrange(b, 0, 4);
        let d: u64 = decode_le(head);
        proof {
            lemma_byte_range();
            lemma_le_value_bound(head@);
        }
        BlockQ8K { d: d as u32, qs, bsums }
    }
}

} // verus!

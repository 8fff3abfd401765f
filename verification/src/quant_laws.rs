//! What the block formats promise: where each code, scale and sign stands in a block, what a dot
//! product owes to each of its values, and how a block lies in bytes.
use crate::bytes::{law_le_bytes_of_value, law_le_round_trip, le_bytes, le_value, lemma_byte_range};
use crate::quant::{
    block_bytes, clamp8, grid_byte, iq2_dot, iq2_value, is_iq2_xxs, is_q2_k, is_q4_k, is_q8_0,
    is_q8_k, le16, q2_code, q2_dot, q2_min, q2_mins, q2_scale, q2_stored, q4_code, q4_scale,
    sign_of, stored_codes, sub_sum, sum_below, two_bits, word_at, BlockIq2Xxs, BlockQ2K, BlockQ4K,
    BlockQ80, BlockQ8K,
};
use crate::quant_tables::{IQ2XXS_GRID, KSIGNS_IQ2XS};
use crate::tensor_types::{blocks_bytes, known_type, type_table};
use vstd::prelude::*;

verus! {

// Sums

/// Sums with the same terms are the same.
proof fn lemma_sum_same(n: nat, f: spec_fn(int) -> int, g: spec_fn(int) -> int)
    requires
        forall|i: int| 0 <= i < n ==> #[trigger] f(i) == g(i),
    ensures
        sum_below(n, f) == sum_below(n, g),
    decreases n,
{
    if n > 0 {
        lemma_sum_same((n - 1) as nat, f, g);
        assert(f(n - 1) == g(n - 1));
    }
}

/// Sums that differ in one term differ by as much as the terms do.
proof fn lemma_sum_one(n: nat, f: spec_fn(int) -> int, g: spec_fn(int) -> int, e: int)
    requires
        0 <= e < n,
        forall|i: int| 0 <= i < n && i != e ==> #[trigger] f(i) == g(i),
    ensures
        sum_below(n, f) - sum_below(n, g) == f(e) - g(e),
    decreases n,
{
    let m = (n - 1) as nat;
    if e == m {
        lemma_sum_same(m, f, g);
    } else {
        lemma_sum_one(m, f, g, e);
        assert(f(m as int) == g(m as int));
    }
}

/// A sum of zeros is zero.
proof fn lemma_sum_zero(n: nat, f: spec_fn(int) -> int)
    requires
        forall|i: int| 0 <= i < n ==> #[trigger] f(i) == 0,
    ensures
        sum_below(n, f) == 0,
    decreases n,
{
    if n > 0 {
        lemma_sum_zero((n - 1) as nat, f);
        assert(f(n - 1) == 0);
    }
}

// Q2_K

/// A scale byte of a Q2_K block is sixteen times the minimum of its sub-block plus the scale, and
/// both are below sixteen.
pub proof fn law_q2_scale_byte(block: BlockQ2K, sub: int)
    requires
        0 <= sub < 16,
    ensures
        block.scales@[sub] == 16 * q2_min(block, sub) + q2_scale(block, sub),
        0 <= q2_scale(block, sub) < 16,
        0 <= q2_min(block, sub) < 16,
{
    let b: u8 = block.scales@[sub];
    assert(b == 16 * (b >> 4) + (b & 0x0f) && b & 0x0f < 16 && b >> 4 < 16) by (bit_vector);
}

/// A byte is made of its four two-bit fields.
proof fn lemma_two_bits(b: u8)
    ensures
        b == two_bits(b, 0) + 4 * two_bits(b, 2) + 16 * two_bits(b, 4) + 64 * two_bits(b, 6),
        0 <= two_bits(b, 0) < 4,
        0 <= two_bits(b, 2) < 4,
        0 <= two_bits(b, 4) < 4,
        0 <= two_bits(b, 6) < 4,
{
    assert(b == ((b >> 0u32) & 3) + 4 * ((b >> 2u32) & 3) + 16 * ((b >> 4u32) & 3) + 64 * ((b
        >> 6u32) & 3) && ((b >> 0u32) & 3) < 4 && ((b >> 2u32) & 3) < 4 && ((b >> 4u32) & 3) < 4
        && ((b >> 6u32) & 3) < 4) by (bit_vector);
}

/// Byte `32 * h + r` of a Q2_K block holds the codes of four elements, 32 apart, the first in its
/// lowest two bits: every code of the block stands in one place, and every place holds one code.
pub proof fn law_q2_code_bytes(block: BlockQ2K, h: int, r: int)
    requires
        0 <= h < 2,
        0 <= r < 32,
    ensures
        block.qs@[32 * h + r] == q2_code(block, 128 * h + r) + 4 * q2_code(
            block,
            128 * h + 32 + r,
        ) + 16 * q2_code(block, 128 * h + 64 + r) + 64 * q2_code(block, 128 * h + 96 + r),
        0 <= q2_code(block, 128 * h + r) < 4,
        0 <= q2_code(block, 128 * h + 32 + r) < 4,
        0 <= q2_code(block, 128 * h + 64 + r) < 4,
        0 <= q2_code(block, 128 * h + 96 + r) < 4,
{
    lemma_two_bits(block.qs@[32 * h + r]);
}

/// In the first sum of a Q2_K block each value counts as often as its code times the scale of its
/// sub-block of sixteen says: replacing value `e` changes the sum by the difference times the code
/// times the low four bits of scale byte `e / 16`. The sum with nothing but zeros is zero.
pub proof fn law_q2_dot_weighs_values(block: BlockQ2K, q8: Seq<i8>, e: int, v: i8)
    requires
        q8.len() == 256,
        0 <= e < 256,
    ensures
        q2_dot(block, q8.update(e, v)) - q2_dot(block, q8) == block.scales@[e / 16] as int % 16 * ((v
            - q8[e]) * q2_code(block, e)),
        q2_dot(block, Seq::new(256, |i: int| 0i8)) == 0,
{
    law_q2_scale_byte(block, e / 16);
    let new = q8.update(e, v);
    let f = |k: int| q2_scale(block, k / 16) * (new[k] * q2_code(block, k));
    let g = |k: int| q2_scale(block, k / 16) * (q8[k] * q2_code(block, k));
    lemma_sum_one(256, f, g, e);
    let s = q2_scale(block, e / 16);
    let c = q2_code(block, e);
    let o = q8[e] as int;
    let w = v as int;
    assert(s * (w * c) - s * (o * c) == s * ((w - o) * c)) by (nonlinear_arith);
    let z = Seq::new(256, |i: int| 0i8);
    let h = |k: int| q2_scale(block, k / 16) * (z[k] * q2_code(block, k));
    assert forall|k: int| 0 <= k < 256 implies #[trigger] h(k) == 0 by {
        let t = q2_scale(block, k / 16);
        let d = q2_code(block, k);
        assert(t * (0 * d) == 0) by (nonlinear_arith);
    }
    lemma_sum_zero(256, h);
}

/// In the second sum of a Q2_K block the sum of sub-block `s` counts as often as the high four bits
/// of its scale byte say.
pub proof fn law_q2_mins_weigh_sums(block: BlockQ2K, bsums: Seq<i16>, s: int, v: i16)
    requires
        bsums.len() == 16,
        0 <= s < 16,
    ensures
        q2_mins(block, bsums.update(s, v)) - q2_mins(block, bsums) == (v - bsums[s]) * (
        block.scales@[s] as int / 16),
        q2_mins(block, Seq::new(16, |i: int| 0i16)) == 0,
{
    law_q2_scale_byte(block, s);
    let new = bsums.update(s, v);
    let f = |k: int| new[k] * q2_min(block, k);
    let g = |k: int| bsums[k] * q2_min(block, k);
    lemma_sum_one(16, f, g, s);
    let m = q2_min(block, s);
    let o = bsums[s] as int;
    let w = v as int;
    assert(w * m - o * m == (w - o) * m) by (nonlinear_arith);
    let z = Seq::new(16, |i: int| 0i16);
    let h = |k: int| z[k] * q2_min(block, k);
    assert forall|k: int| 0 <= k < 16 implies #[trigger] h(k) == 0 by {
        let t = q2_min(block, k);
        assert(0 * t == 0) by (nonlinear_arith);
    }
    lemma_sum_zero(16, h);
}

/// The first sum of a Q2_K block does not change when only the high halves of scale bytes do, and
/// the second one does not change when only their low halves or the codes do.
pub proof fn law_q2_sums_apart(a: BlockQ2K, b: BlockQ2K, q8: Seq<i8>, bsums: Seq<i16>)
    ensures
        a.qs@ == b.qs@ && (forall|s: int|
            0 <= s < 16 ==> (#[trigger] a.scales@[s]) % 16 == b.scales@[s] % 16) ==> q2_dot(a, q8)
            == q2_dot(b, q8),
        (forall|s: int| 0 <= s < 16 ==> (#[trigger] a.scales@[s]) / 16 == b.scales@[s] / 16)
            ==> q2_mins(a, bsums) == q2_mins(b, bsums),
{
    if a.qs@ == b.qs@ && (forall|s: int|
        0 <= s < 16 ==> (#[trigger] a.scales@[s]) % 16 == b.scales@[s] % 16) {
        let f = |k: int| q2_scale(a, k / 16) * (q8[k] * q2_code(a, k));
        let g = |k: int| q2_scale(b, k / 16) * (q8[k] * q2_code(b, k));
        assert forall|k: int| 0 <= k < 256 implies #[trigger] f(k) == g(k) by {
            law_q2_scale_byte(a, k / 16);
            law_q2_scale_byte(b, k / 16);
            assert(a.scales@[k / 16] % 16 == b.scales@[k / 16] % 16);
        }
        lemma_sum_same(256, f, g);
    }
    if forall|s: int| 0 <= s < 16 ==> (#[trigger] a.scales@[s]) / 16 == b.scales@[s] / 16 {
        let f = |k: int| bsums[k] * q2_min(a, k);
        let g = |k: int| bsums[k] * q2_min(b, k);
        assert forall|k: int| 0 <= k < 16 implies #[trigger] f(k) == g(k) by {
            law_q2_scale_byte(a, k);
            law_q2_scale_byte(b, k);
            assert(a.scales@[k] / 16 == b.scales@[k] / 16);
        }
        lemma_sum_same(16, f, g);
    }
}

/// Expanding a Q2_K block and multiplying with it read the same codes under the same scales: the
/// element expanded as `128 * h + 64 * g + 16 * j + r` is the one that a dot product counts as
/// `128 * h + 32 * j + 16 * g + r`, with the two halves of that sub-block's scale byte.
pub proof fn law_q2_element_is_weighed_alike(block: BlockQ2K, h: int, g: int, j: int, r: int)
    requires
        0 <= h < 2,
        0 <= g < 2,
        0 <= j < 4,
        0 <= r < 16,
    ensures
        q2_stored(block, 128 * h + 64 * g + 16 * j + r) == (
            block.scales@[8 * h + 2 * j + g] as int % 16,
            block.scales@[8 * h + 2 * j + g] as int / 16,
            q2_code(block, 128 * h + 32 * j + 16 * g + r),
        ),
        (128 * h + 32 * j + 16 * g + r) / 16 == 8 * h + 2 * j + g,
        q2_stored(block, 128 * h + 64 * g + 16 * j + r).0 == q2_scale(
            block,
            (128 * h + 32 * j + 16 * g + r) / 16,
        ),
        q2_stored(block, 128 * h + 64 * g + 16 * j + r).1 == q2_min(
            block,
            (128 * h + 32 * j + 16 * g + r) / 16,
        ),
{
    let e = 128 * h + 64 * g + 16 * j + r;
    let f = 128 * h + 32 * j + 16 * g + r;
    assert(e / 128 == h && e % 128 == 64 * g + 16 * j + r);
    assert(e % 128 / 64 == g && e % 64 == 16 * j + r);
    assert(e % 64 / 16 == j && e % 16 == r);
    assert(f / 128 == h && f % 128 == 32 * j + 16 * g + r);
    assert(f % 128 / 32 == j && f % 32 == 16 * g + r);
    assert(f / 16 == 8 * h + 2 * j + g);
    law_q2_scale_byte(block, f / 16);
}

// Q4_K

/// Byte `k` of the codes of a Q4_K block holds elements `2 * k` and `2 * k + 1`, the first in its
/// low half.
pub proof fn law_q4_code_bytes(block: BlockQ4K, k: int)
    requires
        0 <= k < 128,
    ensures
        block.qs@[k] == q4_code(block, 2 * k) + 16 * q4_code(block, 2 * k + 1),
        0 <= q4_code(block, 2 * k) < 16,
        0 <= q4_code(block, 2 * k + 1) < 16,
{
}

/// Three scale bytes of a Q4_K block hold two scales of six bits: the low bits of the first byte
/// are the first, and the second begins with the top bits of the byte behind it and ends with the
/// low bits of the last.
pub proof fn law_q4_scale_bytes(block: BlockQ4K, p: int)
    requires
        0 <= p < 4,
    ensures
        0 <= q4_scale(block, 2 * p) < 64,
        (block.scales@[3 * p] - q4_scale(block, 2 * p)) % 64 == 0,
        0 <= q4_scale(block, 2 * p + 1) < 64,
        q4_scale(block, 2 * p + 1) % 4 == block.scales@[3 * p + 1] as int / 64,
        (block.scales@[3 * p + 2] - q4_scale(block, 2 * p + 1) / 4) % 16 == 0,
{
    assert((2 * p + 1) * 3 / 2 == 3 * p + 1);
}

// IQ2_XXS

/// A grid entry is made of its eight bytes, the first the lowest.
pub proof fn law_grid_bytes(grid: u64)
    ensures
        grid == grid_byte(grid, 0) + 0x100 * grid_byte(grid, 1) + 0x1_0000 * grid_byte(grid, 2)
            + 0x100_0000 * grid_byte(grid, 3) + 0x1_0000_0000 * grid_byte(grid, 4)
            + 0x100_0000_0000 * grid_byte(grid, 5) + 0x1_0000_0000_0000 * grid_byte(grid, 6)
            + 0x100_0000_0000_0000 * grid_byte(grid, 7),
        forall|j: int| 0 <= j < 8 ==> 0 <= #[trigger] grid_byte(grid, j) < 256,
{
    assert(grid == ((grid >> 0u64) & 0xff) + 0x100 * ((grid >> 8u64) & 0xff) + 0x1_0000 * ((grid
        >> 16u64) & 0xff) + 0x100_0000 * ((grid >> 24u64) & 0xff) + 0x1_0000_0000 * ((grid >> 32u64)
        & 0xff) + 0x100_0000_0000 * ((grid >> 40u64) & 0xff) + 0x1_0000_0000_0000 * ((grid >> 48u64)
        & 0xff) + 0x100_0000_0000_0000 * ((grid >> 56u64) & 0xff)) by (bit_vector);
    assert forall|j: int| 0 <= j < 8 implies 0 <= #[trigger] grid_byte(grid, j) < 256 by {
        let s = (j * 8) as u64;
        assert((grid >> s) & 0xff <= 255) by (bit_vector);
    }
}

/// Bit `j` of a sign byte is set where sign `j` is a minus: the byte is the sum of the powers of two
/// of its minus signs.
pub proof fn law_sign_bits(signs: u8)
    ensures
        2 * signs == (1 - sign_of(signs, 0)) + 2 * (1 - sign_of(signs, 1)) + 4 * (1 - sign_of(
            signs,
            2,
        )) + 8 * (1 - sign_of(signs, 3)) + 16 * (1 - sign_of(signs, 4)) + 32 * (1 - sign_of(
            signs,
            5,
        )) + 64 * (1 - sign_of(signs, 6)) + 128 * (1 - sign_of(signs, 7)),
        forall|j: int| #[trigger] sign_of(signs, j) == 1 || sign_of(signs, j) == -1,
{
    assert(signs == ((signs >> 0u8) & 1) + 2 * ((signs >> 1u8) & 1) + 4 * ((signs >> 2u8) & 1) + 8
        * ((signs >> 3u8) & 1) + 16 * ((signs >> 4u8) & 1) + 32 * ((signs >> 5u8) & 1) + 64 * ((signs
        >> 6u8) & 1) + 128 * ((signs >> 7u8) & 1) && (signs >> 0u8) & 1 <= 1 && (signs >> 1u8) & 1
        <= 1 && (signs >> 2u8) & 1 <= 1 && (signs >> 3u8) & 1 <= 1 && (signs >> 4u8) & 1 <= 1 && (
    signs >> 5u8) & 1 <= 1 && (signs >> 6u8) & 1 <= 1 && (signs >> 7u8) & 1 <= 1) by (bit_vector);
}

/// The entries of the grid ascend, so that none occurs twice.
pub proof fn law_grid_ascends(i: int, j: int)
    requires
        0 <= i < j < 256,
    ensures
        IQ2XXS_GRID@[i] < IQ2XXS_GRID@[j],
    decreases j,
{
    assert(IQ2XXS_GRID@[j - 1] < IQ2XXS_GRID@[j]);
    if i < j - 1 {
        law_grid_ascends(i, j - 1);
    }
}

/// Sixteen terms more of a sum.
proof fn lemma_sum_sixteen(n: int, f: spec_fn(int) -> int)
    requires
        0 <= n,
    ensures
        sum_below((n + 16) as nat, f) == sum_below(n as nat, f) + f(n) + f(n + 1) + f(n + 2) + f(n + 3) + f(
            n + 4,
        ) + f(n + 5) + f(n + 6) + f(n + 7) + f(n + 8) + f(n + 9) + f(n + 10) + f(n + 11) + f(n + 12)
            + f(n + 13) + f(n + 14) + f(n + 15),
{
    reveal_with_fuel(sum_below, 17);
}

/// The sum of the grid's entries, which no change of one entry leaves as it is.
pub proof fn law_grid_sum()
    ensures
        sum_below(256, |i: int| IQ2XXS_GRID@[i] as int) == 360514977703162692451,
{
    let f = |i: int| IQ2XXS_GRID@[i] as int;
    assert(sum_below(0, f) == 0);
    lemma_sum_sixteen(0, f);
    assert(sum_below(16, f) == 9259542124715860816);
    lemma_sum_sixteen(16, f);
    assert(sum_below(32, f) == 18519085365077307076);
    lemma_sum_sixteen(32, f);
    assert(sum_below(48, f) == 27778926778058308029);
    lemma_sum_sixteen(48, f);
    assert(sum_below(64, f) == 37038887835944410037);
    lemma_sum_sixteen(64, f);
    assert(sum_below(80, f) == 46337018869466322077);
    lemma_sum_sixteen(80, f);
    assert(sum_below(96, f) == 55673253842954111108);
    lemma_sum_sixteen(96, f);
    assert(sum_below(112, f) == 65030026524824711380);
    lemma_sum_sixteen(112, f);
    assert(sum_below(128, f) == 74447363679862467329);
    lemma_sum_sixteen(128, f);
    assert(sum_below(144, f) == 98446215568766171863);
    lemma_sum_sixteen(144, f);
    assert(sum_below(160, f) == 127305517849626782142);
    lemma_sum_sixteen(160, f);
    assert(sum_below(176, f) == 156174775979162645704);
    lemma_sum_sixteen(176, f);
    assert(sum_below(192, f) == 185110716045855871494);
    lemma_sum_sixteen(192, f);
    assert(sum_below(208, f) == 214107513052268143324);
    lemma_sum_sixteen(208, f);
    assert(sum_below(224, f) == 261145088777580326444);
    lemma_sum_sixteen(224, f);
    assert(sum_below(240, f) == 310785841269304670280);
    lemma_sum_sixteen(240, f);
    assert(sum_below(256, f) == 360514977703162692451);
}

/// The four bytes of a word.
proof fn lemma_grid_fields(lo: u32, a: int, b: int, c: int, d: int)
    requires
        0 <= a < 256,
        0 <= b < 256,
        0 <= c < 256,
        0 <= d < 256,
        lo == a + 0x100 * b + 0x1_0000 * c + 0x100_0000 * d,
    ensures
        (lo >> 0u32) & 0xff == a,
        (lo >> 8u32) & 0xff == b,
        (lo >> 16u32) & 0xff == c,
        (lo >> 24u32) & 0xff == d,
{
    let (x, y, z, w) = (a as u32, b as u32, c as u32, d as u32);
    assert((lo >> 0u32) & 0xff == x && (lo >> 8u32) & 0xff == y && (lo >> 16u32) & 0xff == z && (lo
        >> 24u32) & 0xff == w) by (bit_vector)
        requires
            x < 256,
            y < 256,
            z < 256,
            w < 256,
            lo == x + 0x100 * y + 0x1_0000 * z + 0x100_0000 * w,
    ;
}

/// The four fields of seven bits of a word, and its top.
proof fn lemma_sign_fields(hi: u32, a: int, b: int, c: int, d: int, e: int)
    requires
        0 <= a < 128,
        0 <= b < 128,
        0 <= c < 128,
        0 <= d < 128,
        0 <= e < 16,
        hi == a + 0x80 * b + 0x4000 * c + 0x20_0000 * d + 0x1000_0000 * e,
    ensures
        (hi >> 0u32) & 0x7f == a,
        (hi >> 7u32) & 0x7f == b,
        (hi >> 14u32) & 0x7f == c,
        (hi >> 21u32) & 0x7f == d,
        hi >> 28u32 == e,
{
    let (x, y, z, w, v) = (a as u32, b as u32, c as u32, d as u32, e as u32);
    assert((hi >> 0u32) & 0x7f == x && (hi >> 7u32) & 0x7f == y && (hi >> 14u32) & 0x7f == z && (hi
        >> 21u32) & 0x7f == w && hi >> 28u32 == v) by (bit_vector)
        requires
            x < 128,
            y < 128,
            z < 128,
            w < 128,
            v < 16,
            hi == x + 0x80 * y + 0x4000 * z + 0x20_0000 * w + 0x1000_0000 * v,
    ;
}

/// A group of 32 elements of an IQ2_XXS block is built from four grid numbers, four sign numbers and
/// a scale: with these packed into its four words, element `8 * t + j` of the group is byte `j` of
/// grid entry `i[t]`, with sign `j` of sign entry `s[t]`, times twice the scale plus one.
pub proof fn law_iq2_group(
    block: BlockIq2Xxs,
    g: int,
    i: Seq<int>,
    s: Seq<int>,
    scale: int,
    t: int,
    j: int,
)
    requires
        0 <= g < 8,
        0 <= t < 4,
        0 <= j < 8,
        i.len() == 4,
        s.len() == 4,
        forall|k: int| 0 <= k < 4 ==> 0 <= #[trigger] i[k] < 256,
        forall|k: int| 0 <= k < 4 ==> 0 <= #[trigger] s[k] < 128,
        0 <= scale < 16,
        block.qs@[4 * g] + 0x1_0000 * block.qs@[4 * g + 1] == i[0] + 0x100 * i[1] + 0x1_0000 * i[2]
            + 0x100_0000 * i[3],
        block.qs@[4 * g + 2] + 0x1_0000 * block.qs@[4 * g + 3] == s[0] + 0x80 * s[1] + 0x4000 * s[2]
            + 0x20_0000 * s[3] + 0x1000_0000 * scale,
    ensures
        iq2_value(block, 32 * g + 8 * t + j) == grid_byte(IQ2XXS_GRID@[i[t]], j) * sign_of(
            KSIGNS_IQ2XS@[s[t]],
            j,
        ) * (2 * scale + 1),
{
    let e = 32 * g + 8 * t + j;
    assert(e / 32 == g && e % 32 / 8 == t && e % 8 == j);
    let lo = word_at(block.qs@, 4 * g);
    let hi = word_at(block.qs@, 4 * g + 2);
    assert(lo == i[0] + 0x100 * i[1] + 0x1_0000 * i[2] + 0x100_0000 * i[3]);
    assert(hi == s[0] + 0x80 * s[1] + 0x4000 * s[2] + 0x20_0000 * s[3] + 0x1000_0000 * scale);
    lemma_grid_fields(lo, i[0], i[1], i[2], i[3]);
    lemma_sign_fields(hi, s[0], s[1], s[2], s[3], scale);
    assert((8 * t) as u32 == 0 || (8 * t) as u32 == 8 || (8 * t) as u32 == 16 || (8 * t) as u32 == 24);
    assert(((lo >> ((8 * t) as u32)) & 0xff) == i[t]);
    assert(((hi >> ((7 * t) as u32)) & 0x7f) == s[t]);
}

/// In the sum of an IQ2_XXS block each value counts as often as its element says.
pub proof fn law_iq2_dot_weighs_values(block: BlockIq2Xxs, q8: Seq<i8>, e: int, v: i8)
    requires
        q8.len() == 256,
        0 <= e < 256,
    ensures
        iq2_dot(block, q8.update(e, v)) - iq2_dot(block, q8) == iq2_value(block, e) * (v - q8[e]),
        iq2_dot(block, Seq::new(256, |i: int| 0i8)) == 0,
{
    let new = q8.update(e, v);
    let f = |k: int| iq2_value(block, k) * new[k];
    let g = |k: int| iq2_value(block, k) * q8[k];
    lemma_sum_one(256, f, g, e);
    let c = iq2_value(block, e);
    let o = q8[e] as int;
    let w = v as int;
    assert(c * w - c * o == c * (w - o)) by (nonlinear_arith);
    let z = Seq::new(256, |i: int| 0i8);
    let h = |k: int| iq2_value(block, k) * z[k];
    assert forall|k: int| 0 <= k < 256 implies #[trigger] h(k) == 0 by {
        let t = iq2_value(block, k);
        assert(t * 0 == 0) by (nonlinear_arith);
    }
    lemma_sum_zero(256, h);
}

// Activations

/// A code that is stored is the 8-bit number nearest to it.
pub proof fn law_clamp8_is_nearest(v: i32, k: i8)
    ensures
        v <= clamp8(v) <= k || k <= clamp8(v) <= v || v == clamp8(v),
        clamp8(v) <= v <= k || k <= v <= clamp8(v) ==> v == clamp8(v) || k == clamp8(v),
{
}

/// Storing codes replaces the front of a block's values, one for one, and keeps the rest. Codes of
/// eight bits are stored as they are.
pub proof fn law_stored_codes(before: Seq<i8>, codes: Seq<i32>, i: int)
    requires
        0 <= i < before.len(),
    ensures
        stored_codes(before, codes).len() == before.len(),
        i < codes.len() && -128 <= codes[i] <= 127 ==> stored_codes(before, codes)[i] == codes[i],
        i < codes.len() && codes[i] > 127 ==> stored_codes(before, codes)[i] == 127,
        i < codes.len() && codes[i] < -128 ==> stored_codes(before, codes)[i] == -128,
        i >= codes.len() ==> stored_codes(before, codes)[i] == before[i],
{
}

/// One value more below the end adds itself to the sum of its own sub-block, and to no other.
pub proof fn law_sub_sum_grows(qs: Seq<i8>, s: int, n: int)
    requires
        0 <= s < 16,
        0 <= n < 256,
    ensures
        sub_sum(qs, s, 0) == 0,
        sub_sum(qs, s, n + 1) == sub_sum(qs, s, n) + if n / 16 == s {
            qs[n] as int
        } else {
            0
        },
{
    let f = |i: int| qs[16 * s + i] as int;
    assert(sum_below(0, f) == 0);
    if n / 16 == s {
        let k = (n - 16 * s) as nat;
        assert(sum_below(k + 1, f) == sum_below(k, f) + f(k as int));
    }
}

// Blocks in bytes

/// Two bytes of a number.
proof fn lemma_le16(b: Seq<u8>, pos: int, v: u16)
    requires
        0 <= pos,
        pos + 2 <= b.len(),
    ensures
        le_bytes(v as nat, 2).len() == 2,
        v == le16(b, pos) <==> b[pos] == le_bytes(v as nat, 2)[0] && b[pos + 1] == le_bytes(
            v as nat,
            2,
        )[1],
{
    reveal_with_fuel(le_bytes, 3);
    assert(le_bytes(v as nat, 2) =~= seq![(v as nat % 256) as u8, (v as nat / 256 % 256) as u8]);
}

/// A signed byte and the byte that stores it.
proof fn lemma_signed_byte(v: i8, b: u8)
    ensures
        v == b as i8 <==> b == v as u8,
{
    assert(v == b as i8 <==> b == v as u8) by (bit_vector);
}

/// A Q8_0 block in bytes: its scale, then its values.
pub open spec fn q8_0_bytes(block: BlockQ80) -> Seq<u8> {
    le_bytes(block.d as nat, 2) + Seq::new(32, |i: int| block.qs@[i] as u8)
}

/// A Q2_K block in bytes: its scale bytes, its codes, its scale and its minimum scale.
pub open spec fn q2_k_bytes(block: BlockQ2K) -> Seq<u8> {
    block.scales@ + block.qs@ + le_bytes(block.d as nat, 2) + le_bytes(block.dmin as nat, 2)
}

/// A Q4_K block in bytes: its scale, its minimum scale, its scale bytes and its codes.
pub open spec fn q4_k_bytes(block: BlockQ4K) -> Seq<u8> {
    le_bytes(block.d as nat, 2) + le_bytes(block.dmin as nat, 2) + block.scales@ + block.qs@
}

/// An IQ2_XXS block in bytes: its scale, then its words.
pub open spec fn iq2_xxs_bytes(block: BlockIq2Xxs) -> Seq<u8> {
    le_bytes(block.d as nat, 2) + Seq::new(
        64,
        |k: int| le_bytes(block.qs@[k / 2] as nat, 2)[k % 2],
    )
}

/// A Q8_K block in bytes: its scale, its values and its sub-block sums.
pub open spec fn q8_k_bytes(block: BlockQ8K) -> Seq<u8> {
    le_bytes(block.d as nat, 4) + Seq::new(256, |i: int| block.qs@[i] as u8) + Seq::new(
        32,
        |k: int| le_bytes(block.bsums@[k / 2] as u16 as nat, 2)[k % 2],
    )
}

/// Reading a Q8_0 block from 34 bytes undoes writing it, and it is the only block that they hold.
pub proof fn law_q8_0_bytes(b: Seq<u8>, block: BlockQ80)
    requires
        b.len() == 34,
    ensures
        is_q8_0(b, block) <==> b == q8_0_bytes(block),
{
    let w = q8_0_bytes(block);
    lemma_le16(b, 0, block.d);
    assert(w.len() == 34);
    assert forall|i: int| 0 <= i < 32 implies (block.qs@[i] == b[2 + i] as i8 <==> b[2 + i] == w[2
        + i]) by {
        lemma_signed_byte(block.qs@[i], b[2 + i]);
        assert(w[2 + i] == block.qs@[i] as u8);
    }
    if is_q8_0(b, block) {
        assert forall|k: int| 0 <= k < 34 implies b[k] == w[k] by {
            if k >= 2 {
                let i = k - 2;
                assert(block.qs@[i] == b[2 + i] as i8);
            }
        }
        assert(b =~= w);
    }
    if b == w {
        assert(is_q8_0(b, block));
    }
}

/// Reading a Q2_K block from 84 bytes undoes writing it, and it is the only block that they hold.
pub proof fn law_q2_k_bytes(b: Seq<u8>, block: BlockQ2K)
    requires
        b.len() == 84,
    ensures
        is_q2_k(b, block) <==> b == q2_k_bytes(block),
{
    let w = q2_k_bytes(block);
    lemma_le16(b, 80, block.d);
    lemma_le16(b, 82, block.dmin);
    assert(w.len() == 84);
    if is_q2_k(b, block) {
        assert(b =~= w);
    }
    if b == w {
        assert(w.subrange(0, 16) =~= block.scales@);
        assert(w.subrange(16, 80) =~= block.qs@);
    }
}

/// Reading a Q4_K block from 144 bytes undoes writing it, and it is the only block that they hold.
pub proof fn law_q4_k_bytes(b: Seq<u8>, block: BlockQ4K)
    requires
        b.len() == 144,
    ensures
        is_q4_k(b, block) <==> b == q4_k_bytes(block),
{
    let w = q4_k_bytes(block);
    lemma_le16(b, 0, block.d);
    lemma_le16(b, 2, block.dmin);
    assert(w.len() == 144);
    if is_q4_k(b, block) {
        assert(b =~= w);
    }
    if b == w {
        assert(w.subrange(4, 16) =~= block.scales@);
        assert(w.subrange(16, 144) =~= block.qs@);
    }
}

/// Reading an IQ2_XXS block from 66 bytes undoes writing it, and it is the only block that they
/// hold.
pub proof fn law_iq2_xxs_bytes(b: Seq<u8>, block: BlockIq2Xxs)
    requires
        b.len() == 66,
    ensures
        is_iq2_xxs(b, block) <==> b == iq2_xxs_bytes(block),
{
    let w = iq2_xxs_bytes(block);
    lemma_le16(b, 0, block.d);
    assert(w.len() == 66);
    assert forall|i: int| 0 <= i < 32 implies (block.qs@[i] == le16(b, 2 + 2 * i) <==> b[2 + 2 * i]
        == w[2 + 2 * i] && b[3 + 2 * i] == w[3 + 2 * i]) by {
        lemma_le16(b, 2 + 2 * i, block.qs@[i]);
        assert((2 * i) / 2 == i && (2 * i) % 2 == 0 && (2 * i + 1) / 2 == i && (2 * i + 1) % 2 == 1);
        assert(w[2 + 2 * i] == le_bytes(block.qs@[i] as nat, 2)[0]);
        assert(w[3 + 2 * i] == le_bytes(block.qs@[i] as nat, 2)[1]);
    }
    if is_iq2_xxs(b, block) {
        assert forall|k: int| 0 <= k < 66 implies b[k] == w[k] by {
            if k >= 2 {
                let i = (k - 2) / 2;
                assert(k == 2 + 2 * i || k == 3 + 2 * i);
                assert(block.qs@[i] == le16(b, 2 + 2 * i));
            }
        }
        assert(b =~= w);
    }
    if b == w {
        assert(is_iq2_xxs(b, block));
    }
}

/// A signed sum and the two bytes that store it.
proof fn lemma_signed16(v: i16, u: u16)
    ensures
        v == u as i16 <==> u == v as u16,
{
    assert(v == u as i16 <==> u == v as u16) by (bit_vector);
}

/// Four bytes of a number.
proof fn lemma_le32(b: Seq<u8>, v: u32)
    requires
        b.len() == 4,
    ensures
        le_bytes(v as nat, 4).len() == 4,
        v == le_value(b) <==> b == le_bytes(v as nat, 4),
{
    lemma_byte_range();
    law_le_round_trip(v as nat, 4);
    law_le_bytes_of_value(b);
}

/// Reading a Q8_K block from 292 bytes undoes writing it, and it is the only block that they hold.
pub proof fn law_q8_k_bytes(b: Seq<u8>, block: BlockQ8K)
    requires
        b.len() == 292,
    ensures
        is_q8_k(b, block) <==> b == q8_k_bytes(block),
{
    let w = q8_k_bytes(block);
    lemma_le32(b.subrange(0, 4), block.d);
    assert(w.len() == 292);
    assert forall|i: int| 0 <= i < 256 implies (block.qs@[i] == b[4 + i] as i8 <==> b[4 + i] == w[4
        + i]) by {
        lemma_signed_byte(block.qs@[i], b[4 + i]);
        assert(w[4 + i] == block.qs@[i] as u8);
    }
    assert forall|i: int| 0 <= i < 16 implies (block.bsums@[i] == le16(b, 260 + 2 * i) as i16 <==> b[
    260 + 2 * i] == w[260 + 2 * i] && b[261 + 2 * i] == w[261 + 2 * i]) by {
        let u = block.bsums@[i] as u16;
        lemma_signed16(block.bsums@[i], le16(b, 260 + 2 * i));
        lemma_le16(b, 260 + 2 * i, u);
        assert((2 * i) / 2 == i && (2 * i) % 2 == 0 && (2 * i + 1) / 2 == i && (2 * i + 1) % 2 == 1);
        assert(w[260 + 2 * i] == le_bytes(u as nat, 2)[0]);
        assert(w[261 + 2 * i] == le_bytes(u as nat, 2)[1]);
    }
    if is_q8_k(b, block) {
        assert forall|k: int| 0 <= k < 292 implies b[k] == w[k] by {
            if k < 4 {
                assert(b[k] == b.subrange(0, 4)[k]);
            } else if k < 260 {
                let i = k - 4;
                assert(block.qs@[i] == b[4 + i] as i8);
            } else {
                let i = (k - 260) / 2;
                assert(k == 260 + 2 * i || k == 261 + 2 * i);
                assert(block.bsums@[i] == le16(b, 260 + 2 * i) as i16);
            }
        }
        assert(b =~= w);
    }
    if b == w {
        assert(b.subrange(0, 4) =~= le_bytes(block.d as nat, 4));
        assert(is_q8_k(b, block));
    }
}

/// Blocks that lie one behind another: byte `k` of block `i` is byte `size * i + k` of all, and the
/// blocks of `n` take `size * n` bytes, none of them shared.
pub proof fn law_blocks_in_a_row(data: Seq<u8>, size: int, n: int, i: int, k: int)
    requires
        0 < size,
        0 <= i < n,
        0 <= k < size,
        data.len() == size * n,
    ensures
        block_bytes(data, size, i).len() == size,
        size * i + k < size * n,
        block_bytes(data, size, i)[k] == data[size * i + k],
        (size * i + k) / size == i,
        (size * i + k) % size == k,
{
    assert(size * i + size <= size * n && 0 <= size * i) by (nonlinear_arith)
        requires
            0 < size,
            0 <= i < n,
    ;
    assert(i * size == size * i) by (nonlinear_arith);
    vstd::arithmetic::div_mod::lemma_fundamental_div_mod_converse(size * i + k, size, i, k);
}

/// Bytes of `n` blocks of a type.
proof fn lemma_row_blocks(elements: nat, tensor_type: u32, n: nat)
    requires
        tensor_type < 31,
        type_table()[tensor_type as int].block_elems > 0,
        (elements + type_table()[tensor_type as int].block_elems - 1)
            / type_table()[tensor_type as int].block_elems as int == n,
    ensures
        blocks_bytes(elements, tensor_type) == type_table()[tensor_type as int].block_bytes * n,
{
    let z = type_table()[tensor_type as int].block_bytes as int;
    assert(n * z == z * n && n * z >= 0) by (nonlinear_arith)
        requires
            z >= 0,
    ;
}

/// A tensor type that the block readers know has as many elements in a block and takes as many bytes
/// for it as a block of that kind does in bytes: `n` whole blocks take `n` times those bytes.
pub proof fn law_block_types(
    n: nat,
    a: BlockQ80,
    b: BlockQ2K,
    c: BlockQ4K,
    d: BlockQ8K,
    e: BlockIq2Xxs,
)
    ensures
        blocks_bytes(32 * n, 8) == q8_0_bytes(a).len() * n,
        blocks_bytes(256 * n, 10) == q2_k_bytes(b).len() * n,
        blocks_bytes(256 * n, 12) == q4_k_bytes(c).len() * n,
        blocks_bytes(256 * n, 15) == q8_k_bytes(d).len() * n,
        blocks_bytes(256 * n, 16) == iq2_xxs_bytes(e).len() * n,
        blocks_bytes(32 * n, 8) == 34 * n,
        blocks_bytes(256 * n, 10) == 84 * n,
        blocks_bytes(256 * n, 12) == 144 * n,
        blocks_bytes(256 * n, 15) == 292 * n,
        blocks_bytes(256 * n, 16) == 66 * n,
{
    lemma_le32(seq![0, 0, 0, 0], d.d);
    lemma_le16(seq![0, 0], 0, a.d);
    lemma_le16(seq![0, 0], 0, b.d);
    lemma_le16(seq![0, 0], 0, b.dmin);
    lemma_le16(seq![0, 0], 0, c.d);
    lemma_le16(seq![0, 0], 0, c.dmin);
    lemma_le16(seq![0, 0], 0, e.d);
    assert(q8_0_bytes(a).len() == 34);
    assert(q2_k_bytes(b).len() == 84);
    assert(q4_k_bytes(c).len() == 144);
    assert(q8_k_bytes(d).len() == 292);
    assert(iq2_xxs_bytes(e).len() == 66);
    assert((32 * n + 31) / 32 == n);
    assert((256 * n + 255) / 256 == n);
    lemma_row_blocks(32 * n, 8, n);
    lemma_row_blocks(256 * n, 10, n);
    lemma_row_blocks(256 * n, 12, n);
    lemma_row_blocks(256 * n, 15, n);
    lemma_row_blocks(256 * n, 16, n);
}

/// The elements of a tensor take whole blocks: one element more takes one block more where the
/// blocks were full, and no byte more otherwise. No element takes nothing.
pub proof fn law_blocks_bytes_grow(elements: nat, tensor_type: u32)
    requires
        known_type(tensor_type),
    ensures
        blocks_bytes(0, tensor_type) == 0,
        blocks_bytes(elements + 1, tensor_type) == blocks_bytes(elements, tensor_type) + if elements
            % (type_table()[tensor_type as int].block_elems as nat) == 0 {
            type_table()[tensor_type as int].block_bytes as int
        } else {
            0
        },
{
    let row = type_table()[tensor_type as int];
    let k = row.block_elems as int;
    let m = elements as int;
    let c = (m + k - 1) / k;
    if k == 1 {
    } else if k == 32 {
        assert((m + 32) / 32 == (m + 31) / 32 + if m % 32 == 0 {
            1int
        } else {
            0
        });
    } else {
        assert(k == 256);
        assert((m + 256) / 256 == (m + 255) / 256 + if m % 256 == 0 {
            1int
        } else {
            0
        });
    }
    assert(c >= 0 && (k - 1) / k == 0);
    let z = row.block_bytes as int;
    assert((c + 1) * z == c * z + z) by (nonlinear_arith);
    assert(c * z >= 0) by (nonlinear_arith)
        requires
            c >= 0,
            z >= 0,
    ;
    assert(0 * z == 0) by (nonlinear_arith);
}

} // verus!

//! Quantized blocks: integer dot products, codes, layout in bytes.
use ds4::quant::{
    iq2_xxs_q8_k_sum, iq2_xxs_value, iq2xxs_grid_byte, iq2xxs_sign, q2_k_element, q2_k_q8_k_sums,
    q4_k_element, q8_0_dot, dot_q2_16, BlockIq2Xxs, BlockQ2K, BlockQ4K, BlockQ80, BlockQ8K, IQ2XXS_GRID,
    KSIGNS_IQ2XS,
};
use ds4::{f16_to_f32, f32_to_f16};

fn half_of(x: f32) -> u16 {
    f32_to_f16(x.to_bits())
}

fn float_of(h: u16) -> f32 {
    f32::from_bits(f16_to_f32(h))
}

/// The scaled dot product of Q2_K blocks with Q8_K blocks.
fn vec_dot_q2_k_q8_k(q2: &[BlockQ2K], q8: &[BlockQ8K], n: usize) -> f32 {
    let mut sum = 0.0f32;
    for i in 0..n {
        let (dot, mins) = q2_k_q8_k_sums(&q2[i], &q8[i]);
        let d8 = f32::from_bits(q8[i].d);
        sum += d8 * float_of(q2[i].d) * dot as f32 - d8 * float_of(q2[i].dmin) * mins as f32;
    }
    sum
}

/// The scaled dot product of IQ2_XXS blocks with Q8_K blocks.
fn vec_dot_iq2_xxs_q8_k(blocks: &[BlockIq2Xxs], q8: &[BlockQ8K], n: usize) -> f32 {
    let mut total = 0.0f64;
    for i in 0..n {
        let d = float_of(blocks[i].d) as f64 * f32::from_bits(q8[i].d) as f64;
        total += d * iq2_xxs_q8_k_sum(&blocks[i], &q8[i]) as f64;
    }
    (0.125 * total) as f32
}

fn dequantize_q2_k(block: &BlockQ2K, out: &mut [f32; 256]) {
    for e in 0..256 {
        let (scale, min, q) = q2_k_element(block, e);
        out[e] = float_of(block.d) * scale as f32 * q as f32 - float_of(block.dmin) * min as f32;
    }
}

fn dequantize_q4_k(block: &BlockQ4K, out: &mut [f32; 256]) {
    for e in 0..256 {
        let (scale, q) = q4_k_element(block, e);
        out[e] = float_of(block.d) * scale as f32 * q as f32 - float_of(block.dmin) * scale as f32;
    }
}

fn dequantize_iq2_xxs(block: &BlockIq2Xxs, out: &mut [f32; 256]) {
    for e in 0..256 {
        out[e] = float_of(block.d) * 0.125 * iq2_xxs_value(block, e) as f32;
    }
}

fn quantize_q8_k(x: &[f32], n: usize, out: &mut [BlockQ8K]) {
    for b in 0..(n + 255) / 256 {
        let part = &x[b * 256..n.min(b * 256 + 256)];
        let amax = part.iter().fold(0.0f32, |m, v| if v.abs() > m { v.abs() } else { m });
        if amax == 0.0 {
            out[b].store(0, &vec![0; part.len()]);
        } else {
            let id = 127.0f32 / amax;
            let codes: Vec<i32> = part.iter().map(|v| (id * v).round() as i32).collect();
            out[b].store((amax / 127.0f32).to_bits(), &codes);
        }
    }
}

// Q2_K matvec unit tests

/// Build a synthetic Q2_K block with controlled 2-bit values.
/// The layout:
///   qs[64] bytes, each byte packs one 2-bit value at each of 4 shifts (0,2,4,6).
///   - Bytes 0..15:  sub-blocks sharing scales[0,2,4,6]   (chunk 0 half 0)
///   - Bytes 16..31: sub-blocks sharing scales[1,3,5,7]   (chunk 0 half 1)
///   - Bytes 32..47: sub-blocks sharing scales[8,10,12,14] (chunk 1 half 0)
///   - Bytes 48..63: sub-blocks sharing scales[9,11,13,15] (chunk 1 half 1)
///
/// Each byte packs elements at shift 0 (bits 0-1), shift 2 (bits 2-3),
///   shift 4 (bits 4-5), shift 6 (bits 6-7).
///
/// q2_vals[256] = the 2-bit integer for each element (0,1,2,3).
fn make_q2k_block(q2_vals: &[u8; 256], scales: &[u8; 16], d: f32, dmin: f32) -> BlockQ2K {
    let mut qs = [0u8; 64];
    for e in 0..256 {
        let k = e / 128;                      // chunk 0 or 1
        let local = e % 128;
        let half = local / 64;                 // 0 or 1
        let sub = local % 64;
        let shift_layer = sub / 16;            // 0..3 → shifts 0,2,4,6
        let pos = sub % 16;                    // 0..15
        let byte_idx = k * 32 + half * 16 + pos;
        let shift = (shift_layer * 2) as u32;
        qs[byte_idx] |= (q2_vals[e] & 3) << shift;
    }
    BlockQ2K {
        qs,
        scales: *scales,
        d: half_of(d),
        dmin: half_of(dmin),
    }
}

/// Manual Q2_K × Q8_K dot product sub-block by sub-block.
fn manual_q2k_q8k_dot(q2k: &BlockQ2K, q8k: &BlockQ8K) -> f64 {
    let d = float_of(q2k.d) as f64;
    let dmin = float_of(q2k.dmin) as f64;
    let q8_d = f32::from_bits(q8k.d) as f64;
    let sc = &q2k.scales;
    let qs = &q2k.qs;
    let q8_qs = &q8k.qs;

    // summs = sum of bsums[j] * (sc[j] >> 4)
    let mut summs = 0i64;
    for j in 0..16 {
        summs += (q8k.bsums[j] as i64) * ((sc[j] >> 4) as i64);
    }

    let dall = q8_d * d;
    let dmin_scaled = q8_d * dmin;

    let mut isum = 0i64;
    // 2 chunks × 4 shifts × 2 halves = 16 sub-blocks
    let mut q2_ptr = 0usize;
    let mut q8_ptr = 0usize;
    let mut is = 0usize;

    for _k in 0..2 {
        for shift in [0u32, 2, 4, 6] {
            // First half: bytes q2[0..15], q8[0..15]
            let ds = (sc[is] & 0x0f) as i64;
            is += 1;
            for i in 0..16 {
                let q2_val = ((qs[q2_ptr + i] >> shift) & 3) as i64;
                isum += ds * q2_val * (q8_qs[q8_ptr + i] as i64);
            }

            // Second half: bytes q2[16..31], q8[16..31]
            let ds = (sc[is] & 0x0f) as i64;
            is += 1;
            for i in 0..16 {
                let q2_val = ((qs[q2_ptr + 16 + i] >> shift) & 3) as i64;
                isum += ds * q2_val * (q8_qs[q8_ptr + 16 + i] as i64);
            }

            q8_ptr += 32;
        }
        q2_ptr += 32;
    }

    dall * (isum as f64) - dmin_scaled * (summs as f64)
}

#[test]
fn test_q2k_dot_simple() {
    // All zeros: dot product should be 0
    let q2k = make_q2k_block(&[0u8; 256], &[0u8; 16], 1.0, 0.0);
    let mut q8k = BlockQ8K { d: 1.0f32.to_bits(), qs: [0i8; 256], bsums: [0i16; 16] };
    for i in 0..256 { q8k.qs[i] = 1; }
    for j in 0..16 { q8k.bsums[j] = 16; }

    let result = vec_dot_q2_k_q8_k(
        core::slice::from_ref(&q2k),
        core::slice::from_ref(&q8k),
        1,
    );
    // All Q2 values = 0, so dot = 0 - d*dmin*summs = 0 (dmin=0)
    assert!((result - 0.0).abs() < 0.001);
}

#[test]
fn test_q2k_dot_uniform() {
    // All Q2 values = 1 at all shifts, all Q8 values = 2
    let q2_vals = [1u8; 256];
    // But we need the actual qs bytes to encode 1 at all 4 shifts: 0b01010101 = 0x55
    let q2k = make_q2k_block(&q2_vals, &[0x55u8; 16], 1.0, 0.0);
    let mut q8k = BlockQ8K { d: 2.0f32.to_bits(), qs: [2i8; 256], bsums: [0i16; 16] };
    for j in 0..16 { q8k.bsums[j] = 32; } // 16 * 2

    let result = vec_dot_q2_k_q8_k(
        core::slice::from_ref(&q2k),
        core::slice::from_ref(&q8k),
        1,
    );
    let expected = manual_q2k_q8k_dot(&q2k, &q8k);
    assert!((result as f64 - expected).abs() < 0.01,
        "result={} expected={}", result, expected);

    // All scales are 5 (lower nibble) → each sub-block gets scale 5
    // Each sub-block: 16 elements × (q2=1) × (q8=2) × scale=5 = 160
    // 16 sub-blocks: 16 × 160 = 2560
    // dall = 2.0 * 1.0 = 2.0, dmin = 0
    // expected = 2.0 * 2560 = 5120.0
    assert!((result - 5120.0).abs() < 1.0,
        "Uniform case should be ~5120, got {}", result);
}

#[test]
fn test_q2k_dot_with_dmin() {
    // Q2 values = 2, scales = 3, d = 1.5, dmin = 0.25, Q8 d = 1.0, q8 = all 1
    let q2_vals = [2u8; 256];
    let scales = [0x33u8; 16]; // lower nibble = 3, upper nibble = 3
    let q2k = make_q2k_block(&q2_vals, &scales, 1.5, 0.25);
    let mut q8k = BlockQ8K { d: 1.0f32.to_bits(), qs: [1i8; 256], bsums: [0i16; 16] };
    for j in 0..16 { q8k.bsums[j] = 16; }

    let result = vec_dot_q2_k_q8_k(
        core::slice::from_ref(&q2k),
        core::slice::from_ref(&q8k),
        1,
    );
    let expected = manual_q2k_q8k_dot(&q2k, &q8k);
    assert!((result as f64 - expected).abs() < 0.1,
        "result={} expected={}", result, expected);
}

#[test]
fn test_q2k_dot_alternating() {
    // Alternating Q2 values: even elements = 1, odd elements = 3
    let mut q2_vals = [0u8; 256];
    for i in 0..256 {
        q2_vals[i] = if i % 2 == 0 { 1 } else { 3 };
    }
    // Alternating scales: even sub-blocks scale=1, odd scale=7
    let mut scales = [0u8; 16];
    for j in 0..16 {
        scales[j] = if j % 2 == 0 { 0x11 } else { 0x77 };
    }
    let q2k = make_q2k_block(&q2_vals, &scales, 2.0, 0.1);
    // Alternating Q8 values
    let mut q8k = BlockQ8K { d: 0.5f32.to_bits(), qs: [0i8; 256], bsums: [0i16; 16] };
    for i in 0..256 {
        q8k.qs[i] = if i % 2 == 0 { 3 } else { -1 };
    }
    for j in 0..16 {
        // bsums[j] = sum of q8.qs[j*16..j*16+16]
        let mut s = 0i16;
        for i in 0..16 {
            s += q8k.qs[j * 16 + i] as i16;
        }
        q8k.bsums[j] = s;
    }

    let result = vec_dot_q2_k_q8_k(
        core::slice::from_ref(&q2k),
        core::slice::from_ref(&q8k),
        1,
    );
    let expected = manual_q2k_q8k_dot(&q2k, &q8k);
    assert!((result as f64 - expected).abs() < 0.1,
        "result={} expected={}", result, expected);
}

#[test]
fn test_q2k_dot_multi_block() {
    // Two blocks with different values
    let q2_vals_a = [2u8; 256];
    let q2_vals_b = [1u8; 256];
    let scales = [0x44u8; 16]; // scale=4
    let q2k_a = make_q2k_block(&q2_vals_a, &scales, 1.0, 0.0);
    let q2k_b = make_q2k_block(&q2_vals_b, &scales, 2.0, 0.0);
    let blocks = [q2k_a, q2k_b];

    let q8k_a = BlockQ8K { d: 1.0f32.to_bits(), qs: [1i8; 256], bsums: [16i16; 16] };
    let q8k_b = BlockQ8K { d: 3.0f32.to_bits(), qs: [2i8; 256], bsums: [32i16; 16] };
    let q8_blocks = [q8k_a, q8k_b];

    let result = vec_dot_q2_k_q8_k(&blocks, &q8_blocks, 2);
    let expected_a = manual_q2k_q8k_dot(&blocks[0], &q8_blocks[0]);
    let expected_b = manual_q2k_q8k_dot(&blocks[1], &q8_blocks[1]);
    let expected = expected_a + expected_b;
    assert!((result as f64 - expected).abs() < 0.2,
        "result={} expected={} (a={} + b={})", result, expected, expected_a, expected_b);
}

// IQ2_XXS matvec unit tests

/// Build a synthetic IQ2_XXS block with explicit grid/sign/ls values.
/// 8 groups of 4 u16 each.
fn make_iq2xxs_block(
    grid_indices: &[u8; 32],  // 4 per group × 8 groups
    sign_indices: &[u8; 32],  // 4 per group × 8 groups (0..127)
    extra: &[u8; 8],          // group scale extra (0..15)
    d: f32,
) -> BlockIq2Xxs {
    let mut qs = [0u16; 32];
    for g in 0..8 {
        let base = g * 4;
        // lo: grid indices (low bytes of first two u16)
        let lo: u32 =
            (grid_indices[base] as u32) |
            ((grid_indices[base + 1] as u32) << 8) |
            ((grid_indices[base + 2] as u32) << 16) |
            ((grid_indices[base + 3] as u32) << 24);
        // hi: sign indices (7 bits each) + extra (4 bits at top)
        let hi: u32 =
            ((sign_indices[base] as u32) & 0x7f) |
            (((sign_indices[base + 1] as u32) & 0x7f) << 7) |
            (((sign_indices[base + 2] as u32) & 0x7f) << 14) |
            (((sign_indices[base + 3] as u32) & 0x7f) << 21) |
            (((extra[g] as u32) & 0xf) << 28);
        qs[base] = (lo & 0xffff) as u16;
        qs[base + 1] = (lo >> 16) as u16;
        qs[base + 2] = (hi & 0xffff) as u16;
        qs[base + 3] = (hi >> 16) as u16;
    }
    BlockIq2Xxs {
        d: half_of(d),
        qs,
    }
}

/// Manual IQ2_XXS × Q8_K dot product.
fn manual_iq2xxs_q8k_dot(iq2: &BlockIq2Xxs, q8k: &BlockQ8K) -> f64 {

    let d = float_of(iq2.d) as f64 * f32::from_bits(q8k.d) as f64;
    let qs = &iq2.qs;
    let q8_qs = &q8k.qs;
    let mut bsum = 0i64;

    for g in 0..8 {
        let base = g * 4;
        let lo: u32 = (qs[base] as u32) | ((qs[base + 1] as u32) << 16);
        let hi: u32 = (qs[base + 2] as u32) | ((qs[base + 3] as u32) << 16);

        let gidx = [
            (lo & 0xff) as usize,
            ((lo >> 8) & 0xff) as usize,
            ((lo >> 16) & 0xff) as usize,
            ((lo >> 24) & 0xff) as usize,
        ];
        let sidx = [
            (hi & 0x7f) as usize,
            ((hi >> 7) & 0x7f) as usize,
            ((hi >> 14) & 0x7f) as usize,
            ((hi >> 21) & 0x7f) as usize,
        ];
        let extra = ((hi >> 28) & 0xf) as i64;
        let ls = 2 * extra + 1;

        let elem_base = g * 32;
        let mut group_sum = 0i64;

        for pair in 0..2 {
            let gi0 = gidx[pair * 2];
            let gi1 = gidx[pair * 2 + 1];
            let si0 = sidx[pair * 2];
            let si1 = sidx[pair * 2 + 1];

            let grid0 = IQ2XXS_GRID[gi0];
            let grid1 = IQ2XXS_GRID[gi1];
            let sbyte0 = KSIGNS_IQ2XS[si0];
            let sbyte1 = KSIGNS_IQ2XS[si1];

            let poff = elem_base + pair * 16;
            for j in 0..8 {
                let b0 = iq2xxs_grid_byte(grid0, j) as i64;
                let b1 = iq2xxs_grid_byte(grid1, j) as i64;
                let sign0 = if (sbyte0 >> j) & 1 != 0 { -1i64 } else { 1i64 };
                let sign1 = if (sbyte1 >> j) & 1 != 0 { -1i64 } else { 1i64 };
                group_sum += b0 * sign0 * (q8_qs[poff + j] as i64);
                group_sum += b1 * sign1 * (q8_qs[poff + 8 + j] as i64);
            }
        }
        bsum += group_sum * ls;
    }

    d * (bsum as f64) * 0.125
}

#[test]
fn test_iq2xxs_dot_simple() {
    // All grid=0, all signs=0 (positive), extra=0 → ls=1
    let grid = [0u8; 32];
    let signs = [0u8; 32];
    let extras = [0u8; 8];
    let iq2 = make_iq2xxs_block(&grid, &signs, &extras, 1.0);

    // Q8 all ones
    let mut q8k = BlockQ8K { d: 1.0f32.to_bits(), qs: [1i8; 256], bsums: [0i16; 16] };
    for j in 0..16 { q8k.bsums[j] = 16; }

    let result = vec_dot_iq2_xxs_q8_k(
        core::slice::from_ref(&iq2),
        core::slice::from_ref(&q8k),
        1,
    );
    let expected = manual_iq2xxs_q8k_dot(&iq2, &q8k);
    assert!((result as f64 - expected).abs() < 0.01,
        "result={} expected={}", result, expected);
}

#[test]
fn test_iq2xxs_dot_known_grid() {
    // Use grid index 0 (all bytes = 0x08) and grid index 1 (0x2b in some positions)
    // with different signs and extras
    let mut grid = [0u8; 32];
    let mut signs = [0u8; 32];
    let mut extras = [0u8; 8];
    for g in 0..8 {
        let b = g * 4;
        grid[b] = 0;     // grid 0: all 0x08
        grid[b + 1] = 1; // grid 1: 0x2b in positions
        grid[b + 2] = 0;
        grid[b + 3] = 1;
        signs[b] = 0;       // all positive
        signs[b + 1] = 0;
        signs[b + 2] = 127;  // sign index 127 = 0xff = all negative
        signs[b + 3] = 127;
        extras[g] = (g % 4) as u8; // ls = 1, 3, 5, 7, 1, 3, 5, 7
    }
    let iq2 = make_iq2xxs_block(&grid, &signs, &extras, 2.0);

    // Q8 alternating
    let mut q8k = BlockQ8K { d: 0.5f32.to_bits(), qs: [0i8; 256], bsums: [0i16; 16] };
    for i in 0..256 {
        q8k.qs[i] = (if i % 2 == 0 { 2 } else { -1 }) as i8;
    }
    for j in 0..16 {
        let mut s = 0i16;
        for i in 0..16 {
            s += q8k.qs[j * 16 + i] as i16;
        }
        q8k.bsums[j] = s;
    }

    let result = vec_dot_iq2_xxs_q8_k(
        core::slice::from_ref(&iq2),
        core::slice::from_ref(&q8k),
        1,
    );
    let expected = manual_iq2xxs_q8k_dot(&iq2, &q8k);
    assert!((result as f64 - expected).abs() < 0.1,
        "result={} expected={}", result, expected);
}

#[test]
fn test_iq2xxs_dot_multi_block() {
    let grid = [0u8; 32];
    let signs = [0u8; 32];
    let extras = [0u8; 8];
    let iq2_a = make_iq2xxs_block(&grid, &signs, &extras, 1.0);
    let iq2_b = make_iq2xxs_block(&grid, &signs, &extras, 3.0);
    let blocks = [iq2_a, iq2_b];

    let q8k_a = BlockQ8K { d: 1.0f32.to_bits(), qs: [1i8; 256], bsums: [16i16; 16] };
    let q8k_b = BlockQ8K { d: 2.0f32.to_bits(), qs: [2i8; 256], bsums: [32i16; 16] };
    let q8_blocks = [q8k_a, q8k_b];

    let result = vec_dot_iq2_xxs_q8_k(&blocks, &q8_blocks, 2);
    let expected_a = manual_iq2xxs_q8k_dot(&blocks[0], &q8_blocks[0]);
    let expected_b = manual_iq2xxs_q8k_dot(&blocks[1], &q8_blocks[1]);
    let expected = expected_a + expected_b;
    assert!((result as f64 - expected).abs() < 0.1,
        "result={} expected={} (a={} + b={})", result, expected, expected_a, expected_b);
}

// IQ2_XXS matvec: dequantize-vs-native golden tests

/// Dequantize an IQ2_XXS block to f32 and compute dot product with f32 input.
/// This is the ground truth: no quantization on the input side.
fn f32_dot_iq2xxs(block: &BlockIq2Xxs, x: &[f32]) -> f64 {
    let mut f32_w = [0.0f32; 256];
    dequantize_iq2_xxs(block, &mut f32_w);
    let mut sum = 0.0f64;
    for i in 0..256 {
        sum += f32_w[i] as f64 * x[i] as f64;
    }
    sum
}

#[test]
fn test_iq2xxs_vs_f32_dequantize_grid0() {
    // Grid 0: all bytes = 0x08, signs all positive, extra=0 → ls=1
    let grid = [0u8; 32];
    let signs = [0u8; 32];
    let extras = [0u8; 8];
    let iq2 = make_iq2xxs_block(&grid, &signs, &extras, 1.5);

    // Build a known f32 input
    let mut x = [0.0f32; 256];
    for i in 0..256 {
        x[i] = ((i as i32 - 128) as f32) / 64.0; // range roughly -2..+2
    }

    // Quantize x to Q8_K
    let mut xq = [BlockQ8K { d: 0.0f32.to_bits(), qs: [0i8; 256], bsums: [0i16; 16] }];
    quantize_q8_k(&x, 256, &mut xq);

    let result = vec_dot_iq2_xxs_q8_k(
        core::slice::from_ref(&iq2),
        core::slice::from_ref(&xq[0]),
        1,
    ) as f64;

    let expected = f32_dot_iq2xxs(&iq2, &x);
    // Q8_K quantization introduces ~0.5% relative error for smooth inputs
    let tolerance = (expected.abs() * 0.01).max(1e-3);
    assert!((result - expected).abs() < tolerance,
        "result={} expected={} diff={:.2e}", result, expected, (result - expected).abs());
}

#[test]
fn test_iq2xxs_vs_f32_dequantize_varied_grids() {
    // Use diverse grid indices and sign patterns
    let mut rng_state: u32 = 0xDEADBEEF;
    let mut next_u32 = move || -> u32 {
        rng_state = rng_state.wrapping_mul(1103515245).wrapping_add(12345);
        rng_state
    };

    for block_seed in 0..8 {
        let mut grid = [0u8; 32];
        let mut signs = [0u8; 32];
        let mut extras = [0u8; 8];
        for g in 0..8 {
            let b = g * 4;
            let r = next_u32();
            grid[b] = (r & 0xff) as u8;
            grid[b + 1] = ((r >> 8) & 0xff) as u8;
            grid[b + 2] = ((r >> 16) & 0xff) as u8;
            grid[b + 3] = ((r >> 24) & 0xff) as u8;
            let r2 = next_u32();
            signs[b] = (r2 & 0x7f) as u8;
            signs[b + 1] = ((r2 >> 7) & 0x7f) as u8;
            signs[b + 2] = ((r2 >> 14) & 0x7f) as u8;
            signs[b + 3] = ((r2 >> 21) & 0x7f) as u8;
            extras[g] = (next_u32() & 0xf) as u8;
        }
        let d = 0.5 + (block_seed as f32) * 0.5;

        let iq2 = make_iq2xxs_block(&grid, &signs, &extras, d);

        // Sinusoidal input
        let mut x = [0.0f32; 256];
        for i in 0..256 {
            x[i] = ((i as f32 * 0.123 + block_seed as f32 * 0.7).sin() * 3.0) as f32;
        }

        let mut xq = [BlockQ8K { d: 0.0f32.to_bits(), qs: [0i8; 256], bsums: [0i16; 16] }];
        quantize_q8_k(&x, 256, &mut xq);

        let result = vec_dot_iq2_xxs_q8_k(
            core::slice::from_ref(&iq2),
            core::slice::from_ref(&xq[0]),
            1,
        ) as f64;

        let expected = f32_dot_iq2xxs(&iq2, &x);
        // Q8_K quantization: up to 5% relative for sinusoidal inputs with varied grids;
        // purpose is to catch catastrophic deviations (e.g. 8x errors), not bit-exactness
        let tolerance = (expected.abs() * 0.05).max(1e-3);
        assert!((result - expected).abs() < tolerance,
            "seed={}: result={} expected={} diff={:.2e}",
            block_seed, result, expected, (result - expected).abs());
    }
}

#[test]
fn test_iq2xxs_edge_max_ls() {
    // Maximum ls = 31 (extra=15), maximum grid values
    // Grid index 255: bytes = [0x2b, 0x2b, 0x2b, 0x19, 0x08, 0x08, 0x08, 0x19]
    let mut grid = [0u8; 32];
    let mut signs = [0u8; 32];
    let mut extras = [0u8; 8];
    for g in 0..8 {
        let b = g * 4;
        grid[b] = 255;
        grid[b + 1] = 255;
        grid[b + 2] = 255;
        grid[b + 3] = 255;
        signs[b] = 0;     // all positive
        signs[b + 1] = 0;
        signs[b + 2] = 0;
        signs[b + 3] = 0;
        extras[g] = 15;   // ls = 2*15+1 = 31
    }
    let iq2 = make_iq2xxs_block(&grid, &signs, &extras, 1.0);

    // Input: ramp
    let mut x = [0.0f32; 256];
    for i in 0..256 {
        x[i] = (i as f32) / 256.0;
    }

    let mut xq = [BlockQ8K { d: 0.0f32.to_bits(), qs: [0i8; 256], bsums: [0i16; 16] }];
    quantize_q8_k(&x, 256, &mut xq);

    let result = vec_dot_iq2_xxs_q8_k(
        core::slice::from_ref(&iq2),
        core::slice::from_ref(&xq[0]),
        1,
    ) as f64;

    let expected = f32_dot_iq2xxs(&iq2, &x);
    // Q8_K quantization error acceptable for edge case with large ls
    let tolerance = (expected.abs() * 0.01).max(1e-3);
    assert!((result - expected).abs() < tolerance,
        "max_ls: result={} expected={} diff={:.2e}",
        result, expected, (result - expected).abs());
}

#[test]
fn test_iq2xxs_edge_mixed_signs_large_ls() {
    // Alternating sign patterns with large ls values
    let mut grid = [0u8; 32];
    let mut signs = [0u8; 32];
    let mut extras = [0u8; 8];
    for g in 0..8 {
        let b = g * 4;
        grid[b] = 0;
        grid[b + 1] = 128;  // 0x2b...
        grid[b + 2] = 0;
        grid[b + 3] = 128;
        signs[b] = 0;       // positive
        signs[b + 1] = 127; // all negative
        signs[b + 2] = 85;  // alternating signs
        signs[b + 3] = 42;  // sparse signs
        extras[g] = if g < 4 { 0 } else { 7 }; // ls = 1 or 15
    }
    let iq2 = make_iq2xxs_block(&grid, &signs, &extras, 4.0);

    // Input: large magnitudes
    let mut x = [0.0f32; 256];
    for i in 0..256 {
        x[i] = (i as f32 - 128.0) * 0.05; // range -6.4..+6.35
    }

    let mut xq = [BlockQ8K { d: 0.0f32.to_bits(), qs: [0i8; 256], bsums: [0i16; 16] }];
    quantize_q8_k(&x, 256, &mut xq);

    let result = vec_dot_iq2_xxs_q8_k(
        core::slice::from_ref(&iq2),
        core::slice::from_ref(&xq[0]),
        1,
    ) as f64;

    let expected = f32_dot_iq2xxs(&iq2, &x);
    let tolerance = (expected.abs() * 0.01).max(1e-3);
    assert!((result - expected).abs() < tolerance,
        "mixed_signs: result={} expected={} diff={:.2e}",
        result, expected, (result - expected).abs());
}

// IQ2_XXS multi-block matvec: simulate expert gate/up row projection
// In the real forward pass, each expert gate/up row spans n_embd/QK_K blocks

#[test]
fn test_iq2xxs_multi_block_vs_f32_dequantize() {
    // Simulate one row of an IQ2_XXS expert gate/up matrix:
    // 16 IQ2_XXS blocks for 4096 input dim, dot with quantized input
    let n_blocks: usize = 16;

    // Build diverse IQ2_XXS blocks
    let mut iq2_blocks = Vec::with_capacity(n_blocks);
    for b in 0..n_blocks {
        let mut grid = [0u8; 32];
        let mut signs = [0u8; 32];
        let mut extras = [0u8; 8];
        for g in 0..8 {
            let off = g * 4;
            grid[off] = ((b * 7 + g * 3) % 256) as u8;
            grid[off + 1] = ((b * 13 + g * 5 + 1) % 256) as u8;
            grid[off + 2] = ((b * 17 + g * 7 + 2) % 256) as u8;
            grid[off + 3] = ((b * 19 + g * 11 + 3) % 256) as u8;
            signs[off] = ((b * 23 + g * 13) % 128) as u8;
            signs[off + 1] = ((b * 29 + g * 17 + 1) % 128) as u8;
            signs[off + 2] = ((b * 31 + g * 19 + 2) % 128) as u8;
            signs[off + 3] = ((b * 37 + g * 23 + 3) % 128) as u8;
            extras[g] = ((b * 3 + g * 2) % 16) as u8;
        }
        let d = 0.7 + (b as f32) * 0.15;
        iq2_blocks.push(make_iq2xxs_block(&grid, &signs, &extras, d));
    }

    // Build f32 input: decaying sinusoid
    let mut x = vec![0.0f32; n_blocks * 256];
    for i in 0..x.len() {
        x[i] = ((i as f32 * 0.05).sin() * (i as f32 * 0.001).exp()) as f32;
    }

    // Quantize x to Q8_K blocks
    let mut xq_blocks = vec![BlockQ8K { d: 0.0f32.to_bits(), qs: [0i8; 256], bsums: [0i16; 16] }; n_blocks];
    quantize_q8_k(&x, x.len(), &mut xq_blocks);

    // Native dot
    let result = vec_dot_iq2_xxs_q8_k(&iq2_blocks, &xq_blocks, n_blocks) as f64;

    // F32 dequantize ground truth
    let mut expected = 0.0f64;
    for b in 0..n_blocks {
        expected += f32_dot_iq2xxs(&iq2_blocks[b], &x[b * 256..(b + 1) * 256]);
    }

    // Q8_K quantization: ~5% relative tolerance for multi-block with decaying signal
    let tolerance = (expected.abs() * 0.05).max(1e-2);
    assert!((result - expected).abs() < tolerance,
        "multi_block: result={} expected={} diff={:.2e}",
        result, expected, (result - expected).abs());
}

#[test]
fn test_iq2xxs_matvec_zero_input() {
    // All-zero input: result should be zero
    let grid = [0u8; 32];
    let signs = [0u8; 32];
    let extras = [0u8; 8];
    let iq2 = make_iq2xxs_block(&grid, &signs, &extras, 1.0);

    let x = [0.0f32; 256];
    let mut xq = [BlockQ8K { d: 0.0f32.to_bits(), qs: [0i8; 256], bsums: [0i16; 16] }];
    quantize_q8_k(&x, 256, &mut xq);

    let result = vec_dot_iq2_xxs_q8_k(
        core::slice::from_ref(&iq2),
        core::slice::from_ref(&xq[0]),
        1,
    );
    assert!(result.abs() < 1e-6, "zero input should give zero, got {}", result);
}

#[test]
fn test_dequantize_q2_k_basic() {
    let mut block = BlockQ2K {
        scales: [1u8; 16],  // scale factor = 1 (raw value 1)
        qs: [0u8; 64],      // all zeros
        d: half_of(1.0),
        dmin: half_of(0.0),
    };
    let mut out = [0.0f32; 256];
    dequantize_q2_k(&block, &mut out);
    // All quantized values are 0, so all outputs should be 0
    for v in &out {
        assert!((*v - 0.0).abs() < 1e-4);
    }

    // Now set all qs to 0xFF (all 2-bit values = 3)
    block.qs = [0xFFu8; 64];
    dequantize_q2_k(&block, &mut out);
    // Each element: d * scale * q = 1.0 * 1 * 3 = 3.0
    for v in &out {
        assert!((*v - 3.0).abs() < 1e-2, "got {}", *v);
    }
}

#[test]
fn test_dequantize_q2_k_varied() {
    // scale byte 0x01: d_scale=1 (lower nibble), m_scale=0 (upper nibble)
    let block = BlockQ2K {
        scales: [0x01u8; 16], // d_scale=1, m_scale=0
        qs: [0x55u8; 64],     // each 2-bit value = 1
        d: half_of(2.0),
        dmin: half_of(0.5),
    };
    let mut out = [0.0f32; 256];
    dequantize_q2_k(&block, &mut out);
    // Each element: d*d_scale*q - dmin*m_scale = 2*1*1 - 0.5*0 = 2.0
    for v in &out {
        assert!((*v - 2.0).abs() < 1e-2, "got {}", *v);
    }
}

#[test]
fn test_dequantize_q4_k_basic() {
    let block = BlockQ4K {
        d: half_of(1.0),
        dmin: half_of(0.0),
        scales: [63u8; 12], // all max scales
        qs: [0u8; 128],     // all zeros
    };
    let mut out = [0.0f32; 256];
    dequantize_q4_k(&block, &mut out);
    for v in &out {
        assert!((*v - 0.0).abs() < 1e-4);
    }
}

#[test]
fn test_dequantize_iq2_xxs_basic() {
    // With q=0: grid[0] = 0x080808..., sign_byte=0 (all positive), extra=0 → ls=1
    // Each grid byte = 8, sign = 1 → d * 0.125 * 8 * 1 = 1.0
    let block = BlockIq2Xxs {
        d: half_of(1.0),
        qs: [0u16; 32],
    };
    let mut out = [0.0f32; 256];
    dequantize_iq2_xxs(&block, &mut out);
    // All elements should be 1.0 (= 1.0 * 0.125 * 8 * 1 * 1)
    for (i, v) in out.iter().enumerate() {
        assert!((*v - 1.0).abs() < 1e-4 || *v == 0.0,
            "element {}: got {}, expected ~1.0", i, *v);
    }
}

#[test]
fn codes_of_single_elements() {
    let mut block = BlockQ2K { scales: [0; 16], qs: [0; 64], d: 0, dmin: 0 };
    // Element 64 + 16 + 3 of the first half: second 16 bytes, second shift, sub-block 3.
    block.scales[3] = 0xa7;
    block.qs[19] = 0b1000;
    assert_eq!(q2_k_element(&block, 83), (7, 10, 2));
    assert_eq!(q2_k_element(&block, 67), (0, 0, 0));
    // Second half.
    block.scales[8 + 6 + 1] = 0x5c;
    block.qs[32 + 16 + 15] = 0b1100_0000;
    assert_eq!(q2_k_element(&block, 255), (12, 5, 3));

    let mut four = BlockQ4K { d: 0, dmin: 0, scales: [0; 12], qs: [0; 128] };
    four.scales[0] = 0b1101_0101;
    four.scales[1] = 0b1000_1110;
    four.scales[2] = 0b0000_1001;
    four.qs[0] = 0x5a;
    four.qs[16] = 0x0f;
    assert_eq!(q4_k_element(&four, 0), (0b01_0101, 0xa));
    assert_eq!(q4_k_element(&four, 1), (0b01_0101, 0x5));
    // Sub-block 1 takes its scale from bytes 1 and 2.
    assert_eq!(q4_k_element(&four, 32), (0b10 + (0b1001 << 2), 0xf));
}

#[test]
fn sums_are_exact() {
    let q2: Vec<u8> = (0..16).map(|i| (i * 17) as u8).collect();
    let q8: Vec<i8> = (0..16).map(|i| (i as i8) - 8).collect();
    let expected: i32 = (0..16).map(|i| (q8[i] as i32) * ((q2[i] >> 2) & 3) as i32).sum();
    assert_eq!(dot_q2_16(&q2, &q8, 2), expected);

    let mut block = BlockQ80 { d: 0, qs: [0; 32] };
    let xq: Vec<i8> = (0..32).map(|i| i as i8 - 16).collect();
    for i in 0..32 {
        block.qs[i] = 3 - i as i8;
    }
    let expected: i32 = (0..32).map(|i| xq[i] as i32 * block.qs[i] as i32).sum();
    assert_eq!(q8_0_dot(&xq, &block), expected);

    // Every minimum is taken away once per element.
    let mut q2k = BlockQ2K { scales: [0; 16], qs: [0; 64], d: 0, dmin: 0 };
    for s in 0..16 {
        q2k.scales[s] = (s as u8) << 4;
    }
    let codes: Vec<i32> = (0..256).map(|i| (i % 11) - 5).collect();
    let mut q8k = BlockQ8K::zero();
    q8k.store(0, &codes);
    let expected: i32 = (0..256).map(|e| (e / 16) as i32 * codes[e]).sum();
    assert_eq!(q2_k_q8_k_sums(&q2k, &q8k), (0, expected));
}

#[test]
fn grid_bytes_and_signs() {
    assert_eq!(iq2xxs_grid_byte(0x1122334455667788, 0), 0x88);
    assert_eq!(iq2xxs_grid_byte(0x1122334455667788, 7), 0x11);
    assert_eq!(iq2xxs_sign(0b0000_0100, 2), -1);
    assert_eq!(iq2xxs_sign(0b0000_0100, 3), 1);
    assert_eq!(IQ2XXS_GRID[0], 0x0808080808080808);
    assert_eq!(KSIGNS_IQ2XS[127], 255);
}

#[test]
fn codes_are_cut_to_eight_bits() {
    let mut block = BlockQ8K::zero();
    let mut codes = vec![1i32; 256];
    codes[0] = 200;
    codes[1] = -200;
    codes[255] = -128;
    block.store(0x3f80_0000, &codes);
    assert_eq!((block.d, block.qs[0], block.qs[1], block.qs[255]), (0x3f80_0000, 127, -128, -128));
    assert_eq!(block.bsums[0], 127 - 128 + 14);
    assert_eq!(block.bsums[15], 15 - 128);
    // A short row leaves the rest of the values as they were and sums only its own.
    block.store(0, &[5; 20]);
    assert_eq!((block.qs[19], block.qs[20]), (5, 1));
    assert_eq!((block.bsums[0], block.bsums[1], block.bsums[2]), (80, 20, 0));
}

#[test]
fn blocks_are_read_from_bytes() {
    let data: Vec<u8> = (0..600).map(|i| (i * 7 + 3) as u8).collect();
    let le = |p: usize| u16::from_le_bytes([data[p], data[p + 1]]);

    let b = BlockQ80::read(&data, 2);
    assert_eq!(b.d, le(68));
    assert_eq!((b.qs[0], b.qs[31]), (data[70] as i8, data[101] as i8));

    let b = BlockQ2K::read(&data, 1);
    assert_eq!((b.scales[0], b.qs[0], b.qs[63]), (data[84], data[100], data[163]));
    assert_eq!((b.d, b.dmin), (le(164), le(166)));

    let b = BlockQ4K::read(&data, 1);
    assert_eq!((b.d, b.dmin), (le(144), le(146)));
    assert_eq!((b.scales[11], b.qs[0], b.qs[127]), (data[159], data[160], data[287]));

    let b = BlockIq2Xxs::read(&data, 3);
    assert_eq!((b.d, b.qs[0], b.qs[31]), (le(198), le(200), le(262)));

    let b = BlockQ8K::read(&data, 1);
    assert_eq!(b.d, u32::from_le_bytes([data[292], data[293], data[294], data[295]]));
    assert_eq!((b.qs[0], b.qs[255]), (data[296] as i8, data[551] as i8));
    assert_eq!((b.bsums[0], b.bsums[15]), (le(552) as i16, le(582) as i16));
}

#[test]
fn the_sign_table_has_even_signs() {
    for i in 0..128usize {
        let entry = KSIGNS_IQ2XS[i];
        assert_eq!((entry & 0x7f) as usize, i);
        assert_eq!((0..8).map(|j| iq2xxs_sign(entry, j)).product::<i32>(), 1);
    }
}

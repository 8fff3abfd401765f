//! Sizes, routing, and floats as bit patterns.
use ds4::half::{
    e4m3_dequant, fp8_kv_blocks, health_of, is_float_gt, max_magnitude, Health, NEG_INFINITY_BITS,
    NEG_INF_BITS,
};
use ds4::model::build_test_model;
use ds4::{
    hash_routed_expert, layer_compress_ratio, Dims, N_EMBD, N_EXPERT, N_EXPERT_SHARED,
    N_EXPERT_USED, N_HC, N_HEAD, N_HEAD_DIM, N_HEAD_KV, N_LAYER, N_OUT_GROUP, N_VOCAB,
};

fn f16_to_f32(h: u16) -> f32 {
    f32::from_bits(ds4::f16_to_f32(h))
}

fn f32_to_f16(x: f32) -> u16 {
    ds4::f32_to_f16(x.to_bits())
}

fn f16_round_inplace(x: &mut Vec<f32>, n: usize) {
    let mut bits: Vec<u32> = x.iter().map(|v| v.to_bits()).collect();
    ds4::f16_round_inplace(&mut bits, n);
    *x = bits.iter().map(|b| f32::from_bits(*b)).collect();
}

/// Round a row to eight-bit floats, block by block, each block with a power of two for a scale.
fn fp8_kv_quantize_row_inplace(x: &mut [f32], head_dim: usize, n_rot: usize) {
    for (from, to) in fp8_kv_blocks(head_dim, n_rot) {
        let amax = x[from..to].iter().fold(1.0e-4f32, |m, v| m.max(v.abs()));
        let scale = (2.0f32).powf((amax / 448.0).log2().ceil());
        for v in &mut x[from..to] {
            let clamped = (*v / scale).clamp(-448.0, 448.0);
            *v = f32::from_bits(e4m3_dequant(clamped.to_bits())) * scale;
        }
    }
}

#[test]
fn test_f16_roundtrip() {
    for &x in &[0.0f32, 1.0, -1.0, 0.5, 2.0, 65504.0] {
        let round = f16_to_f32(f32_to_f16(x));
        assert!((round - x).abs() < 0.01 * x.abs().max(0.01));
    }
}

#[test]
fn lib_test_layer_compress_ratio() {
    assert_eq!(layer_compress_ratio(0), 0);
    assert_eq!(layer_compress_ratio(1), 0);
    assert_eq!(layer_compress_ratio(2), 4);
    assert_eq!(layer_compress_ratio(3), 128);
    assert_eq!(layer_compress_ratio(4), 4);
    assert_eq!(layer_compress_ratio(5), 128);
    assert_eq!(layer_compress_ratio(6), 4);
    assert_eq!(layer_compress_ratio(7), 128);
}

#[test]
fn test_f16_to_f32_zero() {
    assert_eq!(f16_to_f32(0), 0.0);
}

#[test]
fn test_f16_to_f32_one() {
    let one_f16 = 0x3c00u16; // 1.0 in FP16
    assert!((f16_to_f32(one_f16) - 1.0).abs() < 1e-6);
}

#[test]
fn test_f16_to_f32_neg_one() {
    let neg_one_f16 = 0xbc00u16; // -1.0 in FP16
    assert!((f16_to_f32(neg_one_f16) - (-1.0)).abs() < 1e-6);
}

#[test]
fn test_f16_to_f32_half() {
    let half_f16 = 0x3800u16; // 0.5 in FP16
    assert!((f16_to_f32(half_f16) - 0.5).abs() < 0.001);
}

#[test]
fn test_f32_to_f16_roundtrip() {
    let test_values = [0.0f32, 1.0, -1.0, 0.5, -0.5, 2.0, -2.0, 0.125, 10.0, -10.0];
    for &val in &test_values {
        let f16 = f32_to_f16(val);
        let back = f16_to_f32(f16);
        let max_err = val.abs().max(0.01) * 0.01;
        assert!(
            (back - val).abs() < max_err,
            "roundtrip failed for {}: got {}", val, back
        );
    }
}

#[test]
fn test_f16_round_inplace() {
    let mut x = vec![1.0 / 3.0, 0.123456, 100.0, -50.5];
    let orig = x.clone();
    f16_round_inplace(&mut x, 4);
    for i in 0..4 {
        let diff = (x[i] - orig[i]).abs();
        assert!(diff < orig[i].abs().max(0.01) * 0.02,
            "f16_round at {}: {} -> {} diff={}", i, orig[i], x[i], diff);
    }
}

#[test]
fn integration_test_test_layer_compress_ratio() {
    // Layers 0-1: no compression (dense)
    assert_eq!(layer_compress_ratio(0), 0);
    assert_eq!(layer_compress_ratio(1), 0);
    // Layer >=2 even: ratio 4
    assert_eq!(layer_compress_ratio(2), 4);
    // Layer >=2 odd: ratio 128
    assert_eq!(layer_compress_ratio(3), 128);
    // Verify pattern continues
    assert_eq!(layer_compress_ratio(4), 4);
    assert_eq!(layer_compress_ratio(5), 128);
    assert_eq!(layer_compress_ratio(6), 4);
    assert_eq!(layer_compress_ratio(7), 128);
}

#[test]
fn test_hash_routed_expert_deterministic() {
    let e1 = hash_routed_expert(42, 0, 256);
    let e2 = hash_routed_expert(42, 0, 256);
    assert_eq!(e1, e2);
}

#[test]
fn test_hash_routed_expert_in_range() {
    for token in 0..100 {
        for router in 0..3 {
            let e = hash_routed_expert(token, router, 256);
            assert!(e < 256, "expert {} out of range", e);
        }
    }
}

#[test]
fn test_fp8_kv_quantize_rot_only() {
    let mut kv = vec![1.0f32, 2.0, 3.0, 4.0, 5.0, 6.0, 7.0, 8.0,
                      9.0, 10.0, 11.0, 12.0, 13.0, 14.0, 15.0, 16.0];
    let orig_rot: Vec<f32> = kv[..8].to_vec();
    fp8_kv_quantize_row_inplace(&mut kv, 16, 8);
    // First 8 elements (rotary dims) should be preserved unchanged
    for i in 0..8 {
        assert!((kv[i] - orig_rot[i]).abs() < 1e-6,
            "rotary dim {} changed: {} -> {}", i, orig_rot[i], kv[i]);
    }
    // Elements beyond n_rot (non-rotary) should be quantized (not zeroed)
    for i in 8..16 {
        assert!(kv[i].is_finite(),
            "non-rotary dim {} should be finite after quant", i);
    }
}

#[test]
fn test_model_constants() {
    // Architecture invariants
    assert!(N_LAYER >= 1);
    assert!(N_EMBD >= 64);
    assert!(N_VOCAB >= 256);
    assert!(N_HEAD >= 4 && N_HEAD % N_OUT_GROUP == 0);
    assert_eq!(N_HEAD_KV, 1);
    assert!(N_HEAD_DIM >= 16);
    assert_eq!(N_HC, 4);
    assert!(N_EXPERT >= 4);
    assert!(N_EXPERT_USED >= 2);
    assert_eq!(N_EXPERT_SHARED, 1);
}

#[test]
fn test_layer_count() {
    let d = Dims::tiny();
    let omw = build_test_model(&d);
    assert_eq!(omw.weights.layers.len(), d.n_layer as usize);
}

#[test]
fn test_token_embedding_dimensions() {
    let d = Dims::tiny();
    let omw = build_test_model(&d);
    let weights = &omw.weights;

    // Check that token_embd has expected shape
    let embd = weights.token_embd.as_f16();
    let expected = d.n_vocab as usize * d.n_embd as usize;
    assert_eq!(embd.len(), expected, "token_embd should have {} elements, got {}", expected, embd.len());

    // All values should be 1.0 in f16
    for &v in embd.iter().take(128) {
        assert!((f16_to_f32(v) - 1.0).abs() < 0.001, "expected 1.0 in token_embd, got {}", f16_to_f32(v));
    }
}

#[test]
fn test_ffn_mask_table_zeros() {
    let d = Dims::tiny();
    let omw = build_test_model(&d);
    let layer = &omw.weights.layers[0];
    let table = layer.ffn_gate_tid2eid.as_i32();
    // All entries should be 0 (we initialized as zero)
    let expected_elems = d.n_vocab as usize * d.n_expert_used as usize;
    assert!(table.len() >= expected_elems, "table too small");
    assert!(table.iter().take(expected_elems).all(|&v| v == 0), "ffn_gate_tid2eid should be all zeros");
}

#[test]
fn full_sizes_are_the_constants() {
    let d = Dims::full();
    assert_eq!((d.n_layer, d.n_embd, d.n_vocab), (43, 4096, 129280));
    assert_eq!((N_LAYER, N_EMBD, N_VOCAB), (43, 4096, 129280));
    let t = Dims::tiny();
    assert_eq!((t.n_layer, t.n_embd, t.n_vocab, t.n_head_kv, t.n_hc), (1, 64, 256, 1, 4));
}

#[test]
fn hash_routing_is_fixed() {
    // The same steps in 64-bit arithmetic.
    let by_hand = |token: i32, router: u32, n: u32| {
        let mut h = (token as u32 as u64) ^ 0x9E3779B9;
        h = h.wrapping_add(router as u64);
        h ^= h >> 16;
        h = h.wrapping_mul(0x85EBCA77);
        h ^= h >> 13;
        h = h.wrapping_mul(0xC2B2AE35);
        h ^= h >> 16;
        (h % n as u64) as u32
    };
    for token in [0, 1, 42, -1, i32::MAX] {
        for router in 0..6 {
            assert_eq!(hash_routed_expert(token, router, 256), by_hand(token, router, 256));
        }
    }
}

#[test]
fn halves_at_the_edges() {
    assert_eq!(f32_to_f16(65504.0), 0x7bff);
    assert_eq!(f32_to_f16(65520.0), 0x7c00);
    assert_eq!(f32_to_f16(1.0e9), 0x7c00);
    assert_eq!(f32_to_f16(-1.0e9), 0xfc00);
    assert_eq!(f32_to_f16(f32::NAN), 0x7c00);
    assert_eq!(f32_to_f16(1.0e-9), 0);
    assert_eq!(f32_to_f16(-0.0), 0x8000);
    // The smallest half, and half of it, which ties away from zero.
    assert_eq!(f32_to_f16(2.0f32.powi(-24)), 1);
    assert_eq!(f32_to_f16(2.0f32.powi(-25)), 1);
    assert_eq!(f32_to_f16(2.0f32.powi(-14)), 0x0400);
    // A tie in the normal range.
    assert_eq!(f32_to_f16(1.0 + 2.0f32.powi(-11)), 0x3c01);
    assert_eq!(f16_to_f32(0x7c00), f32::INFINITY);
    assert!(f16_to_f32(0x7e00).is_nan());
    // Halves below the normal range are exact.
    assert_eq!(ds4::f16_to_f32(0x0001), 0x3380_0000);
    assert_eq!(ds4::f16_to_f32(0x03ff), 0x387f_c000);
    assert_eq!(ds4::f16_to_f32(0x8001), 0xb380_0000);
    for m in 0..0x400u16 {
        assert_eq!(f16_to_f32(m), m as f32 * 2.0f32.powi(-24));
        assert_eq!(f16_to_f32(0x8000 + m), -(m as f32) * 2.0f32.powi(-24));
    }
}

#[test]
fn halves_survive_the_way_there_and_back() {
    for h in 0..=u16::MAX {
        if h % 0x8000 <= 0x7c00 {
            assert_eq!(ds4::f32_to_f16(ds4::f16_to_f32(h)), h);
        }
    }
}

#[test]
fn floats_compare_by_bits() {
    let values = [f32::NEG_INFINITY, -1.0e30, -1.5, -0.0, 0.0, 1.0e-40, 1.5, f32::INFINITY, f32::NAN];
    for a in values {
        for b in values {
            assert_eq!(is_float_gt(a.to_bits(), b.to_bits()), a > b, "{} > {}", a, b);
        }
    }
    assert_eq!(f32::from_bits(NEG_INF_BITS), -1.0e30);
    assert_eq!(f32::from_bits(NEG_INFINITY_BITS), f32::NEG_INFINITY);
}

/// The positive eight-bit float with a code.
fn e4m3(code: u32) -> f32 {
    let (exp, mant) = (code >> 3, (code & 7) as f32);
    if exp == 0 {
        mant / 512.0
    } else {
        (1.0 + mant / 8.0) * 2.0f32.powi(exp as i32 - 7)
    }
}

#[test]
fn eight_bit_floats() {
    let round = |x: f32| f32::from_bits(e4m3_dequant(x.to_bits()));
    for code in 0..=126 {
        assert_eq!(round(e4m3(code)), e4m3(code));
        assert_eq!(round(-e4m3(code)), -e4m3(code));
        if code < 126 {
            // Halfway goes to the even code.
            let mid = (e4m3(code) + e4m3(code + 1)) / 2.0;
            let even = if code % 2 == 0 { code } else { code + 1 };
            assert_eq!(round(mid), e4m3(even), "code {}", code);
            assert_eq!(round(f32::from_bits(mid.to_bits() - 1)), e4m3(code));
            assert_eq!(round(f32::from_bits(mid.to_bits() + 1)), e4m3(code + 1));
        }
    }
    assert_eq!(round(1.0e6), 448.0);
    assert_eq!(round(f32::NAN), 448.0);
    assert_eq!(e4m3_dequant((-0.0f32).to_bits()), 0);
    assert_eq!(e4m3_dequant((-1.0e-9f32).to_bits()), 0x8000_0000);
}

#[test]
fn only_what_follows_the_rotary_dimensions_is_rounded() {
    assert_eq!(fp8_kv_blocks(512, 64).len(), 7);
    assert_eq!(fp8_kv_blocks(512, 64)[0], (64, 128));
    assert_eq!(fp8_kv_blocks(16, 8), vec![(8, 16)]);
    assert_eq!(fp8_kv_blocks(140, 8), vec![(8, 72), (72, 136), (136, 140)]);
    assert_eq!(fp8_kv_blocks(8, 8), vec![]);
    assert_eq!(fp8_kv_blocks(8, 9), vec![]);

    let mut kv: Vec<f32> = (0..16).map(|i| 1.0 + i as f32 * 0.0123).collect();
    let before = kv.clone();
    fp8_kv_quantize_row_inplace(&mut kv, 16, 8);
    assert_eq!(kv[..8], before[..8]);
    assert!(kv[8..].iter().zip(&before[8..]).any(|(a, b)| a != b));
}

fn patterns(values: &[f32]) -> Vec<u32> {
    values.iter().map(|v| v.to_bits()).collect()
}

#[test]
fn kinds_of_floats_are_counted() {
    let v = patterns(&[
        1.0,
        -0.0,
        f32::NAN,
        f32::INFINITY,
        f32::NEG_INFINITY,
        -f32::NAN,
        f32::MAX,
        f32::MIN_POSITIVE / 2.0,
        f32::NAN,
    ]);
    assert_eq!(health_of(&v), Health { nan: 3, infinite: 2, finite: 4 });
    assert_eq!(health_of(&[]), Health { nan: 0, infinite: 0, finite: 0 });
    assert_eq!(health_of(&patterns(&[f32::NAN])), Health { nan: 1, infinite: 0, finite: 0 });
}

#[test]
fn greatest_magnitudes() {
    let cases: [&[f32]; 6] = [
        &[],
        &[0.5, -3.25, 3.0],
        &[-0.0],
        &[f32::NAN, 1.0, -f32::NAN],
        &[f32::NAN],
        &[1.0, f32::NEG_INFINITY, f32::NAN],
    ];
    for x in cases {
        let expected = x.iter().fold(0.0f32, |m, v| if v.abs() > m { v.abs() } else { m });
        assert_eq!(max_magnitude(&patterns(x)), expected.to_bits());
    }
    assert_eq!(max_magnitude(&patterns(&[0.5, -3.25, 3.0])), 3.25f32.to_bits());
}

#[test]
fn narrowing_finds_the_nearest_half() {
    for bits in (0..0x477f_f000u32).step_by(65_537) {
        let x = f32::from_bits(bits) as f64;
        let n = ds4::f32_to_f16(bits);
        let d = (f32::from_bits(ds4::f16_to_f32(n)) as f64 - x).abs();
        for other in [n.saturating_sub(1), n + 1] {
            if other < 0x7c00 {
                assert!(d <= (f32::from_bits(ds4::f16_to_f32(other)) as f64 - x).abs());
            }
        }
        assert_eq!(ds4::f32_to_f16(bits + 0x8000_0000), n + 0x8000);
    }
}

//! Caches, the compressor's window, and the choices of the forward pass.
use ds4::compressor::compressor_step;
use ds4::constants::Dims;
use ds4::forward::{
    allowed_indices, compressor_finish_prefill_state, compressor_shift, compressor_store,
    embed_token_f16, expert_block, hc_from_plain_embedding, indexer_allowed,
    layer_hash_selected_experts, layer_routing, layer_topk_selected_experts, pool_slots, Attention,
    Due, KvCache, LayerCache, Projection, Routing, TokenRows,
};
use ds4::half::NEG_INF_BITS;
use ds4::hash_routed_expert;
use ds4::model::build_test_model;

fn bits(v: &[f32]) -> Vec<u32> {
    v.iter().map(|x| x.to_bits()).collect()
}

fn four_layers() -> Dims {
    Dims { n_layer: 4, ..Dims::tiny() }
}

#[test]
fn test_kv_cache_store_and_read() {
    let dims = Dims::tiny();
    let mut kv_cache = KvCache::new(&dims, 4096);
    let head_dim = dims.n_head_dim as usize;

    let kv0: Vec<f32> = (0..head_dim).map(|i| i as f32).collect();
    let kv1: Vec<f32> = (0..head_dim).map(|i| (i * 2) as f32).collect();

    kv_cache.store_raw_kv(0, 0, &bits(&kv0));
    kv_cache.store_raw_kv(0, 1, &bits(&kv1));

    assert_eq!(kv_cache.read_raw_kv(0, 0), &bits(&kv0)[..]);
    assert_eq!(kv_cache.read_raw_kv(0, 1), &bits(&kv1)[..]);

    let cap = kv_cache.raw_cap;
    let kv_over: Vec<f32> = (0..head_dim).map(|i| (i * 3) as f32).collect();
    kv_cache.store_raw_kv(0, cap, &bits(&kv_over));
    assert_eq!(kv_cache.read_raw_kv(0, cap), &bits(&kv_over)[..]);

    assert_eq!(
        kv_cache.read_raw_kv(0, 0),
        &bits(&kv_over)[..],
        "Position 0 should be overwritten after wrap"
    );
    assert_eq!(kv_cache.read_raw_kv(0, 1), &bits(&kv1)[..]);
}

#[test]
fn stored_rows_are_rounded_to_half_precision() {
    let dims = Dims::tiny();
    let mut kv_cache = KvCache::new(&dims, 16);
    let row = bits(&[1.0 + 1.0 / 4096.0; 16]);
    kv_cache.store_raw_kv(0, 3, &row);
    assert_eq!(kv_cache.read_raw_kv(0, 3), &bits(&[1.0; 16])[..]);
    kv_cache.push_raw(0, &row);
    assert_eq!(kv_cache.read_raw_kv(0, 0), &bits(&[1.0; 16])[..]);
}

#[test]
fn pushed_rows_slide() {
    let dims = Dims::tiny();
    let mut cache = KvCache::new(&dims, 4096);
    assert_eq!(cache.raw_cap, 8);
    for n in 0..11u32 {
        cache.push_raw(0, &bits(&[n as f32; 16]));
        assert_eq!(cache.layers[0].n_raw, (n + 1).min(8));
    }
    for r in 0..8usize {
        assert_eq!(cache.layers[0].raw_kv[r * 16..r * 16 + 16], bits(&[(r + 3) as f32; 16])[..]);
    }
}

#[test]
fn short_contexts_keep_fewer_rows() {
    let dims = Dims::tiny();
    assert_eq!(KvCache::new(&dims, 3).raw_cap, 3);
    assert_eq!(KvCache::new(&dims, 0).raw_cap, 1);
    assert_eq!(LayerCache::new(&dims, 3, 0).cap_raw, 3);
    assert_eq!(LayerCache::new(&dims, 10, 2).comp_cap, 4);
}

#[test]
fn fresh_layers_follow_their_ratio() {
    let dims = four_layers();
    let cache = KvCache::new(&dims, 40);
    let ratios: Vec<u32> = cache.layers.iter().map(|l| l.compress_ratio).collect();
    assert_eq!(ratios, vec![0, 0, 4, 128]);
    let l = &cache.layers[0];
    assert!(l.attn_comp_kv.is_empty() && l.attn_state_kv.is_empty() && l.index_state_kv.is_empty());
    let l = &cache.layers[2];
    assert_eq!(l.attn_comp_kv.len(), 12 * 16);
    assert_eq!(l.index_comp_kv.len(), 12 * 8);
    assert_eq!(l.attn_state_score.len(), 8 * 32);
    assert_eq!(l.index_state_score.len(), 8 * 16);
    for (i, &s) in l.attn_state_score.iter().enumerate() {
        let expected = if i / 32 < 4 && i % 32 < 16 { 0 } else { NEG_INF_BITS };
        assert_eq!(s, expected, "entry {}", i);
    }
    let l = &cache.layers[3];
    assert_eq!(l.attn_state_score, vec![NEG_INF_BITS; 128 * 16]);
    assert!(l.index_comp_kv.is_empty());
    assert_eq!(NEG_INF_BITS, (-1.0e30f32).to_bits());
}

#[test]
fn compressor_steps() {
    let s = compressor_step(4, 6);
    assert_eq!((s.row, s.emit, s.comp_pos), (6, false, 0));
    let s = compressor_step(4, 7);
    assert_eq!((s.row, s.emit, s.comp_pos), (7, true, 4));
    let s = compressor_step(128, 127);
    assert_eq!((s.row, s.emit, s.comp_pos), (127, true, 0));
    let s = compressor_step(128, 130);
    assert_eq!((s.row, s.emit, s.comp_pos), (2, false, 0));
}

#[test]
fn windows_of_ratio_four_move_on() {
    let mut kv = vec![0u32; 16];
    let mut sc = vec![NEG_INF_BITS; 16];
    for pos in 4..8usize {
        let v = pos as u32;
        compressor_store(&mut kv, &mut sc, &[v, v + 10], &[v + 20, v + 30], 1, 4, pos);
    }
    assert_eq!(kv, vec![0, 0, 0, 0, 0, 0, 0, 0, 4, 14, 5, 15, 6, 16, 7, 17]);
    compressor_shift(&mut kv, &mut sc, 1);
    assert_eq!(kv, vec![4, 14, 5, 15, 6, 16, 7, 17, 0, 0, 0, 0, 0, 0, 0, 0]);
    assert_eq!(sc[..8], [24, 34, 25, 35, 26, 36, 27, 37]);
    assert_eq!(sc[8..], [NEG_INF_BITS; 8]);
}

#[test]
fn finishing_a_prompt_clears_what_is_open() {
    let mut kv: Vec<u32> = (1..17).collect();
    let mut sc: Vec<u32> = (1..17).collect();
    compressor_finish_prefill_state(&mut kv, &mut sc, 1, 4, 9);
    assert_eq!(kv, vec![1, 2, 3, 4, 5, 6, 7, 8, 9, 10, 0, 0, 0, 0, 0, 0]);
    assert_eq!(sc[10..], [NEG_INF_BITS; 6]);
    let mut kv = vec![7u32; 128];
    let mut sc = vec![7u32; 128];
    compressor_finish_prefill_state(&mut kv, &mut sc, 1, 128, 130);
    assert_eq!(kv[..2], [7, 7]);
    assert_eq!(kv[2..], [0; 126]);
    assert_eq!(sc[2..], [NEG_INF_BITS; 126]);
}

#[test]
fn finishing_without_a_window_does_nothing() {
    let cases: [(Vec<u32>, Vec<u32>, u32, u32); 4] = [
        (vec![], vec![7; 16], 1, 4),
        (vec![7; 16], vec![], 1, 4),
        (vec![7; 16], vec![7; 16], 0, 4),
        (vec![7; 16], vec![7; 16], 1, 0),
    ];
    for (kv, sc, head_dim, ratio) in cases {
        let (mut a, mut b) = (kv.clone(), sc.clone());
        compressor_finish_prefill_state(&mut a, &mut b, head_dim, ratio, 1);
        assert_eq!((a, b), (kv, sc));
    }
    let mut kv = vec![7u32; 20];
    let mut sc = vec![7u32; 18];
    compressor_finish_prefill_state(&mut kv, &mut sc, 1, 4, 11);
    assert_eq!(kv[..14], [7; 14]);
    assert_eq!(kv[14..], [0, 0, 7, 7, 7, 7]);
    assert_eq!(sc[14..], [NEG_INF_BITS, NEG_INF_BITS, 7, 7]);
}

#[test]
fn finishing_is_overwritten_outside_ratio_four() {
    let mut streamed = (vec![7u32; 128], vec![8u32; 128]);
    let mut finished = streamed.clone();
    compressor_finish_prefill_state(&mut finished.0, &mut finished.1, 1, 128, 131);
    assert_ne!(streamed, finished);
    for pos in 131..256usize {
        for (kv, sc) in [&mut streamed, &mut finished] {
            compressor_store(kv, sc, &[pos as u32], &[1], 1, 128, pos);
        }
    }
    assert_eq!(streamed, finished);
}

#[test]
fn finishing_keeps_a_streamed_window() {
    let dims = four_layers();
    let mut cache = KvCache::new(&dims, 64);
    let ones = vec![1u32; 32];
    let comp = bits(&[0.5; 16]);
    for pos in 0..6usize {
        let step = cache.layers[2].feed_attn(&dims, pos, &ones, &ones);
        if step.emit {
            cache.layers[2].emit_attn(&dims, &comp);
        }
    }
    assert_eq!(cache.layers[2].n_comp, 1);
    assert_eq!(cache.layers[2].attn_comp_kv[..16], comp[..]);
    let before = (
        cache.layers[2].attn_state_kv.clone(),
        cache.layers[2].attn_state_score.clone(),
    );
    cache.finish_prefill_states(6);
    assert_eq!(cache.layers[2].attn_state_kv, before.0);
    assert_eq!(cache.layers[2].attn_state_score, before.1);
    // One token fewer, and the last row is cleared.
    cache.finish_prefill_states(5);
    assert_eq!(cache.layers[2].attn_state_kv[5 * 32..6 * 32], [0; 32]);
}

#[test]
fn indexer_rows_are_kept_apart() {
    let dims = four_layers();
    let mut cache = KvCache::new(&dims, 64);
    let row = vec![3u32; 16];
    for pos in 0..4usize {
        let step = cache.layers[2].feed_index(&dims, pos, &row, &row);
        assert_eq!(step.emit, pos == 3);
    }
    cache.layers[2].emit_index(&dims, &bits(&[2.0; 8]));
    assert_eq!(cache.layers[2].n_index_comp, 1);
    assert_eq!(cache.layers[2].n_comp, 0);
    assert_eq!(cache.layers[2].index_comp_kv[..8], bits(&[2.0; 8])[..]);
    assert_eq!(cache.layers[2].index_state_kv[..16], row[..]);
    assert_eq!(cache.layers[2].index_state_kv[64..], [0; 64]);
}

#[test]
fn a_context_has_room_for_its_compressed_rows() {
    let dims = four_layers();
    let ctx = 21;
    let mut cache = KvCache::new(&dims, ctx);
    let row = vec![0u32; 32];
    for pos in 0..ctx {
        if cache.layers[2].feed_attn(&dims, pos, &row, &row).emit {
            assert!(cache.layers[2].n_comp < cache.layers[2].comp_cap);
            cache.layers[2].emit_attn(&dims, &[0u32; 16]);
        }
    }
    assert_eq!(cache.layers[2].n_comp, 5);
}

#[test]
fn compressed_rows_are_pushed_behind_each_other() {
    let mut rows = vec![0u32; 6];
    let mut n = 0u32;
    KvCache::push_comp(&mut rows, &mut n, 3, 2, &bits(&[1.0, 2.0]));
    KvCache::push_comp(&mut rows, &mut n, 3, 2, &bits(&[3.0, 4.0]));
    assert_eq!(n, 2);
    assert_eq!(rows, bits(&[1.0, 2.0, 3.0, 4.0, 0.0, 0.0]));
}

#[test]
fn a_checkpoint_undoes_a_draft() {
    let dims = four_layers();
    let mut cache = KvCache::new(&dims, 64);
    for il in 0..4usize {
        cache.push_raw(il, &bits(&[1.0; 16]));
    }
    let ckpt = cache.checkpoint_layers(2);
    assert_eq!(ckpt.len(), 2);
    for il in 0..2usize {
        cache.push_raw(il, &bits(&[2.0; 16]));
    }
    cache.restore_layers(&ckpt);
    for il in 0..4usize {
        assert_eq!(cache.layers[il].n_raw, 1);
        assert_eq!(cache.layers[il].raw_kv[..16], bits(&[1.0; 16])[..]);
        assert_eq!(cache.layers[il].raw_kv[16..32], bits(&[0.0; 16])[..]);
    }
    assert_eq!(cache.checkpoint_layers(9).len(), 4);
}

#[test]
fn pooled_entries() {
    assert_eq!(pool_slots(3, 4, 1), vec![1, 28, 7, 34, 13, 40, 19, 46]);
    assert_eq!(pool_slots(2, 3, 1), vec![1, 3, 5]);
}

/// The scores of compressed rows as the indexer computes them: a rectified dot product per head,
/// weighted and summed.
fn indexer_scores(q: &[f32], weights: &[f32], rows: &[f32], head_dim: usize) -> Vec<u32> {
    let mut scores = Vec::new();
    for kv in rows.chunks(head_dim) {
        let mut s = 0.0f32;
        for (h, w) in weights.iter().enumerate() {
            let qh = &q[h * head_dim..(h + 1) * head_dim];
            let dot: f32 = qh.iter().zip(kv).map(|(a, b)| a * b).sum();
            s += dot.max(0.0) * w;
        }
        scores.push(s.to_bits());
    }
    scores
}

#[test]
fn test_indexer_allowed_decode_one_vs_c() {
    let dims = Dims::tiny();
    let n_lora_q = dims.n_lora_q as usize;
    let n_embd = dims.n_embd as usize;
    let n_indexer_head = dims.n_indexer_head as usize;
    let indexer_head_dim = dims.n_indexer_head_dim as usize;
    let n_comp = dims.n_indexer_top_k as usize + 4;
    let top_k = dims.n_indexer_top_k as usize;

    // All weights and inputs are one, so every projection sums its inputs, and position 0 is not
    // rotated.
    let q = vec![n_lora_q as f32; n_indexer_head * indexer_head_dim];
    let scale = 1.0 / ((indexer_head_dim * n_indexer_head) as f32).sqrt();
    let weights = vec![n_embd as f32 * scale; n_indexer_head];

    let mut index_comp_kv = vec![0.0f32; n_comp * indexer_head_dim];
    for c in 0..n_comp {
        for d in 0..indexer_head_dim {
            index_comp_kv[c * indexer_head_dim + d] = (c * 2) as f32;
        }
    }
    let scores = indexer_scores(&q, &weights, &index_comp_kv, indexer_head_dim);
    let allowed = indexer_allowed(&scores, top_k);

    assert_eq!(allowed.len(), n_comp);
    let cutoff = n_comp - top_k;
    for c in 0..cutoff {
        assert!(!allowed[c], "row {} should not be allowed (below cutoff)", c);
    }
    for c in cutoff..n_comp {
        assert!(allowed[c], "row {} should be allowed (top {})", c, top_k);
    }
    let n_allowed = allowed.iter().filter(|&&a| a).count();
    assert_eq!(n_allowed, top_k, "exactly {} rows should be allowed", top_k);
}

#[test]
fn test_indexer_all_short() {
    let allowed = indexer_allowed(&[0.0f32.to_bits()], Dims::tiny().n_indexer_top_k as usize);
    assert_eq!(allowed.len(), 1);
    assert!(allowed[0]);
}

#[test]
fn test_indexer_empty() {
    let allowed = indexer_allowed(&[], Dims::tiny().n_indexer_top_k as usize);
    assert_eq!(allowed.len(), 0);
}

#[test]
fn indexer_takes_the_first_of_equal_rows() {
    let scores = bits(&[1.0, 3.0, 3.0, -1.0, 3.0]);
    assert_eq!(indexer_allowed(&scores, 2), vec![false, true, true, false, false]);
    assert_eq!(indexer_allowed(&scores, 0), vec![false; 5]);
    // Scores that are no numbers are never the greatest; the pick falls on the first row.
    let scores = bits(&[f32::NAN, f32::NAN, 2.0]);
    assert_eq!(indexer_allowed(&scores, 2), vec![true, false, true]);
}

#[test]
fn embeddings_are_widened() {
    let dims = Dims::tiny();
    let omw = build_test_model(&dims);
    let mut out = vec![7u32; dims.n_embd as usize + 1];
    embed_token_f16(&omw.weights, &dims, 5, &mut out);
    assert_eq!(out[..64], bits(&[1.0; 64])[..]);
    assert_eq!(out[64], 7);
}

#[test]
fn streams_start_from_the_embedding() {
    let dims = Dims { n_hc: 3, n_embd: 2, ..Dims::tiny() };
    let mut cur = vec![9u32; 7];
    hc_from_plain_embedding(&dims, &mut cur, &[4, 5]);
    assert_eq!(cur, vec![4, 5, 4, 5, 4, 5, 9]);
}

#[test]
fn experts_come_from_the_table_or_the_hash() {
    let dims = Dims::tiny();
    let omw = build_test_model(&dims);
    let layer = &omw.weights.layers[0];
    assert_eq!(layer_hash_selected_experts(layer, &dims, 3), vec![0, 0]);
    for token in [-1i32, 256] {
        let expected: Vec<usize> =
            (0..2).map(|i| hash_routed_expert(token, i, dims.n_expert) as usize).collect();
        assert_eq!(layer_hash_selected_experts(layer, &dims, token), expected);
    }
}

#[test]
fn experts_with_the_greatest_values_come_first() {
    let probs = bits(&[0.5, 2.0, 2.0, 1.0]);
    assert_eq!(layer_topk_selected_experts(&probs, 3), vec![1, 2, 3]);
    assert!(layer_topk_selected_experts(&probs, 0).is_empty());
}

#[test]
fn blocks_of_experts() {
    assert_eq!(expert_block(2, 3, 4, 1, 3), 31);
    assert_eq!(expert_block(0, 3, 4, 0, 0), 0);
}

#[test]
fn tokens_are_counted() {
    let dims = four_layers();
    let ctx = 150;
    for il in 0..4u32 {
        let mut l = LayerCache::new(&dims, ctx, il);
        let ratio = l.compress_ratio as usize;
        for pos in 0..ctx {
            let width = if ratio == 4 { 32 } else { 16 };
            let rows = TokenRows {
                kv: bits(&[pos as f32; 16]),
                attn_kv: vec![1; width],
                attn_score: vec![2; width],
                index_kv: vec![3; 16],
                index_score: vec![4; 16],
            };
            let due = l.feed_token(&dims, pos, &rows);
            let closes = ratio != 0 && (pos + 1) % ratio == 0;
            let expected = if closes { Some(pos + 1 - ratio) } else { None };
            let index = if ratio == 4 { expected } else { None };
            assert_eq!(due, Due { attn: expected, index });
            l.take_rows(&dims, &due, &bits(&[0.5; 16]), &bits(&[0.25; 8]));
            let n = pos + 1;
            assert_eq!(l.n_raw as usize, n.min(8));
            if ratio != 0 {
                assert_eq!(l.n_comp as usize, n / ratio);
            }
            assert_eq!(l.n_index_comp as usize, if ratio == 4 { n / 4 } else { 0 });
        }
    }
}

#[test]
fn allowed_rows_are_listed() {
    assert_eq!(allowed_indices(&[true, false, true, true]), vec![0, 2, 3]);
    assert!(allowed_indices(&[false]).is_empty());
}

#[test]
fn plans_follow_the_compression_of_a_layer() {
    let dims = four_layers();
    let cache = KvCache::new(&dims, 64);
    let plan = cache.layers[0].plan_token(&dims, 6);
    assert_eq!((plan.attn, plan.index, plan.attention), (None, None, Attention::Recent));
    let plan = cache.layers[2].plan_token(&dims, 6);
    let hd = dims.n_head_dim as usize;
    let ihd = dims.n_indexer_head_dim as usize;
    assert_eq!(plan.attn, Some(Projection { width: 2 * hd, place: 2 }));
    assert_eq!(plan.index, Some(Projection { width: 2 * ihd, place: 2 }));
    assert_eq!(plan.attention, Attention::Chosen);
    let plan = cache.layers[3].plan_token(&dims, 130);
    assert_eq!(plan.attn, Some(Projection { width: hd, place: 2 }));
    assert_eq!((plan.index, plan.attention), (None, Attention::Compressed));
}

#[test]
fn layers_with_a_table_are_routed_by_it() {
    let mut omw = build_test_model(&Dims::tiny());
    let layer = &mut omw.weights.layers[0];
    assert_eq!(layer_routing(layer), Routing::Table);
    layer.ffn_gate_tid2eid.bytes = 0;
    assert_eq!(layer_routing(layer), Routing::Scores);
}

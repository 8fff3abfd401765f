//! Inference engine for one fixed transformer architecture: the file format of its weights, its
//! tokenizer, its caches, and the decisions that steer a session.
//!
//! Floating-point numbers are held as their bit patterns. What is computed here is what can be said
//! of them exactly: conversions, comparisons, integer dot products, and where each number goes.
use vstd::prelude::*;

pub mod bpe;
pub mod bpe_laws;
pub mod bytes;
pub mod chat;
pub mod chat_laws;
pub mod cli;
pub mod cli_laws;
pub mod compressor;
pub mod constants;
pub mod dialogue;
pub mod fixture_laws;
pub mod format_laws;
pub mod forward;
pub mod forward_laws;
pub mod gguf;
pub mod gguf_laws;
pub mod gguf_writer;
pub mod half;
pub mod half_laws;
pub mod model;
pub mod model_laws;
pub mod quant;
pub mod quant_laws;
pub mod quant_tables;
pub mod rank;
pub mod rank_laws;
pub mod routing;
pub mod routing_laws;
pub mod sample_file;
pub mod sample_laws;
pub mod sample_model;
pub mod session;
pub mod session_laws;
pub mod tensor_types;
pub mod text;
pub mod tokenizer;
pub mod tokenizer_laws;

pub use constants::{Dims, N_EMBD, N_EXPERT, N_EXPERT_SHARED, N_EXPERT_USED, N_FF_EXP, N_HASH_LAYER};
pub use constants::{N_HC, N_HC_SINKHORN_ITER, N_HEAD, N_HEAD_DIM, N_HEAD_KV, N_INDEXER_HEAD};
pub use constants::{N_INDEXER_HEAD_DIM, N_INDEXER_TOP_K, N_LAYER, N_LORA_O, N_LORA_Q, N_OUT_GROUP};
pub use constants::{N_ROT, N_SWA, N_VALUE_DIM, N_VOCAB, REASONING_EFFORT_MAX_PREFIX};
pub use constants::{ROPE_ORIG_CTX, THINK_MAX_MIN_CONTEXT};
pub use half::{f16_round_inplace, f16_to_f32, f32_to_f16};

verus! {

/// Compression ratio of a layer: the first two layers keep every row, even layers after
/// them compress by 4 and odd ones by 128.
pub open spec fn compress_ratio(il: u32) -> u32 {
    if il < 2 {
        0
    } else if il % 2 == 0 {
        4
    } else {
        128
    }
}

/// Return the compression ratio of a layer.
pub fn layer_compress_ratio(il: u32) -> (r: u32)
    ensures
        r == compress_ratio(il),
{
    if il < 2 {
        0
    } else if il % 2 == 0 {
        4
    } else {
        128
    }
}

/// The bits of a token and a router, mixed.
pub open spec fn mixed_hash(token: i32, router_idx: u32) -> u64 {
    let a = ((token as u32 as u64) ^ 0x9E3779B9u64).wrapping_add(router_idx as u64);
    let b = (a ^ (a >> 16)).wrapping_mul(0x85EBCA77u64);
    let c = (b ^ (b >> 13)).wrapping_mul(0xC2B2AE35u64);
    c ^ (c >> 16)
}

/// Route a token to an expert by hashing.
pub fn hash_routed_expert(token: i32, router_idx: u32, n_expert: u32) -> (r: u32)
    requires
        n_expert > 0,
    ensures
        r == mixed_hash(token, router_idx) % n_expert as u64,
        r < n_expert,
{
    let mut h: u64 = (token as u32 as u64) ^ 0x9E3779B9u64;
    h = h.wrapping_add(router_idx as u64);
    h = h ^ (h >> 16);
    h = h.wrapping_mul(0x85EBCA77u64);
    h = h ^ (h >> 13);
    h = h.wrapping_mul(0xC2B2AE35u64);
    h = h ^ (h >> 16);
    (h % n_expert as u64) as u32
}

} // verus!

//! Model architecture constants.
use vstd::prelude::*;

verus! {

/// Transformer layers.
pub const N_LAYER: u32 = 43;

/// Embedding width.
pub const N_EMBD: u32 = 4096;

/// Tokens in the vocabulary.
pub const N_VOCAB: u32 = 129280;

/// Attention heads.
pub const N_HEAD: u32 = 64;

/// Key-value heads.
pub const N_HEAD_KV: u32 = 1;

/// Width of a head.
pub const N_HEAD_DIM: u32 = 512;

/// Width of a value.
pub const N_VALUE_DIM: u32 = 512;

/// Rotary dimensions of a head.
pub const N_ROT: u32 = 64;

/// Groups of the output projection.
pub const N_OUT_GROUP: u32 = 8;

/// Rank of the query projection.
pub const N_LORA_Q: u32 = 1024;

/// Rank of the output projection.
pub const N_LORA_O: u32 = 1024;

/// Routed experts.
pub const N_EXPERT: u32 = 256;

/// Routed experts used per token.
pub const N_EXPERT_USED: u32 = 6;

/// Shared experts.
pub const N_EXPERT_SHARED: u32 = 1;

/// Hidden width of an expert.
pub const N_FF_EXP: u32 = 2048;

/// Layers with hash routing.
pub const N_HASH_LAYER: u32 = 3;

/// Rows of the sliding attention window.
pub const N_SWA: u32 = 128;

/// Indexer heads.
pub const N_INDEXER_HEAD: u32 = 64;

/// Width of an indexer head.
pub const N_INDEXER_HEAD_DIM: u32 = 128;

/// Compressed rows that the indexer lets through.
pub const N_INDEXER_TOP_K: u32 = 512;

/// Residual streams.
pub const N_HC: u32 = 4;

/// Normalization rounds of the stream mixing matrix.
pub const N_HC_SINKHORN_ITER: u32 = 20;

/// The sizes of a model. The full model has the constants of this module; a tiny one serves where a
/// model of full size does not fit.
#[derive(Debug, Clone, Copy, PartialEq, Eq, Structural)]
pub struct Dims {
    /// Transformer layers.
    pub n_layer: u32,
    /// Embedding width.
    pub n_embd: u32,
    /// Tokens in the vocabulary.
    pub n_vocab: u32,
    /// Attention heads.
    pub n_head: u32,
    /// Key-value heads.
    pub n_head_kv: u32,
    /// Width of a head.
    pub n_head_dim: u32,
    /// Width of a value.
    pub n_value_dim: u32,
    /// Rotary dimensions of a head.
    pub n_rot: u32,
    /// Groups of the output projection.
    pub n_out_group: u32,
    /// Rank of the query projection.
    pub n_lora_q: u32,
    /// Rank of the output projection.
    pub n_lora_o: u32,
    /// Routed experts.
    pub n_expert: u32,
    /// Routed experts used per token.
    pub n_expert_used: u32,
    /// Shared experts.
    pub n_expert_shared: u32,
    /// Hidden width of an expert.
    pub n_ff_exp: u32,
    /// Layers with hash routing.
    pub n_hash_layer: u32,
    /// Rows of the sliding attention window.
    pub n_swa: u32,
    /// Indexer heads.
    pub n_indexer_head: u32,
    /// Width of an indexer head.
    pub n_indexer_head_dim: u32,
    /// Compressed rows that the indexer lets through.
    pub n_indexer_top_k: u32,
    /// Residual streams.
    pub n_hc: u32,
    /// Normalization rounds of the stream mixing matrix.
    pub n_hc_sinkhorn_iter: u32,
}

impl Dims {
    /// The sizes of the full model.
    pub fn full() -> (d: Dims)
        ensures
            d.n_layer == N_LAYER,
            d.n_embd == N_EMBD,
            d.n_vocab == N_VOCAB,
            d.n_head == N_HEAD,
            d.n_head_kv == N_HEAD_KV,
            d.n_head_dim == N_HEAD_DIM,
            d.n_value_dim == N_VALUE_DIM,
            d.n_rot == N_ROT,
            d.n_out_group == N_OUT_GROUP,
            d.n_lora_q == N_LORA_Q,
            d.n_lora_o == N_LORA_O,
            d.n_expert == N_EXPERT,
            d.n_expert_used == N_EXPERT_USED,
            d.n_expert_shared == N_EXPERT_SHARED,
            d.n_ff_exp == N_FF_EXP,
            d.n_hash_layer == N_HASH_LAYER,
            d.n_swa == N_SWA,
            d.n_indexer_head == N_INDEXER_HEAD,
            d.n_indexer_head_dim == N_INDEXER_HEAD_DIM,
            d.n_indexer_top_k == N_INDEXER_TOP_K,
            d.n_hc == N_HC,
            d.n_hc_sinkhorn_iter == N_HC_SINKHORN_ITER,
            d == (Dims {
                n_layer: 43,
                n_embd: 4096,
                n_vocab: 129280,
                n_head: 64,
                n_head_kv: 1,
                n_head_dim: 512,
                n_value_dim: 512,
                n_rot: 64,
                n_out_group: 8,
                n_lora_q: 1024,
                n_lora_o: 1024,
                n_expert: 256,
                n_expert_used: 6,
                n_expert_shared: 1,
                n_ff_exp: 2048,
                n_hash_layer: 3,
                n_swa: 128,
                n_indexer_head: 64,
                n_indexer_head_dim: 128,
                n_indexer_top_k: 512,
                n_hc: 4,
                n_hc_sinkhorn_iter: 20,
            }),
    {
        Dims {
            n_layer: N_LAYER,
            n_embd: N_EMBD,
            n_vocab: N_VOCAB,
            n_head: N_HEAD,
            n_head_kv: N_HEAD_KV,
            n_head_dim: N_HEAD_DIM,
            n_value_dim: N_VALUE_DIM,
            n_rot: N_ROT,
            n_out_group: N_OUT_GROUP,
            n_lora_q: N_LORA_Q,
            n_lora_o: N_LORA_O,
            n_expert: N_EXPERT,
            n_expert_used: N_EXPERT_USED,
            n_expert_shared: N_EXPERT_SHARED,
            n_ff_exp: N_FF_EXP,
            n_hash_layer: N_HASH_LAYER,
            n_swa: N_SWA,
            n_indexer_head: N_INDEXER_HEAD,
            n_indexer_head_dim: N_INDEXER_HEAD_DIM,
            n_indexer_top_k: N_INDEXER_TOP_K,
            n_hc: N_HC,
            n_hc_sinkhorn_iter: N_HC_SINKHORN_ITER,
        }
    }

    /// The sizes of a tiny model.
    pub fn tiny() -> (d: Dims)
        ensures
            d == tiny_dims(),
            d == (Dims {
                n_layer: 1,
                n_embd: 64,
                n_vocab: 256,
                n_head: 4,
                n_head_kv: 1,
                n_head_dim: 16,
                n_value_dim: 16,
                n_rot: 8,
                n_out_group: 2,
                n_lora_q: 16,
                n_lora_o: 16,
                n_expert: 4,
                n_expert_used: 2,
                n_expert_shared: 1,
                n_ff_exp: 32,
                n_hash_layer: 2,
                n_swa: 8,
                n_indexer_head: 4,
                n_indexer_head_dim: 8,
                n_indexer_top_k: 16,
                n_hc: 4,
                n_hc_sinkhorn_iter: 5,
            }),
    {
        Dims {
            n_layer: 1,
            n_embd: 64,
            n_vocab: 256,
            n_head: 4,
            n_head_kv: 1,
            n_head_dim: 16,
            n_value_dim: 16,
            n_rot: 8,
            n_out_group: 2,
            n_lora_q: 16,
            n_lora_o: 16,
            n_expert: 4,
            n_expert_used: 2,
            n_expert_shared: 1,
            n_ff_exp: 32,
            n_hash_layer: 2,
            n_swa: 8,
            n_indexer_head: 4,
            n_indexer_head_dim: 8,
            n_indexer_top_k: 16,
            n_hc: 4,
            n_hc_sinkhorn_iter: 5,
        }
    }
}

/// The sizes of a tiny model.
pub open spec fn tiny_dims() -> Dims {
    Dims {
        n_layer: 1,
        n_embd: 64,
        n_vocab: 256,
        n_head: 4,
        n_head_kv: 1,
        n_head_dim: 16,
        n_value_dim: 16,
        n_rot: 8,
        n_out_group: 2,
        n_lora_q: 16,
        n_lora_o: 16,
        n_expert: 4,
        n_expert_used: 2,
        n_expert_shared: 1,
        n_ff_exp: 32,
        n_hash_layer: 2,
        n_swa: 8,
        n_indexer_head: 4,
        n_indexer_head_dim: 8,
        n_indexer_top_k: 16,
        n_hc: 4,
        n_hc_sinkhorn_iter: 5,
    }
}

/// The context that the original rotary frequencies were trained for.
pub const ROPE_ORIG_CTX: u64 = 65536;

/// Instructions that go before the system prompt when reasoning effort is at its maximum.
pub const REASONING_EFFORT_MAX_PREFIX: &'static str =
    "Reasoning Effort: Absolute maximum with no shortcuts permitted.\nYou MUST be very thorough in your thinking and comprehensively decompose the problem to resolve the root cause, rigorously stress-testing your logic against all potential paths, edge cases, and adversarial scenarios.\nExplicitly write out your entire deliberation process, documenting every intermediate step, considered alternative, and rejected hypothesis to ensure absolutely no assumption is left unchecked.\n\n";

/// The smallest context that allows reasoning at maximum effort.
pub const THINK_MAX_MIN_CONTEXT: u32 = 393216;

} // verus!

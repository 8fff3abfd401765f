//! A model made up in memory, with every weight set to one value.
use crate::bytes::{le_bytes, lemma_le_bytes_len, push_le};
use crate::constants::Dims;
use crate::half::{f32_to_f16, narrowed};
use crate::model::{layer_prefix, LayerWeights, ModelWeights, Tensor, TensorData};
use crate::model::{GLOBAL_TENSORS, LAYER_TENSORS};
use crate::text::push_decimal;
use vstd::prelude::*;

verus! {

/// A tensor of the made-up model: its name, its type (0 for 32-bit floats, 1 for halves, 22 for
/// 32-bit integers) and its element count.
pub struct Sketch {
    pub name: Seq<char>,
    pub tensor_type: u32,
    pub elems: int,
}

/// The tensors outside the layers.
pub open spec fn global_sketch(d: Dims, k: int) -> Sketch {
    if k == 0 {
        Sketch { name: "token_embd.weight"@, tensor_type: 1, elems: d.n_vocab * d.n_embd }
    } else if k == 1 {
        Sketch { name: "output.hc_base"@, tensor_type: 0, elems: (2 * d.n_hc + d.n_hc * d.n_hc) }
    } else if k == 2 {
        Sketch {
            name: "output.hc_fn.weight"@,
            tensor_type: 0,
            elems: (2 * d.n_hc + d.n_hc * d.n_hc) * (d.n_hc * d.n_embd),
        }
    } else if k == 3 {
        Sketch { name: "output.hc_scale"@, tensor_type: 0, elems: 3 as int }
    } else if k == 4 {
        Sketch { name: "output.norm.weight"@, tensor_type: 0, elems: d.n_embd as int }
    } else {
        Sketch { name: "output.weight"@, tensor_type: 1, elems: d.n_vocab * d.n_embd }
    }
}

/// The tensors of a layer, by the ends of their names.
pub open spec fn layer_sketch(d: Dims, k: int) -> Sketch {
    if k == 0 {
        Sketch {
            name: "hc_attn_fn.weight"@,
            tensor_type: 0,
            elems: (2 * d.n_hc + d.n_hc * d.n_hc) * (d.n_hc * d.n_embd),
        }
    } else if k == 1 {
        Sketch { name: "hc_attn_scale"@, tensor_type: 0, elems: 3 as int }
    } else if k == 2 {
        Sketch { name: "hc_attn_base"@, tensor_type: 0, elems: (2 * d.n_hc + d.n_hc * d.n_hc) }
    } else if k == 3 {
        Sketch { name: "attn_norm.weight"@, tensor_type: 0, elems: d.n_embd as int }
    } else if k == 4 {
        Sketch { name: "attn_q_a.weight"@, tensor_type: 1, elems: d.n_lora_q * d.n_embd }
    } else if k == 5 {
        Sketch { name: "attn_q_a_norm.weight"@, tensor_type: 0, elems: d.n_lora_q as int }
    } else if k == 6 {
        Sketch {
            name: "attn_q_b.weight"@,
            tensor_type: 1,
            elems: (d.n_head * d.n_head_dim) * d.n_lora_q,
        }
    } else if k == 7 {
        Sketch { name: "attn_kv.weight"@, tensor_type: 1, elems: d.n_head_dim * d.n_embd }
    } else if k == 8 {
        Sketch { name: "attn_kv_a_norm.weight"@, tensor_type: 0, elems: d.n_embd as int }
    } else if k == 9 {
        Sketch { name: "attn_sinks.weight"@, tensor_type: 1, elems: d.n_head_dim as int }
    } else if k == 10 {
        Sketch {
            name: "attn_output_a.weight"@,
            tensor_type: 1,
            elems: (d.n_out_group * d.n_lora_o) * (d.n_head as int / d.n_out_group as int * d.n_head_dim),
        }
    } else if k == 11 {
        Sketch {
            name: "attn_output_b.weight"@,
            tensor_type: 0,
            elems: d.n_embd * (d.n_out_group * d.n_lora_o),
        }
    } else if k == 12 {
        Sketch {
            name: "attn_compressor_ape.weight"@,
            tensor_type: 0,
            elems: d.n_head * d.n_head_dim,
        }
    } else if k == 13 {
        Sketch {
            name: "attn_compressor_kv.weight"@,
            tensor_type: 1,
            elems: d.n_head * d.n_head_dim * d.n_embd,
        }
    } else if k == 14 {
        Sketch {
            name: "attn_compressor_gate.weight"@,
            tensor_type: 0,
            elems: d.n_head * d.n_head_dim,
        }
    } else if k == 15 {
        Sketch {
            name: "attn_compressor_norm.weight"@,
            tensor_type: 0,
            elems: d.n_head * d.n_head_dim,
        }
    } else if k == 16 {
        Sketch {
            name: "indexer.attn_q_b.weight"@,
            tensor_type: 1,
            elems: d.n_indexer_head * d.n_indexer_head_dim * d.n_embd,
        }
    } else if k == 17 {
        Sketch {
            name: "indexer.proj.weight"@,
            tensor_type: 1,
            elems: d.n_head * d.n_indexer_head * d.n_head_dim * d.n_indexer_head_dim,
        }
    } else if k == 18 {
        Sketch {
            name: "indexer_compressor_ape.weight"@,
            tensor_type: 0,
            elems: d.n_indexer_head * d.n_indexer_head_dim,
        }
    } else if k == 19 {
        Sketch {
            name: "indexer_compressor_kv.weight"@,
            tensor_type: 1,
            elems: d.n_indexer_head * d.n_indexer_head_dim * d.n_embd,
        }
    } else if k == 20 {
        Sketch {
            name: "indexer_compressor_gate.weight"@,
            tensor_type: 0,
            elems: d.n_indexer_head * d.n_indexer_head_dim,
        }
    } else if k == 21 {
        Sketch {
            name: "indexer_compressor_norm.weight"@,
            tensor_type: 0,
            elems: d.n_indexer_head * d.n_indexer_head_dim,
        }
    } else if k == 22 {
        Sketch {
            name: "hc_ffn_fn.weight"@,
            tensor_type: 0,
            elems: (2 * d.n_hc + d.n_hc * d.n_hc) * (d.n_hc * d.n_embd),
        }
    } else if k == 23 {
        Sketch { name: "hc_ffn_scale.weight"@, tensor_type: 0, elems: 3 as int }
    } else if k == 24 {
        Sketch {
            name: "hc_ffn_base.weight"@,
            tensor_type: 0,
            elems: (2 * d.n_hc + d.n_hc * d.n_hc),
        }
    } else if k == 25 {
        Sketch { name: "ffn_norm.weight"@, tensor_type: 0, elems: d.n_embd as int }
    } else if k == 26 {
        Sketch {
            name: "ffn_gate_tid2eid.weight"@,
            tensor_type: 22,
            elems: d.n_vocab * d.n_expert_used,
        }
    } else if k == 27 {
        Sketch { name: "ffn_gate_inp.weight"@, tensor_type: 1, elems: d.n_expert * d.n_embd }
    } else if k == 28 {
        Sketch { name: "ffn_exp_probs_b.weight"@, tensor_type: 0, elems: d.n_head * d.n_head_dim }
    } else if k == 29 {
        Sketch {
            name: "ffn_gate_exps.weight"@,
            tensor_type: 1,
            elems: d.n_expert * d.n_ff_exp * d.n_embd,
        }
    } else if k == 30 {
        Sketch {
            name: "ffn_up_exps.weight"@,
            tensor_type: 1,
            elems: d.n_expert * d.n_ff_exp * d.n_embd,
        }
    } else if k == 31 {
        Sketch {
            name: "ffn_down_exps.weight"@,
            tensor_type: 1,
            elems: d.n_embd * d.n_expert * d.n_ff_exp,
        }
    } else if k == 32 {
        Sketch { name: "ffn_gate_shexp.weight"@, tensor_type: 1, elems: d.n_ff_exp * d.n_embd }
    } else if k == 33 {
        Sketch { name: "ffn_up_shexp.weight"@, tensor_type: 1, elems: d.n_ff_exp * d.n_embd }
    } else {
        Sketch { name: "ffn_down_shexp.weight"@, tensor_type: 1, elems: d.n_embd * d.n_ff_exp }
    }
}

/// The bytes of an element.
pub open spec fn width_of(tensor_type: u32) -> nat {
    if tensor_type == 0 || tensor_type == 22 {
        4
    } else {
        2
    }
}

/// The sizes are small enough that every buffer, and every product on the way to its length, can be
/// counted.
pub open spec fn buildable(d: Dims) -> bool {
    &&& d.n_out_group > 0
    &&& 2 * d.n_hc + d.n_hc * d.n_hc <= usize::MAX
    &&& d.n_hc * d.n_embd <= usize::MAX
    &&& d.n_head * d.n_head_dim <= usize::MAX
    &&& d.n_out_group * d.n_lora_o <= usize::MAX
    &&& d.n_head as int / d.n_out_group as int * d.n_head_dim <= usize::MAX
    &&& d.n_head * d.n_indexer_head <= usize::MAX
    &&& d.n_head * d.n_indexer_head * d.n_head_dim <= usize::MAX
    &&& d.n_indexer_head * d.n_indexer_head_dim <= usize::MAX
    &&& d.n_expert * d.n_ff_exp <= usize::MAX
    &&& d.n_embd * d.n_expert <= usize::MAX
    &&& forall|k: int|
        0 <= k < GLOBAL_TENSORS ==> (#[trigger] global_sketch(d, k)).elems * width_of(
            global_sketch(d, k).tensor_type,
        ) <= usize::MAX
    &&& forall|k: int|
        0 <= k < LAYER_TENSORS ==> (#[trigger] layer_sketch(d, k)).elems * width_of(
            layer_sketch(d, k).tensor_type,
        ) <= usize::MAX
}

proof fn lemma_bounded(a: int, b: int, top_a: int, top_b: int)
    by (nonlinear_arith)
    requires
        0 <= a <= top_a,
        0 <= b <= top_b,
    ensures
        0 <= a * b <= top_a * top_b,
{
}

/// No size but that of the vocabulary is above 128, and the vocabulary has no more than a million
/// tokens.
pub open spec fn small(d: Dims) -> bool {
    &&& d.n_vocab <= 1_000_000
    &&& d.n_embd <= 128
    &&& d.n_head <= 128
    &&& d.n_head_dim <= 128
    &&& d.n_out_group <= 128
    &&& d.n_lora_q <= 128
    &&& d.n_lora_o <= 128
    &&& d.n_expert <= 128
    &&& d.n_expert_used <= 128
    &&& d.n_ff_exp <= 128
    &&& d.n_indexer_head <= 128
    &&& d.n_indexer_head_dim <= 128
    &&& d.n_hc <= 128
}

/// A small model can be built.
pub proof fn law_small_is_buildable(d: Dims)
    requires
        d.n_out_group > 0,
        small(d),
    ensures
        buildable(d),
{
    let heads = d.n_head as int / d.n_out_group as int;
    assert(0 <= heads <= d.n_head) by (nonlinear_arith)
        requires
            d.n_out_group > 0,
            heads == d.n_head as int / d.n_out_group as int,
    ;
    let mix = 2 * d.n_hc + d.n_hc * d.n_hc;
    lemma_bounded(d.n_hc as int, d.n_hc as int, 128, 128);
    lemma_bounded(d.n_hc as int, d.n_embd as int, 128, 128);
    lemma_bounded(mix, d.n_hc * d.n_embd, 16640, 16384);
    lemma_bounded(d.n_vocab as int, d.n_embd as int, 1_000_000, 128);
    lemma_bounded(d.n_vocab as int, d.n_expert_used as int, 1_000_000, 128);
    lemma_bounded(d.n_lora_q as int, d.n_embd as int, 128, 128);
    lemma_bounded(d.n_head as int, d.n_head_dim as int, 128, 128);
    lemma_bounded(d.n_head * d.n_head_dim, d.n_lora_q as int, 16384, 128);
    lemma_bounded(d.n_head * d.n_head_dim, d.n_embd as int, 16384, 128);
    lemma_bounded(d.n_head_dim as int, d.n_embd as int, 128, 128);
    lemma_bounded(d.n_out_group as int, d.n_lora_o as int, 128, 128);
    lemma_bounded(heads, d.n_head_dim as int, 128, 128);
    lemma_bounded(d.n_out_group * d.n_lora_o, heads * d.n_head_dim, 16384, 16384);
    lemma_bounded(d.n_embd as int, d.n_out_group * d.n_lora_o, 128, 16384);
    lemma_bounded(d.n_indexer_head as int, d.n_indexer_head_dim as int, 128, 128);
    lemma_bounded(d.n_indexer_head * d.n_indexer_head_dim, d.n_embd as int, 16384, 128);
    lemma_bounded(d.n_head as int, d.n_indexer_head as int, 128, 128);
    lemma_bounded(d.n_head * d.n_indexer_head, d.n_head_dim as int, 16384, 128);
    lemma_bounded(
        d.n_head * d.n_indexer_head * d.n_head_dim,
        d.n_indexer_head_dim as int,
        2_097_152,
        128,
    );
    lemma_bounded(d.n_expert as int, d.n_embd as int, 128, 128);
    lemma_bounded(d.n_embd as int, d.n_expert as int, 128, 128);
    lemma_bounded(d.n_expert as int, d.n_ff_exp as int, 128, 128);
    lemma_bounded(d.n_expert * d.n_ff_exp, d.n_embd as int, 16384, 128);
    lemma_bounded(d.n_embd * d.n_expert, d.n_ff_exp as int, 16384, 128);
    lemma_bounded(d.n_ff_exp as int, d.n_embd as int, 128, 128);
    lemma_bounded(d.n_embd as int, d.n_ff_exp as int, 128, 128);
    assert forall|k: int| 0 <= k < GLOBAL_TENSORS implies 0 <= (#[trigger] global_sketch(d, k)).elems
        <= 300_000_000 by {}
    assert forall|k: int| 0 <= k < LAYER_TENSORS implies 0 <= (#[trigger] layer_sketch(d, k)).elems
        <= 300_000_000 by {}
    assert forall|k: int| 0 <= k < GLOBAL_TENSORS implies (#[trigger] global_sketch(d, k)).elems
        * width_of(global_sketch(d, k).tensor_type) <= usize::MAX by {
        lemma_bounded(
            global_sketch(d, k).elems,
            width_of(global_sketch(d, k).tensor_type) as int,
            300_000_000,
            4,
        );
    }
    assert forall|k: int| 0 <= k < LAYER_TENSORS implies (#[trigger] layer_sketch(d, k)).elems
        * width_of(layer_sketch(d, k).tensor_type) <= usize::MAX by {
        lemma_bounded(
            layer_sketch(d, k).elems,
            width_of(layer_sketch(d, k).tensor_type) as int,
            300_000_000,
            4,
        );
    }
}

/// `n` copies of a unit.
pub open spec fn repeated(unit: Seq<u8>, n: nat) -> Seq<u8>
    decreases n,
{
    if n == 0 {
        seq![]
    } else {
        repeated(unit, (n - 1) as nat) + unit
    }
}

pub(crate) proof fn lemma_repeated_len(unit: Seq<u8>, n: nat)
    ensures
        repeated(unit, n).len() == n * unit.len(),
    decreases n,
{
    if n > 0 {
        lemma_repeated_len(unit, (n - 1) as nat);
        assert(((n - 1) as nat) * unit.len() + unit.len() == n * unit.len()) by (nonlinear_arith)
            requires
                n > 0,
        ;
    } else {
        assert(n * unit.len() == 0) by (nonlinear_arith)
            requires
                n == 0,
        ;
    }
}

fn alloc_buf(elems: usize, fill: u64, width: usize) -> (r: Vec<u8>)
    ensures
        r@ == repeated(le_bytes(fill as nat, width as nat), elems as nat),
{
    let mut buf: Vec<u8> = Vec::new();
    let mut i: usize = 0;
    while i < elems
        invariant
            i <= elems,
            buf@ =~= repeated(le_bytes(fill as nat, width as nat), i as nat),
        decreases elems - i,
    {
        push_le(&mut buf, fill, width);
        i = i + 1;
    }
    buf
}

/// A buffer of halves, all the same.
pub fn alloc_f16_buf(elems: usize, fill: u16) -> (r: Vec<u8>)
    ensures
        r@ == repeated(le_bytes(fill as nat, 2), elems as nat),
{
    alloc_buf(elems, fill as u64, 2)
}

/// A buffer of 32-bit floats, all the same, from their bit pattern.
pub fn alloc_f32_buf(elems: usize, fill: u32) -> (r: Vec<u8>)
    ensures
        r@ == repeated(le_bytes(fill as nat, 4), elems as nat),
{
    alloc_buf(elems, fill as u64, 4)
}

/// A buffer of 32-bit integers, all zero.
pub fn alloc_i32_zero_buf(elems: usize) -> (r: Vec<u8>)
    ensures
        r@ == repeated(le_bytes(0, 4), elems as nat),
{
    alloc_buf(elems, 0, 4)
}

/// Make a tensor that owns its bytes. Its element count follows from the width of its type, and its
/// one dimension is that count.
pub fn mk_tensor(buf: Vec<u8>, name: String, tensor_type: u32) -> (t: Tensor<'static>)
    ensures
        t.name == name,
        t.tensor_type == tensor_type,
        t.data == TensorData::Owned(buf),
        t.bytes == buf@.len(),
        t.elements == buf@.len() / width_of(tensor_type),
        t.dims@ == seq![t.elements],
{
    let bytes: u64 = buf.len() as u64;
    let per: u64 = if tensor_type == 0 || tensor_type == 22 {
        4
    } else {
        2
    };
    let elements: u64 = bytes / per;
    let mut dims: Vec<u64> = Vec::new();
    dims.push(elements);
    assert(dims@ =~= seq![elements]);
    Tensor { name, tensor_type, data: TensorData::Owned(buf), elements, bytes, dims }
}

/// The bytes of a tensor of the made-up model: floats hold the fill value, in their precision, and
/// integers hold zero.
pub open spec fn sketch_bytes(s: Sketch, fill: u32) -> Seq<u8> {
    if s.tensor_type == 0 {
        repeated(le_bytes(fill as nat, 4), s.elems as nat)
    } else if s.tensor_type == 22 {
        repeated(le_bytes(0, 4), s.elems as nat)
    } else {
        repeated(le_bytes(narrowed(fill) as nat, 2), s.elems as nat)
    }
}

/// `t` is the tensor of the sketch.
pub open spec fn drawn(s: Sketch, fill: u32, t: Tensor) -> bool {
    &&& t.name@ == s.name
    &&& t.tensor_type == s.tensor_type
    &&& t.data is Owned
    &&& t.content() == sketch_bytes(s, fill)
    &&& t.bytes == s.elems * width_of(s.tensor_type)
    &&& t.elements == s.elems
    &&& t.dims@ == seq![t.elements]
}

fn draw(name: String, tensor_type: u32, elems: usize, fill: u32) -> (t: Tensor<'static>)
    requires
        tensor_type == 0 || tensor_type == 1 || tensor_type == 22,
        elems * width_of(tensor_type) <= usize::MAX,
    ensures
        drawn(
            (Sketch { name: name@, tensor_type, elems: elems as int }),
            fill,
            t,
        ),
{
    let buf = if tensor_type == 0 {
        alloc_f32_buf(elems, fill)
    } else if tensor_type == 22 {
        alloc_i32_zero_buf(elems)
    } else {
        alloc_f16_buf(elems, f32_to_f16(fill))
    };
    proof {
        lemma_le_bytes_len(fill as nat, 4);
        lemma_le_bytes_len(0, 4);
        lemma_le_bytes_len(narrowed(fill) as nat, 2);
        lemma_repeated_len(le_bytes(fill as nat, 4), elems as nat);
        lemma_repeated_len(le_bytes(0, 4), elems as nat);
        lemma_repeated_len(le_bytes(narrowed(fill) as nat, 2), elems as nat);
    }
    mk_tensor(buf, name, tensor_type)
}

fn global_size(d: &Dims, k: usize) -> (r: (&'static str, u32, usize))
    requires
        buildable(*d),
        k < GLOBAL_TENSORS,
    ensures
        r.0@ == global_sketch(*d, k as int).name,
        r.1 == global_sketch(*d, k as int).tensor_type,
        r.2 == global_sketch(*d, k as int).elems,
{
    let n_vocab: usize = d.n_vocab as usize;
    let n_embd: usize = d.n_embd as usize;
    let n_hc: usize = d.n_hc as usize;
    assert(global_sketch(*d, k as int).elems * width_of(global_sketch(*d, k as int).tensor_type)
        <= usize::MAX);
    match k {
        0 => ("token_embd.weight", 1, n_vocab * n_embd),
        1 => ("output.hc_base", 0, (2 * n_hc + n_hc * n_hc)),
        2 => ("output.hc_fn.weight", 0, (2 * n_hc + n_hc * n_hc) * (n_hc * n_embd)),
        3 => ("output.hc_scale", 0, 3),
        4 => ("output.norm.weight", 0, n_embd),
        _ => ("output.weight", 1, n_vocab * n_embd),
    }
}

fn layer_size(d: &Dims, k: usize) -> (r: (&'static str, u32, usize))
    requires
        buildable(*d),
        k < LAYER_TENSORS,
    ensures
        r.0@ == layer_sketch(*d, k as int).name,
        r.1 == layer_sketch(*d, k as int).tensor_type,
        r.2 == layer_sketch(*d, k as int).elems,
{
    let n_hc: usize = d.n_hc as usize;
    let n_embd: usize = d.n_embd as usize;
    let n_lora_q: usize = d.n_lora_q as usize;
    let n_head: usize = d.n_head as usize;
    let n_head_dim: usize = d.n_head_dim as usize;
    let n_out_group: usize = d.n_out_group as usize;
    let n_lora_o: usize = d.n_lora_o as usize;
    let n_indexer_head: usize = d.n_indexer_head as usize;
    let n_indexer_head_dim: usize = d.n_indexer_head_dim as usize;
    let n_vocab: usize = d.n_vocab as usize;
    let n_expert_used: usize = d.n_expert_used as usize;
    let n_expert: usize = d.n_expert as usize;
    let n_ff_exp: usize = d.n_ff_exp as usize;
    assert(layer_sketch(*d, k as int).elems * width_of(layer_sketch(*d, k as int).tensor_type)
        <= usize::MAX);
    match k {
        0 => ("hc_attn_fn.weight", 0, (2 * n_hc + n_hc * n_hc) * (n_hc * n_embd)),
        1 => ("hc_attn_scale", 0, 3),
        2 => ("hc_attn_base", 0, (2 * n_hc + n_hc * n_hc)),
        3 => ("attn_norm.weight", 0, n_embd),
        4 => ("attn_q_a.weight", 1, n_lora_q * n_embd),
        5 => ("attn_q_a_norm.weight", 0, n_lora_q),
        6 => ("attn_q_b.weight", 1, (n_head * n_head_dim) * n_lora_q),
        7 => ("attn_kv.weight", 1, n_head_dim * n_embd),
        8 => ("attn_kv_a_norm.weight", 0, n_embd),
        9 => ("attn_sinks.weight", 1, n_head_dim),
        10 => ("attn_output_a.weight", 1, (n_out_group * n_lora_o) * (n_head / n_out_group * n_head_dim)),
        11 => ("attn_output_b.weight", 0, n_embd * (n_out_group * n_lora_o)),
        12 => ("attn_compressor_ape.weight", 0, n_head * n_head_dim),
        13 => ("attn_compressor_kv.weight", 1, n_head * n_head_dim * n_embd),
        14 => ("attn_compressor_gate.weight", 0, n_head * n_head_dim),
        15 => ("attn_compressor_norm.weight", 0, n_head * n_head_dim),
        16 => ("indexer.attn_q_b.weight", 1, n_indexer_head * n_indexer_head_dim * n_embd),
        17 => ("indexer.proj.weight", 1, n_head * n_indexer_head * n_head_dim * n_indexer_head_dim),
        18 => ("indexer_compressor_ape.weight", 0, n_indexer_head * n_indexer_head_dim),
        19 => ("indexer_compressor_kv.weight", 1, n_indexer_head * n_indexer_head_dim * n_embd),
        20 => ("indexer_compressor_gate.weight", 0, n_indexer_head * n_indexer_head_dim),
        21 => ("indexer_compressor_norm.weight", 0, n_indexer_head * n_indexer_head_dim),
        22 => ("hc_ffn_fn.weight", 0, (2 * n_hc + n_hc * n_hc) * (n_hc * n_embd)),
        23 => ("hc_ffn_scale.weight", 0, 3),
        24 => ("hc_ffn_base.weight", 0, (2 * n_hc + n_hc * n_hc)),
        25 => ("ffn_norm.weight", 0, n_embd),
        26 => ("ffn_gate_tid2eid.weight", 22, n_vocab * n_expert_used),
        27 => ("ffn_gate_inp.weight", 1, n_expert * n_embd),
        28 => ("ffn_exp_probs_b.weight", 0, n_head * n_head_dim),
        29 => ("ffn_gate_exps.weight", 1, n_expert * n_ff_exp * n_embd),
        30 => ("ffn_up_exps.weight", 1, n_expert * n_ff_exp * n_embd),
        31 => ("ffn_down_exps.weight", 1, n_embd * n_expert * n_ff_exp),
        32 => ("ffn_gate_shexp.weight", 1, n_ff_exp * n_embd),
        33 => ("ffn_up_shexp.weight", 1, n_ff_exp * n_embd),
        _ => ("ffn_down_shexp.weight", 1, n_embd * n_ff_exp),
    }
}

/// A model that owns its data.
pub struct OwnedModelWeights {
    pub weights: ModelWeights<'static>,
}

/// The weights are those of the sketches.
pub open spec fn model_drawn(d: Dims, fill: u32, w: ModelWeights) -> bool {
    &&& forall|k: int|
        0 <= k < GLOBAL_TENSORS ==> drawn(#[trigger] global_sketch(d, k), fill, w.globals()[k])
    &&& w.layers@.len() == d.n_layer
    &&& forall|il: int|
        0 <= il < d.n_layer ==> layer_drawn(d, fill, il as nat, #[trigger] w.layers@[il])
}

/// The tensors of a layer are those of the sketches.
pub open spec fn layer_drawn(d: Dims, fill: u32, il: nat, l: LayerWeights) -> bool {
    forall|k: int|
        0 <= k < LAYER_TENSORS ==> drawn(
            (Sketch {
                name: layer_prefix(il) + layer_sketch(d, k).name,
                ..#[trigger] layer_sketch(d, k)
            }),
            fill,
            l.list()[k],
        )
}

/// Build a model with all weights set to 1.
pub fn build_test_model(d: &Dims) -> (r: OwnedModelWeights)
    requires
        buildable(*d),
    ensures
        model_drawn(*d, 0x3f80_0000, r.weights),
{
    build_test_model_with_value(d, 0x3f80_0000)
}

/// Build a model with all weights set to one value, given as the bit pattern of a 32-bit float.
pub fn build_test_model_with_value(d: &Dims, fill: u32) -> (r: OwnedModelWeights)
    requires
        buildable(*d),
    ensures
        model_drawn(*d, fill, r.weights),
{
    let mut globals: Vec<Tensor<'static>> = Vec::new();
    let mut k: usize = 0;
    while k < GLOBAL_TENSORS
        invariant
            k <= GLOBAL_TENSORS,
            buildable(*d),
            globals@.len() == k,
            forall|j: int|
                0 <= j < k ==> drawn(#[trigger] global_sketch(*d, j), fill, globals@[j]),
        decreases GLOBAL_TENSORS - k,
    {
        let (name, tensor_type, elems) = global_size(d, k);
        let ghost s = global_sketch(*d, k as int);
        assert(s.elems * width_of(s.tensor_type) <= usize::MAX);
        let t = draw(name.to_owned(), tensor_type, elems, fill);
        globals.push(t);
        k = k + 1;
    }
    let mut layers: Vec<LayerWeights<'static>> = Vec::new();
    let mut il: u32 = 0;
    while il < d.n_layer
        invariant
            il <= d.n_layer,
            buildable(*d),
            layers@.len() == il,
            forall|i: int|
                0 <= i < il ==> layer_drawn(*d, fill, i as nat, #[trigger] layers@[i]),
        decreases d.n_layer - il,
    {
        let l = build_layer(d, fill, il);
        layers.push(l);
        il = il + 1;
    }
    OwnedModelWeights { weights: ModelWeights::from_list(globals, layers) }
}

fn build_layer(d: &Dims, fill: u32, il: u32) -> (r: LayerWeights<'static>)
    requires
        buildable(*d),
    ensures
        layer_drawn(*d, fill, il as nat, r),
{
    let mut list: Vec<Tensor<'static>> = Vec::new();
    let mut k: usize = 0;
    while k < LAYER_TENSORS
        invariant
            k <= LAYER_TENSORS,
            buildable(*d),
            list@.len() == k,
            forall|j: int|
                0 <= j < k ==> drawn(
                    (Sketch {
                        name: layer_prefix(il as nat) + layer_sketch(*d, j).name,
                        ..#[trigger] layer_sketch(*d, j)
                    }),
                    fill,
                    list@[j],
                ),
        decreases LAYER_TENSORS - k,
    {
        let (suffix, tensor_type, elems) = layer_size(d, k);
        let ghost s = layer_sketch(*d, k as int);
        assert(s.elems * width_of(s.tensor_type) <= usize::MAX);
        let mut name = "blk.".to_owned();
        push_decimal(&mut name, il as u64);
        name.append(".");
        name.append(suffix);
        let t = draw(name, tensor_type, elems, fill);
        list.push(t);
        k = k + 1;
    }
    LayerWeights::from_list(list)
}

} // verus!

//! What the sample models promise: of each field of a built model and of each tensor of a written
//! file, its name, type and size, and what numbers it holds.
use crate::Dims;
use crate::bytes::{law_le_round_trip, le_bytes, lemma_byte_range, lemma_le_bytes_len};
use crate::gguf::ValueView;
use crate::gguf_writer::TensorEntry;
use crate::half::narrowed;
use crate::model::{numbers, LayerWeights, ModelWeights, Tensor, LAYER_TENSORS};
use crate::model_laws::in_layer;
use crate::sample_file::{
    file_pairs, file_token, file_tensors, file_tokens, layer_tensors,
};
use crate::sample_model::{
    drawn, global_sketch, layer_drawn, layer_sketch, model_drawn, repeated, sketch_bytes, Sketch,
};
use crate::text::decimal;
use vstd::prelude::*;

verus! {

/// A built tensor has a name, a type and as many elements as said, and its bytes go with these.
pub open spec fn built_as(t: Tensor, name: Seq<char>, tensor_type: u32, elements: int) -> bool {
    &&& t.name@ == name
    &&& t.tensor_type == tensor_type
    &&& t.elements == elements
    &&& t.dims@ == seq![t.elements]
    &&& t.content().len() == t.bytes
    &&& t.bytes == elements * if tensor_type == 1 {
        2int
    } else {
        4
    }
}

proof fn lemma_built(s: Sketch, fill: u32, t: Tensor)
    requires
        drawn(s, fill, t),
        s.elems >= 0,
        s.tensor_type == 0 || s.tensor_type == 1 || s.tensor_type == 22,
    ensures
        built_as(t, s.name, s.tensor_type, s.elems),
{
    lemma_le_bytes_len(fill as nat, 4);
    lemma_le_bytes_len(0, 4);
    lemma_le_bytes_len(narrowed(fill) as nat, 2);
    lemma_repeated_len(le_bytes(fill as nat, 4), s.elems as nat);
    lemma_repeated_len(le_bytes(0, 4), s.elems as nat);
    lemma_repeated_len(le_bytes(narrowed(fill) as nat, 2), s.elems as nat);
}

proof fn lemma_repeated_len(unit: Seq<u8>, n: nat)
    ensures
        repeated(unit, n).len() == n * unit.len(),
    decreases n,
{
    let u = unit.len();
    if n > 0 {
        let m = (n - 1) as nat;
        lemma_repeated_len(unit, m);
        assert((m + 1) * u == m * u + u) by (nonlinear_arith);
    } else {
        assert(0 * u == 0) by (nonlinear_arith);
    }
}

/// Every field of a built model outside its layers has its own name, type and size.
pub proof fn law_built_globals(d: Dims, fill: u32, w: ModelWeights)
    requires
        model_drawn(d, fill, w),
    ensures
        w.layers@.len() == d.n_layer,
        built_as(w.token_embd, "token_embd.weight"@, 1, d.n_vocab * d.n_embd),
        built_as(w.output_hc_base, "output.hc_base"@, 0, (2 * d.n_hc + d.n_hc * d.n_hc)),
        built_as(
            w.output_hc_fn,
            "output.hc_fn.weight"@,
            0,
            (2 * d.n_hc + d.n_hc * d.n_hc) * (d.n_hc * d.n_embd),
        ),
        built_as(w.output_hc_scale, "output.hc_scale"@, 0, 3),
        built_as(w.output_norm, "output.norm.weight"@, 0, d.n_embd as int),
        built_as(w.output, "output.weight"@, 1, d.n_vocab * d.n_embd),
{
    let g = w.globals();
    assert(drawn(global_sketch(d, 0), fill, g[0]) && g[0] == w.token_embd);
    assert(drawn(global_sketch(d, 1), fill, g[1]) && g[1] == w.output_hc_base);
    assert(drawn(global_sketch(d, 2), fill, g[2]) && g[2] == w.output_hc_fn);
    assert(drawn(global_sketch(d, 3), fill, g[3]) && g[3] == w.output_hc_scale);
    assert(drawn(global_sketch(d, 4), fill, g[4]) && g[4] == w.output_norm);
    assert(drawn(global_sketch(d, 5), fill, g[5]) && g[5] == w.output);
    assert forall|k: int| 0 <= k < 6 implies (#[trigger] global_sketch(d, k)).elems >= 0 by {
        lemma_global_elems(d, k);
    }
    lemma_built(global_sketch(d, 0), fill, w.token_embd);
    lemma_built(global_sketch(d, 1), fill, w.output_hc_base);
    lemma_built(global_sketch(d, 2), fill, w.output_hc_fn);
    lemma_built(global_sketch(d, 3), fill, w.output_hc_scale);
    lemma_built(global_sketch(d, 4), fill, w.output_norm);
    lemma_built(global_sketch(d, 5), fill, w.output);
}

/// A product of sizes is no less than nothing.
proof fn lemma_sizes(a: int, b: int)
    requires
        a >= 0,
        b >= 0,
    ensures
        a * b >= 0,
{
    assert(a * b >= 0) by (nonlinear_arith)
        requires
            a >= 0,
            b >= 0,
    ;
}

proof fn lemma_global_elems(d: Dims, k: int)
    ensures
        global_sketch(d, k).elems >= 0,
{
    lemma_sizes(d.n_vocab as int, d.n_embd as int);
    lemma_sizes(d.n_hc as int, d.n_hc as int);
    lemma_sizes(d.n_hc as int, d.n_embd as int);
    lemma_sizes(2 * d.n_hc + d.n_hc * d.n_hc, d.n_hc * d.n_embd);
}

proof fn lemma_layer_elems(d: Dims, k: int)
    requires
        d.n_out_group > 0,
    ensures
        layer_sketch(d, k).elems >= 0,
{
    lemma_sizes(d.n_hc as int, d.n_hc as int);
    lemma_sizes(d.n_hc as int, d.n_embd as int);
    lemma_sizes(2 * d.n_hc + d.n_hc * d.n_hc, d.n_hc * d.n_embd);
    lemma_sizes(d.n_lora_q as int, d.n_embd as int);
    lemma_sizes(d.n_head as int, d.n_head_dim as int);
    lemma_sizes(d.n_head * d.n_head_dim, d.n_lora_q as int);
    lemma_sizes(d.n_head * d.n_head_dim, d.n_embd as int);
    lemma_sizes(d.n_head_dim as int, d.n_embd as int);
    lemma_sizes(d.n_out_group as int, d.n_lora_o as int);
    lemma_sizes(d.n_head as int / d.n_out_group as int, d.n_head_dim as int);
    lemma_sizes(
        d.n_out_group * d.n_lora_o,
        d.n_head as int / d.n_out_group as int * d.n_head_dim,
    );
    lemma_sizes(d.n_embd as int, d.n_out_group * d.n_lora_o);
    lemma_sizes(d.n_indexer_head as int, d.n_indexer_head_dim as int);
    lemma_sizes(d.n_indexer_head * d.n_indexer_head_dim, d.n_embd as int);
    lemma_sizes(d.n_head as int, d.n_indexer_head as int);
    lemma_sizes(d.n_head * d.n_indexer_head, d.n_head_dim as int);
    lemma_sizes(d.n_head * d.n_indexer_head * d.n_head_dim, d.n_indexer_head_dim as int);
    lemma_sizes(d.n_vocab as int, d.n_expert_used as int);
    lemma_sizes(d.n_expert as int, d.n_embd as int);
    lemma_sizes(d.n_expert as int, d.n_ff_exp as int);
    lemma_sizes(d.n_expert * d.n_ff_exp, d.n_embd as int);
    lemma_sizes(d.n_embd as int, d.n_expert as int);
    lemma_sizes(d.n_embd * d.n_expert, d.n_ff_exp as int);
    lemma_sizes(d.n_ff_exp as int, d.n_embd as int);
    lemma_sizes(d.n_embd as int, d.n_ff_exp as int);
}

/// Every field of every layer of a built model has its own name, type and size.
pub proof fn law_built_layer(d: Dims, fill: u32, w: ModelWeights, il: int)
    requires
        model_drawn(d, fill, w),
        d.n_out_group > 0,
        0 <= il < d.n_layer,
    ensures
        built_as(
            w.layers@[il].hc_attn_fn,
            in_layer(il, "hc_attn_fn.weight"@),
            0,
            (2 * d.n_hc + d.n_hc * d.n_hc) * (d.n_hc * d.n_embd),
        ),
        built_as(w.layers@[il].hc_attn_scale, in_layer(il, "hc_attn_scale"@), 0, 3),
        built_as(
            w.layers@[il].hc_attn_base,
            in_layer(il, "hc_attn_base"@),
            0,
            (2 * d.n_hc + d.n_hc * d.n_hc),
        ),
        built_as(w.layers@[il].attn_norm, in_layer(il, "attn_norm.weight"@), 0, d.n_embd as int),
        built_as(
            w.layers@[il].attn_q_a,
            in_layer(il, "attn_q_a.weight"@),
            1,
            d.n_lora_q * d.n_embd,
        ),
        built_as(
            w.layers@[il].attn_q_a_norm,
            in_layer(il, "attn_q_a_norm.weight"@),
            0,
            d.n_lora_q as int,
        ),
        built_as(
            w.layers@[il].attn_q_b,
            in_layer(il, "attn_q_b.weight"@),
            1,
            (d.n_head * d.n_head_dim) * d.n_lora_q,
        ),
        built_as(
            w.layers@[il].attn_kv,
            in_layer(il, "attn_kv.weight"@),
            1,
            d.n_head_dim * d.n_embd,
        ),
        built_as(
            w.layers@[il].attn_kv_a_norm,
            in_layer(il, "attn_kv_a_norm.weight"@),
            0,
            d.n_embd as int,
        ),
        built_as(
            w.layers@[il].attn_sinks,
            in_layer(il, "attn_sinks.weight"@),
            1,
            d.n_head_dim as int,
        ),
        built_as(
            w.layers@[il].attn_output_a,
            in_layer(il, "attn_output_a.weight"@),
            1,
            (d.n_out_group * d.n_lora_o) * (d.n_head as int / d.n_out_group as int * d.n_head_dim),
        ),
        built_as(
            w.layers@[il].attn_output_b,
            in_layer(il, "attn_output_b.weight"@),
            0,
            d.n_embd * (d.n_out_group * d.n_lora_o),
        ),
        built_as(
            w.layers@[il].attn_compressor_ape,
            in_layer(il, "attn_compressor_ape.weight"@),
            0,
            d.n_head * d.n_head_dim,
        ),
        built_as(
            w.layers@[il].attn_compressor_kv,
            in_layer(il, "attn_compressor_kv.weight"@),
            1,
            d.n_head * d.n_head_dim * d.n_embd,
        ),
        built_as(
            w.layers@[il].attn_compressor_gate,
            in_layer(il, "attn_compressor_gate.weight"@),
            0,
            d.n_head * d.n_head_dim,
        ),
        built_as(
            w.layers@[il].attn_compressor_norm,
            in_layer(il, "attn_compressor_norm.weight"@),
            0,
            d.n_head * d.n_head_dim,
        ),
        built_as(
            w.layers@[il].indexer_attn_q_b,
            in_layer(il, "indexer.attn_q_b.weight"@),
            1,
            d.n_indexer_head * d.n_indexer_head_dim * d.n_embd,
        ),
        built_as(
            w.layers@[il].indexer_proj,
            in_layer(il, "indexer.proj.weight"@),
            1,
            d.n_head * d.n_indexer_head * d.n_head_dim * d.n_indexer_head_dim,
        ),
        built_as(
            w.layers@[il].indexer_compressor_ape,
            in_layer(il, "indexer_compressor_ape.weight"@),
            0,
            d.n_indexer_head * d.n_indexer_head_dim,
        ),
        built_as(
            w.layers@[il].indexer_compressor_kv,
            in_layer(il, "indexer_compressor_kv.weight"@),
            1,
            d.n_indexer_head * d.n_indexer_head_dim * d.n_embd,
        ),
        built_as(
            w.layers@[il].indexer_compressor_gate,
            in_layer(il, "indexer_compressor_gate.weight"@),
            0,
            d.n_indexer_head * d.n_indexer_head_dim,
        ),
        built_as(
            w.layers@[il].indexer_compressor_norm,
            in_layer(il, "indexer_compressor_norm.weight"@),
            0,
            d.n_indexer_head * d.n_indexer_head_dim,
        ),
        built_as(
            w.layers@[il].hc_ffn_fn,
            in_layer(il, "hc_ffn_fn.weight"@),
            0,
            (2 * d.n_hc + d.n_hc * d.n_hc) * (d.n_hc * d.n_embd),
        ),
        built_as(w.layers@[il].hc_ffn_scale, in_layer(il, "hc_ffn_scale.weight"@), 0, 3),
        built_as(
            w.layers@[il].hc_ffn_base,
            in_layer(il, "hc_ffn_base.weight"@),
            0,
            (2 * d.n_hc + d.n_hc * d.n_hc),
        ),
        built_as(w.layers@[il].ffn_norm, in_layer(il, "ffn_norm.weight"@), 0, d.n_embd as int),
        built_as(
            w.layers@[il].ffn_gate_tid2eid,
            in_layer(il, "ffn_gate_tid2eid.weight"@),
            22,
            d.n_vocab * d.n_expert_used,
        ),
        built_as(
            w.layers@[il].ffn_gate_inp,
            in_layer(il, "ffn_gate_inp.weight"@),
            1,
            d.n_expert * d.n_embd,
        ),
        built_as(
            w.layers@[il].ffn_exp_probs_b,
            in_layer(il, "ffn_exp_probs_b.weight"@),
            0,
            d.n_head * d.n_head_dim,
        ),
        built_as(
            w.layers@[il].ffn_gate_exps,
            in_layer(il, "ffn_gate_exps.weight"@),
            1,
            d.n_expert * d.n_ff_exp * d.n_embd,
        ),
        built_as(
            w.layers@[il].ffn_up_exps,
            in_layer(il, "ffn_up_exps.weight"@),
            1,
            d.n_expert * d.n_ff_exp * d.n_embd,
        ),
        built_as(
            w.layers@[il].ffn_down_exps,
            in_layer(il, "ffn_down_exps.weight"@),
            1,
            d.n_embd * d.n_expert * d.n_ff_exp,
        ),
        built_as(
            w.layers@[il].ffn_gate_shexp,
            in_layer(il, "ffn_gate_shexp.weight"@),
            1,
            d.n_ff_exp * d.n_embd,
        ),
        built_as(
            w.layers@[il].ffn_up_shexp,
            in_layer(il, "ffn_up_shexp.weight"@),
            1,
            d.n_ff_exp * d.n_embd,
        ),
        built_as(
            w.layers@[il].ffn_down_shexp,
            in_layer(il, "ffn_down_shexp.weight"@),
            1,
            d.n_embd * d.n_ff_exp,
        ),
{
    let l = w.layers@[il];
    assert(layer_drawn(d, fill, il as nat, l));
    let s = l.list();
    assert forall|k: int| 0 <= k < LAYER_TENSORS implies built_as(
        s[k],
        in_layer(il, (#[trigger] layer_sketch(d, k)).name),
        layer_sketch(d, k).tensor_type,
        layer_sketch(d, k).elems,
    ) by {
        lemma_layer_elems(d, k);
        let o = layer_sketch(d, k);
        lemma_built(Sketch { name: in_layer(il, o.name), ..o }, fill, s[k]);
    }
    lemma_layer_fields(l);
    assert(layer_sketch(d, 0).name == "hc_attn_fn.weight"@);
    assert(layer_sketch(d, 1).name == "hc_attn_scale"@);
    assert(layer_sketch(d, 2).name == "hc_attn_base"@);
    assert(layer_sketch(d, 3).name == "attn_norm.weight"@);
    assert(layer_sketch(d, 4).name == "attn_q_a.weight"@);
    assert(layer_sketch(d, 5).name == "attn_q_a_norm.weight"@);
    assert(layer_sketch(d, 6).name == "attn_q_b.weight"@);
    assert(layer_sketch(d, 7).name == "attn_kv.weight"@);
    assert(layer_sketch(d, 8).name == "attn_kv_a_norm.weight"@);
    assert(layer_sketch(d, 9).name == "attn_sinks.weight"@);
    assert(layer_sketch(d, 10).name == "attn_output_a.weight"@);
    assert(layer_sketch(d, 11).name == "attn_output_b.weight"@);
    assert(layer_sketch(d, 12).name == "attn_compressor_ape.weight"@);
    assert(layer_sketch(d, 13).name == "attn_compressor_kv.weight"@);
    assert(layer_sketch(d, 14).name == "attn_compressor_gate.weight"@);
    assert(layer_sketch(d, 15).name == "attn_compressor_norm.weight"@);
    assert(layer_sketch(d, 16).name == "indexer.attn_q_b.weight"@);
    assert(layer_sketch(d, 17).name == "indexer.proj.weight"@);
    assert(layer_sketch(d, 18).name == "indexer_compressor_ape.weight"@);
    assert(layer_sketch(d, 19).name == "indexer_compressor_kv.weight"@);
    assert(layer_sketch(d, 20).name == "indexer_compressor_gate.weight"@);
    assert(layer_sketch(d, 21).name == "indexer_compressor_norm.weight"@);
    assert(layer_sketch(d, 22).name == "hc_ffn_fn.weight"@);
    assert(layer_sketch(d, 23).name == "hc_ffn_scale.weight"@);
    assert(layer_sketch(d, 24).name == "hc_ffn_base.weight"@);
    assert(layer_sketch(d, 25).name == "ffn_norm.weight"@);
    assert(layer_sketch(d, 26).name == "ffn_gate_tid2eid.weight"@);
    assert(layer_sketch(d, 27).name == "ffn_gate_inp.weight"@);
    assert(layer_sketch(d, 28).name == "ffn_exp_probs_b.weight"@);
    assert(layer_sketch(d, 29).name == "ffn_gate_exps.weight"@);
    assert(layer_sketch(d, 30).name == "ffn_up_exps.weight"@);
    assert(layer_sketch(d, 31).name == "ffn_down_exps.weight"@);
    assert(layer_sketch(d, 32).name == "ffn_gate_shexp.weight"@);
    assert(layer_sketch(d, 33).name == "ffn_up_shexp.weight"@);
    assert(layer_sketch(d, 34).name == "ffn_down_shexp.weight"@);
}

/// Where each field stands among the tensors of a layer.
proof fn lemma_layer_fields(l: LayerWeights)
    ensures
        l.list()[0] == l.hc_attn_fn,
        l.list()[1] == l.hc_attn_scale,
        l.list()[2] == l.hc_attn_base,
        l.list()[3] == l.attn_norm,
        l.list()[4] == l.attn_q_a,
        l.list()[5] == l.attn_q_a_norm,
        l.list()[6] == l.attn_q_b,
        l.list()[7] == l.attn_kv,
        l.list()[8] == l.attn_kv_a_norm,
        l.list()[9] == l.attn_sinks,
        l.list()[10] == l.attn_output_a,
        l.list()[11] == l.attn_output_b,
        l.list()[12] == l.attn_compressor_ape,
        l.list()[13] == l.attn_compressor_kv,
        l.list()[14] == l.attn_compressor_gate,
        l.list()[15] == l.attn_compressor_norm,
        l.list()[16] == l.indexer_attn_q_b,
        l.list()[17] == l.indexer_proj,
        l.list()[18] == l.indexer_compressor_ape,
        l.list()[19] == l.indexer_compressor_kv,
        l.list()[20] == l.indexer_compressor_gate,
        l.list()[21] == l.indexer_compressor_norm,
        l.list()[22] == l.hc_ffn_fn,
        l.list()[23] == l.hc_ffn_scale,
        l.list()[24] == l.hc_ffn_base,
        l.list()[25] == l.ffn_norm,
        l.list()[26] == l.ffn_gate_tid2eid,
        l.list()[27] == l.ffn_gate_inp,
        l.list()[28] == l.ffn_exp_probs_b,
        l.list()[29] == l.ffn_gate_exps,
        l.list()[30] == l.ffn_up_exps,
        l.list()[31] == l.ffn_down_exps,
        l.list()[32] == l.ffn_gate_shexp,
        l.list()[33] == l.ffn_up_shexp,
        l.list()[34] == l.ffn_down_shexp,
{
}

/// Byte `k` of a repeated unit.
proof fn lemma_repeated_at(unit: Seq<u8>, n: nat, i: int, j: int)
    requires
        0 <= i < n,
        0 <= j < unit.len(),
    ensures
        repeated(unit, n).len() == n * unit.len(),
        i * unit.len() + j < repeated(unit, n).len(),
        repeated(unit, n)[i * unit.len() + j] == unit[j],
    decreases n,
{
    lemma_repeated_len(unit, n);
    let m = (n - 1) as nat;
    lemma_repeated_len(unit, m);
    let u = unit.len() as int;
    assert((m + 1) * u == m * u + u) by (nonlinear_arith);
    if i < m {
        lemma_repeated_at(unit, m, i, j);
    } else {
        assert(i * u == m * u);
    }
}

/// The numbers of a built tensor: the fill, in single or half precision, or zero in a table of
/// numbers.
pub proof fn law_built_numbers(s: Sketch, fill: u32, i: int)
    requires
        s.tensor_type == 0 || s.tensor_type == 1 || s.tensor_type == 22,
        0 <= i < s.elems,
    ensures
        s.tensor_type == 0 ==> numbers(sketch_bytes(s, fill), 4).len() == s.elems && numbers(
            sketch_bytes(s, fill),
            4,
        )[i] == fill,
        s.tensor_type == 22 ==> numbers(sketch_bytes(s, fill), 4).len() == s.elems && numbers(
            sketch_bytes(s, fill),
            4,
        )[i] == 0,
        s.tensor_type == 1 ==> numbers(sketch_bytes(s, fill), 2).len() == s.elems && numbers(
            sketch_bytes(s, fill),
            2,
        )[i] == narrowed(fill),
{
    let n = s.elems as nat;
    let b = sketch_bytes(s, fill);
    lemma_byte_range();
    if s.tensor_type == 1 {
        let u = le_bytes(narrowed(fill) as nat, 2);
        law_le_round_trip(narrowed(fill) as nat, 2);
        lemma_repeated_len(u, n);
        assert forall|j: int| 0 <= j < 2 implies b[i * 2 + j] == u[j] by {
            lemma_repeated_at(u, n, i, j);
        }
        assert(i * 2 + 2 <= n * 2);
        assert(b.subrange(i * 2, i * 2 + 2) =~= u);
    } else {
        let v: nat = if s.tensor_type == 0 {
            fill as nat
        } else {
            0
        };
        let u = le_bytes(v, 4);
        law_le_round_trip(v, 4);
        lemma_repeated_len(u, n);
        assert forall|j: int| 0 <= j < 4 implies b[i * 4 + j] == u[j] by {
            lemma_repeated_at(u, n, i, j);
        }
        assert(i * 4 + 4 <= n * 4);
        assert(b.subrange(i * 4, i * 4 + 4) =~= u);
    }
}

/// A tensor of a written file has a name, a type and one or two sizes.
pub open spec fn written_as(
    t: TensorEntry,
    name: Seq<char>,
    tensor_type: u32,
    inner: int,
    outer: Option<int>,
) -> bool {
    &&& t.name == name
    &&& t.tensor_type == tensor_type
    &&& t.dims.len() == if outer is Some {
        2nat
    } else {
        1
    }
    &&& t.dims[0] == inner as u64
    &&& outer matches Some(n) ==> t.dims[1] == n as u64
}

/// The tensors of a sample file outside its layers come first, each with its own name, type and
/// sizes.
pub proof fn law_written_globals(d: Dims)
    ensures
        file_tensors(d, 0).len() == 6,
        written_as(
            file_tensors(d, 0)[0],
            "token_embd.weight"@,
            1,
            d.n_vocab as int,
            Some(d.n_embd as int),
        ),
        written_as(file_tensors(d, 0)[1], "output_hc_base.weight"@, 0, d.n_hc as int, None),
        written_as(
            file_tensors(d, 0)[2],
            "output_hc_fn.weight"@,
            1,
            d.n_hc * d.n_embd,
            Some(d.n_hc as int),
        ),
        written_as(file_tensors(d, 0)[3], "output_hc_scale.weight"@, 0, 1, None),
        written_as(file_tensors(d, 0)[4], "output_norm.weight"@, 0, d.n_embd as int, None),
        written_as(
            file_tensors(d, 0)[5],
            "output.weight"@,
            8,
            d.n_embd as int,
            Some(d.n_vocab as int),
        ),
{
    assert(Seq::<char>::empty() + "token_embd.weight"@ =~= "token_embd.weight"@);
    assert(Seq::<char>::empty() + "output_hc_base.weight"@ =~= "output_hc_base.weight"@);
    assert(Seq::<char>::empty() + "output_hc_fn.weight"@ =~= "output_hc_fn.weight"@);
    assert(Seq::<char>::empty() + "output_hc_scale.weight"@ =~= "output_hc_scale.weight"@);
    assert(Seq::<char>::empty() + "output_norm.weight"@ =~= "output_norm.weight"@);
    assert(Seq::<char>::empty() + "output.weight"@ =~= "output.weight"@);
}

/// Then come the layers in order, and the tensors of each in order, each with its own name, type and
/// sizes.
pub proof fn law_written_layers(d: Dims, n: nat)
    ensures
        file_tensors(d, n + 1) == file_tensors(d, n) + layer_tensors(d, n),
        layer_tensors(d, n).len() == 35,
        written_as(
            layer_tensors(d, n)[0],
            in_layer(n as int, "hc_attn_fn.weight"@),
            1,
            d.n_hc * d.n_embd,
            Some(2 * d.n_hc + d.n_hc * d.n_hc),
        ),
        written_as(layer_tensors(d, n)[1], in_layer(n as int, "hc_attn_scale.weight"@), 0, 3, None),
        written_as(
            layer_tensors(d, n)[2],
            in_layer(n as int, "hc_attn_base.weight"@),
            0,
            2 * d.n_hc + d.n_hc * d.n_hc,
            None,
        ),
        written_as(
            layer_tensors(d, n)[3],
            in_layer(n as int, "attn_norm.weight"@),
            0,
            d.n_embd as int,
            None,
        ),
        written_as(
            layer_tensors(d, n)[4],
            in_layer(n as int, "attn_q_a.weight"@),
            8,
            d.n_embd as int,
            Some(d.n_lora_q as int),
        ),
        written_as(
            layer_tensors(d, n)[5],
            in_layer(n as int, "attn_q_a_norm.weight"@),
            0,
            d.n_lora_q as int,
            None,
        ),
        written_as(
            layer_tensors(d, n)[6],
            in_layer(n as int, "attn_q_b.weight"@),
            8,
            d.n_lora_q as int,
            Some(d.n_head * d.n_head_dim),
        ),
        written_as(
            layer_tensors(d, n)[7],
            in_layer(n as int, "attn_kv.weight"@),
            8,
            d.n_embd as int,
            Some(d.n_head_dim as int),
        ),
        written_as(
            layer_tensors(d, n)[8],
            in_layer(n as int, "attn_kv_a_norm.weight"@),
            0,
            d.n_head_dim as int,
            None,
        ),
        written_as(
            layer_tensors(d, n)[9],
            in_layer(n as int, "attn_sinks.weight"@),
            1,
            1,
            Some(d.n_head_dim as int),
        ),
        written_as(
            layer_tensors(d, n)[10],
            in_layer(n as int, "attn_output_a.weight"@),
            8,
            d.n_head as int / d.n_out_group as int * d.n_head_dim,
            Some(d.n_out_group * d.n_lora_o),
        ),
        written_as(
            layer_tensors(d, n)[11],
            in_layer(n as int, "attn_output_b.weight"@),
            8,
            d.n_out_group * d.n_lora_o,
            Some(d.n_embd as int),
        ),
        written_as(
            layer_tensors(d, n)[12],
            in_layer(n as int, "attn_compressor_ape.weight"@),
            0,
            d.n_head * d.n_head_dim,
            None,
        ),
        written_as(
            layer_tensors(d, n)[13],
            in_layer(n as int, "attn_compressor_kv.weight"@),
            1,
            d.n_head * d.n_head_dim,
            Some(d.n_embd as int),
        ),
        written_as(
            layer_tensors(d, n)[14],
            in_layer(n as int, "attn_compressor_gate.weight"@),
            0,
            d.n_head * d.n_head_dim,
            None,
        ),
        written_as(
            layer_tensors(d, n)[15],
            in_layer(n as int, "attn_compressor_norm.weight"@),
            0,
            d.n_head * d.n_head_dim,
            None,
        ),
        written_as(
            layer_tensors(d, n)[16],
            in_layer(n as int, "indexer.attn_q_b.weight"@),
            1,
            d.n_indexer_head * d.n_indexer_head_dim,
            Some(d.n_embd as int),
        ),
        written_as(
            layer_tensors(d, n)[17],
            in_layer(n as int, "indexer.proj.weight"@),
            1,
            d.n_head * d.n_indexer_head,
            Some(d.n_head_dim * d.n_indexer_head_dim),
        ),
        written_as(
            layer_tensors(d, n)[18],
            in_layer(n as int, "indexer_compressor_ape.weight"@),
            0,
            d.n_indexer_head * d.n_indexer_head_dim,
            None,
        ),
        written_as(
            layer_tensors(d, n)[19],
            in_layer(n as int, "indexer_compressor_kv.weight"@),
            1,
            d.n_indexer_head * d.n_indexer_head_dim,
            Some(d.n_embd as int),
        ),
        written_as(
            layer_tensors(d, n)[20],
            in_layer(n as int, "indexer_compressor_gate.weight"@),
            0,
            d.n_indexer_head * d.n_indexer_head_dim,
            None,
        ),
        written_as(
            layer_tensors(d, n)[21],
            in_layer(n as int, "indexer_compressor_norm.weight"@),
            0,
            d.n_indexer_head * d.n_indexer_head_dim,
            None,
        ),
        written_as(
            layer_tensors(d, n)[22],
            in_layer(n as int, "hc_ffn_fn.weight"@),
            1,
            d.n_hc * d.n_embd,
            Some(2 * d.n_hc + d.n_hc * d.n_hc),
        ),
        written_as(layer_tensors(d, n)[23], in_layer(n as int, "hc_ffn_scale.weight"@), 0, 3, None),
        written_as(
            layer_tensors(d, n)[24],
            in_layer(n as int, "hc_ffn_base.weight"@),
            0,
            2 * d.n_hc + d.n_hc * d.n_hc,
            None,
        ),
        written_as(
            layer_tensors(d, n)[25],
            in_layer(n as int, "ffn_norm.weight"@),
            0,
            d.n_embd as int,
            None,
        ),
        written_as(
            layer_tensors(d, n)[26],
            in_layer(n as int, "ffn_gate_tid2eid.weight"@),
            26,
            d.n_vocab as int,
            Some(d.n_expert_used as int),
        ),
        written_as(
            layer_tensors(d, n)[27],
            in_layer(n as int, "ffn_gate_inp.weight"@),
            1,
            d.n_embd as int,
            Some(d.n_expert as int),
        ),
        written_as(
            layer_tensors(d, n)[28],
            in_layer(n as int, "exp_probs_b.bias"@),
            0,
            d.n_head * d.n_head_dim,
            None,
        ),
        written_as(
            layer_tensors(d, n)[29],
            in_layer(n as int, "ffn_gate_exps.weight"@),
            1,
            d.n_embd as int,
            Some(d.n_expert * d.n_ff_exp),
        ),
        written_as(
            layer_tensors(d, n)[30],
            in_layer(n as int, "ffn_up_exps.weight"@),
            1,
            d.n_embd as int,
            Some(d.n_expert * d.n_ff_exp),
        ),
        written_as(
            layer_tensors(d, n)[31],
            in_layer(n as int, "ffn_down_exps.weight"@),
            1,
            d.n_ff_exp as int,
            Some(d.n_expert * d.n_embd),
        ),
        written_as(
            layer_tensors(d, n)[32],
            in_layer(n as int, "ffn_gate_shexp.weight"@),
            8,
            d.n_embd as int,
            Some(d.n_ff_exp as int),
        ),
        written_as(
            layer_tensors(d, n)[33],
            in_layer(n as int, "ffn_up_shexp.weight"@),
            8,
            d.n_embd as int,
            Some(d.n_ff_exp as int),
        ),
        written_as(
            layer_tensors(d, n)[34],
            in_layer(n as int, "ffn_down_shexp.weight"@),
            8,
            d.n_ff_exp as int,
            Some(d.n_embd as int),
        ),
{
}

/// The metadata of a sample file: each size under its own key, and a vocabulary without merges in
/// which the second text begins a sentence and the third ends it.
pub proof fn law_written_metadata(d: Dims)
    ensures
        file_pairs(d).len() == 12,
        file_pairs(d).contains(("general.architecture"@, ValueView::Text("ds4"@))),
        file_pairs(d).contains(("general.name"@, ValueView::Text("test_model"@))),
        file_pairs(d).contains(("ds4.n_layer"@, ValueView::Uint32(d.n_layer))),
        file_pairs(d).contains(("ds4.n_embd"@, ValueView::Uint32(d.n_embd))),
        file_pairs(d).contains(("ds4.vocab_size"@, ValueView::Uint32(d.n_vocab))),
        file_pairs(d).contains(("ds4.attn_n_head"@, ValueView::Uint32(d.n_head))),
        file_pairs(d).contains(("ds4.attn_n_head_kv"@, ValueView::Uint32(d.n_head_kv))),
        file_pairs(d).contains(("general.file_type"@, ValueView::Uint32(1))),
        file_pairs(d).contains(("tokenizer.ggml.tokens"@, ValueView::Array(8, file_tokens(d.n_vocab)))),
        file_pairs(d).contains(("tokenizer.ggml.merges"@, ValueView::Array(8, seq![]))),
        file_pairs(d).contains(("tokenizer.ggml.bos_token_id"@, ValueView::Uint32(1))),
        file_pairs(d).contains(("tokenizer.ggml.eos_token_id"@, ValueView::Uint32(2))),
        file_tokens(d.n_vocab).len() >= d.n_vocab && file_tokens(d.n_vocab).len() >= 26,
        file_tokens(d.n_vocab)[1] == ValueView::Text("<｜begin▁of▁sentence｜>"@),
        file_tokens(d.n_vocab)[2] == ValueView::Text("<｜end▁of▁sentence｜>"@),
        file_tokens(d.n_vocab)[3] == ValueView::Text("<｜User｜>"@),
        file_tokens(d.n_vocab)[4] == ValueView::Text("<｜Assistant｜>"@),
        file_tokens(d.n_vocab)[5] == ValueView::Text("<think>"@),
        file_tokens(d.n_vocab)[6] == ValueView::Text("</think>"@),
        forall|i: int|
            26 <= i < d.n_vocab ==> #[trigger] file_tokens(d.n_vocab)[i] == ValueView::Text(
                "<tok_"@ + decimal(i as nat) + ">"@,
            ),
{
    let p = file_pairs(d);
    assert(p[0] == ("general.architecture"@, ValueView::Text("ds4"@)));
    assert(p[1] == ("general.name"@, ValueView::Text("test_model"@)));
    assert(p[2] == ("ds4.n_layer"@, ValueView::Uint32(d.n_layer)));
    assert(p[3] == ("ds4.n_embd"@, ValueView::Uint32(d.n_embd)));
    assert(p[4] == ("ds4.vocab_size"@, ValueView::Uint32(d.n_vocab)));
    assert(p[5] == ("ds4.attn_n_head"@, ValueView::Uint32(d.n_head)));
    assert(p[6] == ("ds4.attn_n_head_kv"@, ValueView::Uint32(d.n_head_kv)));
    assert(p[7] == ("general.file_type"@, ValueView::Uint32(1)));
    assert(p[8] == ("tokenizer.ggml.tokens"@, ValueView::Array(8, file_tokens(d.n_vocab))));
    assert(p[9] == ("tokenizer.ggml.merges"@, ValueView::Array(8, seq![])));
    assert(p[10] == ("tokenizer.ggml.bos_token_id"@, ValueView::Uint32(1)));
    assert(p[11] == ("tokenizer.ggml.eos_token_id"@, ValueView::Uint32(2)));
    assert(file_token(1) == "<｜begin▁of▁sentence｜>"@ && file_token(2) == "<｜end▁of▁sentence｜>"@);
}

} // verus!

//! What binding promises: of each field of the weights, under which name a file holds it, and of a
//! configuration, which keys it is read from.
use crate::Dims;
use crate::bytes::le_value;
use crate::gguf::{lookup_u32, name_index, ImageView, TensorView, ValueView};
use crate::model::{
    all_slots, config_fault, first_fault, global_slots, layer_count, layer_slot, layer_slots,
    numbers, one_layer, slot_bound, slot_fault, slots_bound, weights_bound, LayerWeights,
    ModelFault, ModelWeights, Slot, Tensor, GLOBAL_TENSORS, LAYER_TENSORS,
};
use crate::text::decimal;
use vstd::prelude::*;

verus! {

/// The last tensor of a name in a list is the one at `i`.
pub open spec fn last_of_name(ts: Seq<TensorView>, name: Seq<char>, i: int) -> bool {
    &&& 0 <= i < ts.len()
    &&& ts[i].name == name
    &&& forall|j: int| i < j < ts.len() ==> (#[trigger] ts[j]).name != name
}

/// No tensor of a list has the name.
pub open spec fn unnamed(ts: Seq<TensorView>, name: Seq<char>) -> bool {
    forall|j: int| 0 <= j < ts.len() ==> (#[trigger] ts[j]).name != name
}

/// A bound tensor is the one that a file holds under a name: with its type, sizes and bytes, where
/// the file has all of these, or with nothing, where no tensor has the name.
pub open spec fn held_as(m: ImageView, image: Seq<u8>, name: Seq<char>, t: Tensor) -> bool {
    &&& t.name@ == name
    &&& forall|i: int|
        #![trigger m.tensors[i]]
        last_of_name(m.tensors, name, i) ==> {
            let v = m.tensors[i];
            &&& t.tensor_type == v.tensor_type
            &&& t.elements == v.elements
            &&& t.bytes == v.bytes
            &&& t.dims@ == v.dims
            &&& v.offset + v.bytes <= image.len() ==> t.content() == image.subrange(
                v.offset as int,
                v.offset + v.bytes,
            )
            &&& v.offset + v.bytes > image.len() ==> t.content().len() == 0
        }
    &&& unnamed(m.tensors, name) ==> !t.present() && t.content().len() == 0 && t.elements == 0
}

/// A file holds a tensor of the name, and all of its bytes.
pub open spec fn holds(m: ImageView, len: nat, name: Seq<char>) -> bool {
    exists|i: int|
        #![trigger m.tensors[i]]
        last_of_name(m.tensors, name, i) && m.tensors[i].offset + m.tensors[i].bytes <= len
}

/// The index of names leads to the last tensor of each name.
proof fn lemma_index(ts: Seq<TensorView>, name: Seq<char>)
    requires
        ts.len() <= usize::MAX,
    ensures
        name_index(ts).contains_key(name) <==> !unnamed(ts, name),
        name_index(ts).contains_key(name) ==> last_of_name(
            ts,
            name,
            name_index(ts)[name] as int,
        ),
    decreases ts.len(),
{
    if ts.len() > 0 {
        let front = ts.drop_last();
        lemma_index(front, name);
        let n = ts.len() - 1;
        if ts.last().name == name {
            assert(ts[n].name == name);
        } else {
            if name_index(front).contains_key(name) {
                let k = name_index(front)[name] as int;
                assert(front[k] == ts[k]);
                assert forall|j: int| k < j < ts.len() implies (#[trigger] ts[j]).name != name by {
                    if j < n {
                        assert(front[j] == ts[j]);
                    }
                }
                assert(ts[k].name == name);
            } else {
                assert forall|j: int| 0 <= j < ts.len() implies (#[trigger] ts[j]).name != name by {
                    if j < n {
                        assert(front[j] == ts[j]);
                    }
                }
            }
        }
    }
}

proof fn lemma_held(m: ImageView, image: Seq<u8>, slot: Slot, t: Tensor)
    requires
        m.tensors.len() <= usize::MAX,
        slot_bound(m, image, slot, t),
    ensures
        held_as(m, image, slot.name, t),
{
    lemma_index(m.tensors, slot.name);
    assert forall|i: int|
        #![trigger m.tensors[i]]
        last_of_name(m.tensors, slot.name, i) implies {
        let v = m.tensors[i];
        &&& t.tensor_type == v.tensor_type
        &&& t.elements == v.elements
        &&& t.bytes == v.bytes
        &&& t.dims@ == v.dims
        &&& v.offset + v.bytes <= image.len() ==> t.content() == image.subrange(
            v.offset as int,
            v.offset + v.bytes,
        )
        &&& v.offset + v.bytes > image.len() ==> t.content().len() == 0
    } by {
        let k = name_index(m.tensors)[slot.name] as int;
        assert(k == i) by {
            if k < i {
                assert(m.tensors[i].name != slot.name);
            }
            if i < k {
                assert(m.tensors[k].name != slot.name);
            }
        }
    }
}

/// Where weights are bound, every field outside the layers is the tensor of its own name.
pub proof fn law_global_fields(m: ImageView, image: Seq<u8>, w: ModelWeights, n_layer: nat)
    requires
        m.tensors.len() <= usize::MAX,
        weights_bound(m, image, w, n_layer),
    ensures
        w.layers@.len() == n_layer,
        held_as(m, image, "token_embd.weight"@, w.token_embd),
        held_as(m, image, "output_hc_base.weight"@, w.output_hc_base),
        held_as(m, image, "output_hc_fn.weight"@, w.output_hc_fn),
        held_as(m, image, "output_hc_scale.weight"@, w.output_hc_scale),
        held_as(m, image, "output_norm.weight"@, w.output_norm),
        held_as(m, image, "output.weight"@, w.output),
{
    assert forall|k: int| 0 <= k < GLOBAL_TENSORS implies held_as(
        m,
        image,
        (#[trigger] global_slots()[k]).name,
        w.globals()[k],
    ) by {
        lemma_held(m, image, global_slots()[k], w.globals()[k]);
    }
    assert(global_slots()[0].name == "token_embd.weight"@ && w.globals()[0] == w.token_embd);
    assert(global_slots()[1].name == "output_hc_base.weight"@ && w.globals()[1] == w.output_hc_base);
    assert(global_slots()[2].name == "output_hc_fn.weight"@ && w.globals()[2] == w.output_hc_fn);
    assert(global_slots()[3].name == "output_hc_scale.weight"@ && w.globals()[3] == w.output_hc_scale);
    assert(global_slots()[4].name == "output_norm.weight"@ && w.globals()[4] == w.output_norm);
    assert(global_slots()[5].name == "output.weight"@ && w.globals()[5] == w.output);
}

/// The name of a layer's tensor in a file.
pub open spec fn in_layer(il: int, name: Seq<char>) -> Seq<char> {
    "blk."@ + decimal(il as nat) + "."@ + name
}

/// Where weights are bound, every field of every layer is the tensor of its own name in that layer.
pub proof fn law_layer_fields(m: ImageView, image: Seq<u8>, w: ModelWeights, n_layer: nat, il: int)
    requires
        m.tensors.len() <= usize::MAX,
        weights_bound(m, image, w, n_layer),
        0 <= il < n_layer,
    ensures
        held_as(m, image, in_layer(il, "hc_attn_fn.weight"@), w.layers@[il].hc_attn_fn),
        held_as(m, image, in_layer(il, "hc_attn_scale.weight"@), w.layers@[il].hc_attn_scale),
        held_as(m, image, in_layer(il, "hc_attn_base.weight"@), w.layers@[il].hc_attn_base),
        held_as(m, image, in_layer(il, "attn_norm.weight"@), w.layers@[il].attn_norm),
        held_as(m, image, in_layer(il, "attn_q_a.weight"@), w.layers@[il].attn_q_a),
        held_as(m, image, in_layer(il, "attn_q_a_norm.weight"@), w.layers@[il].attn_q_a_norm),
        held_as(m, image, in_layer(il, "attn_q_b.weight"@), w.layers@[il].attn_q_b),
        held_as(m, image, in_layer(il, "attn_kv.weight"@), w.layers@[il].attn_kv),
        held_as(m, image, in_layer(il, "attn_kv_a_norm.weight"@), w.layers@[il].attn_kv_a_norm),
        held_as(m, image, in_layer(il, "attn_sinks.weight"@), w.layers@[il].attn_sinks),
        held_as(m, image, in_layer(il, "attn_output_a.weight"@), w.layers@[il].attn_output_a),
        held_as(m, image, in_layer(il, "attn_output_b.weight"@), w.layers@[il].attn_output_b),
        held_as(
            m,
            image,
            in_layer(il, "attn_compressor_ape.weight"@),
            w.layers@[il].attn_compressor_ape,
        ),
        held_as(
            m,
            image,
            in_layer(il, "attn_compressor_kv.weight"@),
            w.layers@[il].attn_compressor_kv,
        ),
        held_as(
            m,
            image,
            in_layer(il, "attn_compressor_gate.weight"@),
            w.layers@[il].attn_compressor_gate,
        ),
        held_as(
            m,
            image,
            in_layer(il, "attn_compressor_norm.weight"@),
            w.layers@[il].attn_compressor_norm,
        ),
        held_as(m, image, in_layer(il, "indexer.attn_q_b.weight"@), w.layers@[il].indexer_attn_q_b),
        held_as(m, image, in_layer(il, "indexer.proj.weight"@), w.layers@[il].indexer_proj),
        held_as(
            m,
            image,
            in_layer(il, "indexer_compressor_ape.weight"@),
            w.layers@[il].indexer_compressor_ape,
        ),
        held_as(
            m,
            image,
            in_layer(il, "indexer_compressor_kv.weight"@),
            w.layers@[il].indexer_compressor_kv,
        ),
        held_as(
            m,
            image,
            in_layer(il, "indexer_compressor_gate.weight"@),
            w.layers@[il].indexer_compressor_gate,
        ),
        held_as(
            m,
            image,
            in_layer(il, "indexer_compressor_norm.weight"@),
            w.layers@[il].indexer_compressor_norm,
        ),
        held_as(m, image, in_layer(il, "hc_ffn_fn.weight"@), w.layers@[il].hc_ffn_fn),
        held_as(m, image, in_layer(il, "hc_ffn_scale.weight"@), w.layers@[il].hc_ffn_scale),
        held_as(m, image, in_layer(il, "hc_ffn_base.weight"@), w.layers@[il].hc_ffn_base),
        held_as(m, image, in_layer(il, "ffn_norm.weight"@), w.layers@[il].ffn_norm),
        held_as(m, image, in_layer(il, "ffn_gate_tid2eid.weight"@), w.layers@[il].ffn_gate_tid2eid),
        held_as(m, image, in_layer(il, "ffn_gate_inp.weight"@), w.layers@[il].ffn_gate_inp),
        held_as(m, image, in_layer(il, "exp_probs_b.bias"@), w.layers@[il].ffn_exp_probs_b),
        held_as(m, image, in_layer(il, "ffn_gate_exps.weight"@), w.layers@[il].ffn_gate_exps),
        held_as(m, image, in_layer(il, "ffn_up_exps.weight"@), w.layers@[il].ffn_up_exps),
        held_as(m, image, in_layer(il, "ffn_down_exps.weight"@), w.layers@[il].ffn_down_exps),
        held_as(m, image, in_layer(il, "ffn_gate_shexp.weight"@), w.layers@[il].ffn_gate_shexp),
        held_as(m, image, in_layer(il, "ffn_up_shexp.weight"@), w.layers@[il].ffn_up_shexp),
        held_as(m, image, in_layer(il, "ffn_down_shexp.weight"@), w.layers@[il].ffn_down_shexp),
{
    let l = w.layers@[il];
    let slots = one_layer(il as nat);
    assert(slots_bound(m, image, slots, l.list()));
    assert forall|k: int| 0 <= k < LAYER_TENSORS implies held_as(
        m,
        image,
        in_layer(il, (#[trigger] layer_slots()[k]).name),
        l.list()[k],
    ) by {
        assert(slots[k] == layer_slot(il as nat, k));
        lemma_held(m, image, slots[k], l.list()[k]);
    }
    lemma_layer_places(l);
    assert(layer_slots()[0].name == "hc_attn_fn.weight"@);
    assert(layer_slots()[1].name == "hc_attn_scale.weight"@);
    assert(layer_slots()[2].name == "hc_attn_base.weight"@);
    assert(layer_slots()[3].name == "attn_norm.weight"@);
    assert(layer_slots()[4].name == "attn_q_a.weight"@);
    assert(layer_slots()[5].name == "attn_q_a_norm.weight"@);
    assert(layer_slots()[6].name == "attn_q_b.weight"@);
    assert(layer_slots()[7].name == "attn_kv.weight"@);
    assert(layer_slots()[8].name == "attn_kv_a_norm.weight"@);
    assert(layer_slots()[9].name == "attn_sinks.weight"@);
    assert(layer_slots()[10].name == "attn_output_a.weight"@);
    assert(layer_slots()[11].name == "attn_output_b.weight"@);
    assert(layer_slots()[12].name == "attn_compressor_ape.weight"@);
    assert(layer_slots()[13].name == "attn_compressor_kv.weight"@);
    assert(layer_slots()[14].name == "attn_compressor_gate.weight"@);
    assert(layer_slots()[15].name == "attn_compressor_norm.weight"@);
    assert(layer_slots()[16].name == "indexer.attn_q_b.weight"@);
    assert(layer_slots()[17].name == "indexer.proj.weight"@);
    assert(layer_slots()[18].name == "indexer_compressor_ape.weight"@);
    assert(layer_slots()[19].name == "indexer_compressor_kv.weight"@);
    assert(layer_slots()[20].name == "indexer_compressor_gate.weight"@);
    assert(layer_slots()[21].name == "indexer_compressor_norm.weight"@);
    assert(layer_slots()[22].name == "hc_ffn_fn.weight"@);
    assert(layer_slots()[23].name == "hc_ffn_scale.weight"@);
    assert(layer_slots()[24].name == "hc_ffn_base.weight"@);
    assert(layer_slots()[25].name == "ffn_norm.weight"@);
    assert(layer_slots()[26].name == "ffn_gate_tid2eid.weight"@);
    assert(layer_slots()[27].name == "ffn_gate_inp.weight"@);
    assert(layer_slots()[28].name == "exp_probs_b.bias"@);
    assert(layer_slots()[29].name == "ffn_gate_exps.weight"@);
    assert(layer_slots()[30].name == "ffn_up_exps.weight"@);
    assert(layer_slots()[31].name == "ffn_down_exps.weight"@);
    assert(layer_slots()[32].name == "ffn_gate_shexp.weight"@);
    assert(layer_slots()[33].name == "ffn_up_shexp.weight"@);
    assert(layer_slots()[34].name == "ffn_down_shexp.weight"@);
}

/// Where each field stands among the tensors of a layer.
proof fn lemma_layer_places(l: LayerWeights)
    ensures
        l.list()[0] == l.hc_attn_fn,
        l.list()[1] == l.hc_attn_scale,
        l.list()[2] == l.hc_attn_base,
        l.list()[3] == l.attn_norm,
        l.list()[4] == l.attn_q_a,
        l.list()[5] == l.attn_q_a_norm,
        l.list()[6] == l.attn_q_b,
        l.list()[7] == l.attn_kv,
        l.list()[8] == l.attn_kv_a_norm,
        l.list()[9] == l.attn_sinks,
        l.list()[10] == l.attn_output_a,
        l.list()[11] == l.attn_output_b,
        l.list()[12] == l.attn_compressor_ape,
        l.list()[13] == l.attn_compressor_kv,
        l.list()[14] == l.attn_compressor_gate,
        l.list()[15] == l.attn_compressor_norm,
        l.list()[16] == l.indexer_attn_q_b,
        l.list()[17] == l.indexer_proj,
        l.list()[18] == l.indexer_compressor_ape,
        l.list()[19] == l.indexer_compressor_kv,
        l.list()[20] == l.indexer_compressor_gate,
        l.list()[21] == l.indexer_compressor_norm,
        l.list()[22] == l.hc_ffn_fn,
        l.list()[23] == l.hc_ffn_scale,
        l.list()[24] == l.hc_ffn_base,
        l.list()[25] == l.ffn_norm,
        l.list()[26] == l.ffn_gate_tid2eid,
        l.list()[27] == l.ffn_gate_inp,
        l.list()[28] == l.ffn_exp_probs_b,
        l.list()[29] == l.ffn_gate_exps,
        l.list()[30] == l.ffn_up_exps,
        l.list()[31] == l.ffn_down_exps,
        l.list()[32] == l.ffn_gate_shexp,
        l.list()[33] == l.ffn_up_shexp,
        l.list()[34] == l.ffn_down_shexp,
{
}

/// A required tensor is there, or its name is the fault.
proof fn lemma_slot_fault(m: ImageView, len: nat, slot: Slot)
    requires
        m.tensors.len() <= usize::MAX,
    ensures
        slot_fault(m, len, slot) is None <==> (slot.required ==> holds(m, len, slot.name)),
{
    lemma_index(m.tensors, slot.name);
    if slot.required && name_index(m.tensors).contains_key(slot.name) {
        let k = name_index(m.tensors)[slot.name] as int;
        assert(last_of_name(m.tensors, slot.name, k));
        if holds(m, len, slot.name) {
            let i = choose|i: int|
                #![trigger m.tensors[i]]
                last_of_name(m.tensors, slot.name, i) && m.tensors[i].offset + m.tensors[i].bytes
                    <= len;
            assert(k == i) by {
                if k < i {
                    assert(m.tensors[i].name != slot.name);
                }
                if i < k {
                    assert(m.tensors[k].name != slot.name);
                }
            }
        }
    }
}

proof fn lemma_no_fault(m: ImageView, len: nat, slots: Seq<Slot>)
    requires
        m.tensors.len() <= usize::MAX,
    ensures
        first_fault(m, len, slots) is None <==> forall|k: int|
            0 <= k < slots.len() ==> ((#[trigger] slots[k]).required ==> holds(
                m,
                len,
                slots[k].name,
            )),
    decreases slots.len(),
{
    if slots.len() > 0 {
        let front = slots.drop_last();
        lemma_no_fault(m, len, front);
        lemma_slot_fault(m, len, slots.last());
        let n = slots.len() - 1;
        assert(slots[n] == slots.last());
        if first_fault(m, len, front) is None {
            if slot_fault(m, len, slots.last()) is None {
                assert forall|k: int| 0 <= k < slots.len() implies ((#[trigger] slots[k]).required
                    ==> holds(m, len, slots[k].name)) by {
                    if k < n {
                        assert(front[k] == slots[k]);
                    }
                }
            }
        } else {
            let k = choose|k: int|
                0 <= k < front.len() && !((#[trigger] front[k]).required ==> holds(
                    m,
                    len,
                    front[k].name,
                ));
            assert(slots[k] == front[k]);
        }
    }
}

/// What a fault says is so: a tensor that is called missing is in no place of the list, and one that
/// is called without data is there, but its bytes are not all in the file.
pub proof fn law_faults_are_true(m: ImageView, len: nat, slots: Seq<Slot>)
    requires
        m.tensors.len() <= usize::MAX,
    ensures
        first_fault(m, len, slots) matches Some(f) ==> {
            ||| exists|k: int|
                0 <= k < slots.len() && (#[trigger] slots[k]).required && f
                    == ModelFault::MissingTensor(slots[k].name) && unnamed(m.tensors, slots[k].name)
            ||| exists|k: int|
                0 <= k < slots.len() && (#[trigger] slots[k]).required && f == ModelFault::NoData(
                    slots[k].name,
                ) && !unnamed(m.tensors, slots[k].name) && !holds(m, len, slots[k].name)
        },
    decreases slots.len(),
{
    if slots.len() > 0 {
        let front = slots.drop_last();
        let n = slots.len() - 1;
        law_faults_are_true(m, len, front);
        if first_fault(m, len, front) is Some {
            let f = first_fault(m, len, front)->0;
            if exists|k: int|
                0 <= k < front.len() && (#[trigger] front[k]).required && f
                    == ModelFault::MissingTensor(front[k].name) && unnamed(m.tensors, front[k].name) {
                let k = choose|k: int|
                    0 <= k < front.len() && (#[trigger] front[k]).required && f
                        == ModelFault::MissingTensor(front[k].name) && unnamed(
                        m.tensors,
                        front[k].name,
                    );
                assert(slots[k] == front[k]);
            } else {
                let k = choose|k: int|
                    0 <= k < front.len() && (#[trigger] front[k]).required && f
                        == ModelFault::NoData(front[k].name) && !unnamed(m.tensors, front[k].name)
                        && !holds(m, len, front[k].name);
                assert(slots[k] == front[k]);
            }
        } else if first_fault(m, len, slots) is Some {
            assert(slots[n] == slots.last());
            lemma_slot_fault(m, len, slots[n]);
            lemma_index(m.tensors, slots[n].name);
        }
    }
}

/// The tensors without which no layer can be bound.
pub open spec fn layer_is_held(m: ImageView, len: nat, il: int) -> bool {
    &&& holds(m, len, in_layer(il, "hc_attn_fn.weight"@))
    &&& holds(m, len, in_layer(il, "hc_attn_scale.weight"@))
    &&& holds(m, len, in_layer(il, "hc_attn_base.weight"@))
    &&& holds(m, len, in_layer(il, "attn_norm.weight"@))
    &&& holds(m, len, in_layer(il, "attn_q_a.weight"@))
    &&& holds(m, len, in_layer(il, "attn_q_a_norm.weight"@))
    &&& holds(m, len, in_layer(il, "attn_q_b.weight"@))
    &&& holds(m, len, in_layer(il, "attn_kv.weight"@))
    &&& holds(m, len, in_layer(il, "attn_kv_a_norm.weight"@))
    &&& holds(m, len, in_layer(il, "attn_sinks.weight"@))
    &&& holds(m, len, in_layer(il, "attn_output_a.weight"@))
    &&& holds(m, len, in_layer(il, "attn_output_b.weight"@))
    &&& holds(m, len, in_layer(il, "hc_ffn_fn.weight"@))
    &&& holds(m, len, in_layer(il, "hc_ffn_scale.weight"@))
    &&& holds(m, len, in_layer(il, "hc_ffn_base.weight"@))
    &&& holds(m, len, in_layer(il, "ffn_norm.weight"@))
    &&& holds(m, len, in_layer(il, "ffn_gate_inp.weight"@))
    &&& holds(m, len, in_layer(il, "ffn_gate_exps.weight"@))
    &&& holds(m, len, in_layer(il, "ffn_up_exps.weight"@))
    &&& holds(m, len, in_layer(il, "ffn_down_exps.weight"@))
    &&& holds(m, len, in_layer(il, "ffn_gate_shexp.weight"@))
    &&& holds(m, len, in_layer(il, "ffn_up_shexp.weight"@))
    &&& holds(m, len, in_layer(il, "ffn_down_shexp.weight"@))
}

/// Weights can be bound just where the file holds the global tensors and, in every layer, those that
/// a layer needs. The others may be missing.
pub proof fn law_binding_needs(m: ImageView, len: nat, n_layer: nat)
    requires
        m.tensors.len() <= usize::MAX,
    ensures
        first_fault(m, len, all_slots(n_layer)) is None <==> {
            &&& holds(m, len, "token_embd.weight"@)
            &&& holds(m, len, "output_hc_base.weight"@)
            &&& holds(m, len, "output_hc_fn.weight"@)
            &&& holds(m, len, "output_hc_scale.weight"@)
            &&& holds(m, len, "output_norm.weight"@)
            &&& holds(m, len, "output.weight"@)
            &&& forall|il: int| 0 <= il < n_layer ==> #[trigger] layer_is_held(m, len, il)
        },
    decreases n_layer,
{
    lemma_no_fault(m, len, all_slots(n_layer));
    if n_layer == 0 {
        lemma_no_fault(m, len, global_slots());
        lemma_globals_held(m, len);
    } else {
        let il = (n_layer - 1) as nat;
        law_binding_needs(m, len, il);
        crate::model::lemma_fault_concat(m, len, all_slots(il), one_layer(il));
        assert(all_slots(n_layer) =~= all_slots(il) + one_layer(il));
        lemma_no_fault(m, len, one_layer(il));
        lemma_layer_held(m, len, il);
        assert(layer_is_held(m, len, il as int) <==> first_fault(m, len, one_layer(il)) is None);
        if first_fault(m, len, all_slots(n_layer)) is None {
            assert forall|k: int| 0 <= k < n_layer implies #[trigger] layer_is_held(m, len, k) by {
            }
        }
    }
}

proof fn lemma_globals_held(m: ImageView, len: nat)
    ensures
        (forall|k: int|
            0 <= k < global_slots().len() ==> ((#[trigger] global_slots()[k]).required ==> holds(
                m,
                len,
                global_slots()[k].name,
            ))) <==> {
            &&& holds(m, len, "token_embd.weight"@)
            &&& holds(m, len, "output_hc_base.weight"@)
            &&& holds(m, len, "output_hc_fn.weight"@)
            &&& holds(m, len, "output_hc_scale.weight"@)
            &&& holds(m, len, "output_norm.weight"@)
            &&& holds(m, len, "output.weight"@)
        },
{
    let g = global_slots();
    assert(g[0].required && g[0].name == "token_embd.weight"@);
    assert(g[1].required && g[1].name == "output_hc_base.weight"@);
    assert(g[2].required && g[2].name == "output_hc_fn.weight"@);
    assert(g[3].required && g[3].name == "output_hc_scale.weight"@);
    assert(g[4].required && g[4].name == "output_norm.weight"@);
    assert(g[5].required && g[5].name == "output.weight"@);
}

proof fn lemma_layer_held(m: ImageView, len: nat, il: nat)
    ensures
        (forall|k: int|
            0 <= k < one_layer(il).len() ==> ((#[trigger] one_layer(il)[k]).required ==> holds(
                m,
                len,
                one_layer(il)[k].name,
            ))) <==> layer_is_held(m, len, il as int),
{
    let s = one_layer(il);
    assert forall|k: int| 0 <= k < LAYER_TENSORS implies #[trigger] s[k] == (Slot {
        name: in_layer(il as int, layer_slots()[k].name),
        required: layer_slots()[k].required,
    }) by {
    }
    let n = |k: int| layer_slots()[k].name;
    assert(layer_slots()[0].name == "hc_attn_fn.weight"@ && layer_slots()[0].required == true);
    assert(layer_slots()[1].name == "hc_attn_scale.weight"@ && layer_slots()[1].required == true);
    assert(layer_slots()[2].name == "hc_attn_base.weight"@ && layer_slots()[2].required == true);
    assert(layer_slots()[3].name == "attn_norm.weight"@ && layer_slots()[3].required == true);
    assert(layer_slots()[4].name == "attn_q_a.weight"@ && layer_slots()[4].required == true);
    assert(layer_slots()[5].name == "attn_q_a_norm.weight"@ && layer_slots()[5].required == true);
    assert(layer_slots()[6].name == "attn_q_b.weight"@ && layer_slots()[6].required == true);
    assert(layer_slots()[7].name == "attn_kv.weight"@ && layer_slots()[7].required == true);
    assert(layer_slots()[8].name == "attn_kv_a_norm.weight"@ && layer_slots()[8].required == true);
    assert(layer_slots()[9].name == "attn_sinks.weight"@ && layer_slots()[9].required == true);
    assert(layer_slots()[10].name == "attn_output_a.weight"@ && layer_slots()[10].required == true);
    assert(layer_slots()[11].name == "attn_output_b.weight"@ && layer_slots()[11].required == true);
    assert(layer_slots()[12].name == "attn_compressor_ape.weight"@ && layer_slots()[12].required == false);
    assert(layer_slots()[13].name == "attn_compressor_kv.weight"@ && layer_slots()[13].required == false);
    assert(layer_slots()[14].name == "attn_compressor_gate.weight"@ && layer_slots()[14].required == false);
    assert(layer_slots()[15].name == "attn_compressor_norm.weight"@ && layer_slots()[15].required == false);
    assert(layer_slots()[16].name == "indexer.attn_q_b.weight"@ && layer_slots()[16].required == false);
    assert(layer_slots()[17].name == "indexer.proj.weight"@ && layer_slots()[17].required == false);
    assert(layer_slots()[18].name == "indexer_compressor_ape.weight"@ && layer_slots()[18].required == false);
    assert(layer_slots()[19].name == "indexer_compressor_kv.weight"@ && layer_slots()[19].required == false);
    assert(layer_slots()[20].name == "indexer_compressor_gate.weight"@ && layer_slots()[20].required == false);
    assert(layer_slots()[21].name == "indexer_compressor_norm.weight"@ && layer_slots()[21].required == false);
    assert(layer_slots()[22].name == "hc_ffn_fn.weight"@ && layer_slots()[22].required == true);
    assert(layer_slots()[23].name == "hc_ffn_scale.weight"@ && layer_slots()[23].required == true);
    assert(layer_slots()[24].name == "hc_ffn_base.weight"@ && layer_slots()[24].required == true);
    assert(layer_slots()[25].name == "ffn_norm.weight"@ && layer_slots()[25].required == true);
    assert(layer_slots()[26].name == "ffn_gate_tid2eid.weight"@ && layer_slots()[26].required == false);
    assert(layer_slots()[27].name == "ffn_gate_inp.weight"@ && layer_slots()[27].required == true);
    assert(layer_slots()[28].name == "exp_probs_b.bias"@ && layer_slots()[28].required == false);
    assert(layer_slots()[29].name == "ffn_gate_exps.weight"@ && layer_slots()[29].required == true);
    assert(layer_slots()[30].name == "ffn_up_exps.weight"@ && layer_slots()[30].required == true);
    assert(layer_slots()[31].name == "ffn_down_exps.weight"@ && layer_slots()[31].required == true);
    assert(layer_slots()[32].name == "ffn_gate_shexp.weight"@ && layer_slots()[32].required == true);
    assert(layer_slots()[33].name == "ffn_up_shexp.weight"@ && layer_slots()[33].required == true);
    assert(layer_slots()[34].name == "ffn_down_shexp.weight"@ && layer_slots()[34].required == true);
    assert(s[0].required == true);
    assert(s[1].required == true);
    assert(s[2].required == true);
    assert(s[3].required == true);
    assert(s[4].required == true);
    assert(s[5].required == true);
    assert(s[6].required == true);
    assert(s[7].required == true);
    assert(s[8].required == true);
    assert(s[9].required == true);
    assert(s[10].required == true);
    assert(s[11].required == true);
    assert(s[12].required == false);
    assert(s[13].required == false);
    assert(s[14].required == false);
    assert(s[15].required == false);
    assert(s[16].required == false);
    assert(s[17].required == false);
    assert(s[18].required == false);
    assert(s[19].required == false);
    assert(s[20].required == false);
    assert(s[21].required == false);
    assert(s[22].required == true);
    assert(s[23].required == true);
    assert(s[24].required == true);
    assert(s[25].required == true);
    assert(s[26].required == false);
    assert(s[27].required == true);
    assert(s[28].required == false);
    assert(s[29].required == true);
    assert(s[30].required == true);
    assert(s[31].required == true);
    assert(s[32].required == true);
    assert(s[33].required == true);
    assert(s[34].required == true);
}

// Configuration

/// A key has a number in the metadata.
pub open spec fn says(kv: Map<Seq<char>, ValueView>, key: Seq<char>, n: u32) -> bool {
    kv.contains_key(key) && kv[key] == ValueView::Uint32(n)
}

/// With its five sizes in the metadata under their own keys, a model fits just where all five are
/// those expected, and the first that is not is the fault. A lenient look asks only that the first
/// three are not zero.
pub proof fn law_config_keys(
    kv: Map<Seq<char>, ValueView>,
    d: Dims,
    layers: u32,
    embd: u32,
    vocab: u32,
    heads: u32,
    kv_heads: u32,
)
    requires
        says(kv, "ds4.n_layer"@, layers),
        says(kv, "ds4.n_embd"@, embd),
        says(kv, "ds4.vocab_size"@, vocab),
        says(kv, "ds4.attn_n_head"@, heads),
        says(kv, "ds4.attn_n_head_kv"@, kv_heads),
    ensures
        layer_count(kv, d) == layers,
        config_fault(kv, d, false) is None <==> layers == d.n_layer && embd == d.n_embd && vocab
            == d.n_vocab && heads == d.n_head && kv_heads == d.n_head_kv,
        layers != d.n_layer ==> config_fault(kv, d, false) == Some(
            ModelFault::LayerCount(d.n_layer, layers),
        ),
        layers == d.n_layer && embd != d.n_embd ==> config_fault(kv, d, false) == Some(
            ModelFault::EmbeddingDim(d.n_embd, embd),
        ),
        layers == d.n_layer && embd == d.n_embd && vocab != d.n_vocab ==> config_fault(kv, d, false)
            == Some(ModelFault::VocabSize(d.n_vocab, vocab)),
        layers == d.n_layer && embd == d.n_embd && vocab == d.n_vocab && heads != d.n_head
            ==> config_fault(kv, d, false) == Some(ModelFault::HeadCount(d.n_head, heads)),
        layers == d.n_layer && embd == d.n_embd && vocab == d.n_vocab && heads == d.n_head
            && kv_heads != d.n_head_kv ==> config_fault(kv, d, false) == Some(
            ModelFault::KvHeadCount(d.n_head_kv, kv_heads),
        ),
        config_fault(kv, d, true) is None <==> layers != 0 && embd != 0 && vocab != 0,
        layers == 0 ==> config_fault(kv, d, true) == Some(ModelFault::NoLayers),
        layers != 0 && embd == 0 ==> config_fault(kv, d, true) == Some(ModelFault::ZeroEmbedding),
        layers != 0 && embd != 0 && vocab == 0 ==> config_fault(kv, d, true) == Some(
            ModelFault::ZeroVocab,
        ),
{
}

/// Where the metadata has none of a model's own keys, the common ones stand for them.
pub proof fn law_config_aliases(
    a: Map<Seq<char>, ValueView>,
    b: Map<Seq<char>, ValueView>,
    d: Dims,
    lenient: bool,
    layers: u32,
    embd: u32,
    vocab: u32,
    heads: u32,
    kv_heads: u32,
)
    requires
        says(a, "ds4.n_layer"@, layers),
        says(a, "ds4.n_embd"@, embd),
        says(a, "ds4.vocab_size"@, vocab),
        says(a, "ds4.attn_n_head"@, heads),
        says(a, "ds4.attn_n_head_kv"@, kv_heads),
        says(b, "llama.block_count"@, layers),
        says(b, "llama.embedding_length"@, embd),
        says(b, "llama.vocab_size"@, vocab),
        says(b, "llama.attention.head_count"@, heads),
        says(b, "llama.attention.head_count_kv"@, kv_heads),
        !b.contains_key("ds4.n_layer"@),
        !b.contains_key("ds4.n_embd"@),
        !b.contains_key("ds4.vocab_size"@),
        !b.contains_key("ds4.attn_n_head"@),
        !b.contains_key("ds4.attn_n_head_kv"@),
    ensures
        config_fault(a, d, lenient) == config_fault(b, d, lenient),
        layer_count(a, d) == layer_count(b, d),
{
}

/// Without a layer count in the metadata, the one expected is taken.
pub proof fn law_layer_count_default(kv: Map<Seq<char>, ValueView>, d: Dims)
    requires
        !kv.contains_key("ds4.n_layer"@),
        !kv.contains_key("llama.block_count"@),
    ensures
        layer_count(kv, d) == d.n_layer,
{
}

/// A number is looked up as it stands in 32 bits, and by its low 32 bits where it stands in 64.
/// Nothing else counts as a number.
pub proof fn law_lookup(kv: Map<Seq<char>, ValueView>, key: Seq<char>, n: u32, high: u32)
    ensures
        lookup_u32(kv.insert(key, ValueView::Uint32(n)), key) == Some(n),
        lookup_u32(
            kv.insert(key, ValueView::Uint64((high * 0x1_0000_0000 + n) as u64)),
            key,
        ) == Some(n),
        !kv.contains_key(key) ==> lookup_u32(kv, key) is None,
        kv.contains_key(key) && !(kv[key] is Uint32) && !(kv[key] is Uint64) ==> lookup_u32(kv, key)
            is None,
{
    let x: u64 = (high * 0x1_0000_0000 + n) as u64;
    assert(x as u32 == n) by (bit_vector)
        requires
            x == (high as u64) * 0x1_0000_0000u64 + (n as u64),
    ;
}

// Rows of numbers

/// Number `i` of a row of two-byte or four-byte numbers is made of its own bytes, the lowest first.
pub proof fn law_numbers(b: Seq<u8>, i: int)
    requires
        0 <= i,
    ensures
        numbers(b, 2).len() == b.len() / 2,
        numbers(b, 4).len() == b.len() / 4,
        i < b.len() / 2 ==> numbers(b, 2)[i] == b[2 * i] + 0x100 * b[2 * i + 1],
        i < b.len() / 4 ==> numbers(b, 4)[i] == b[4 * i] + 0x100 * b[4 * i + 1] + 0x1_0000 * b[4 * i
            + 2] + 0x100_0000 * b[4 * i + 3],
{
    reveal_with_fuel(le_value, 5);
    if i < b.len() / 2 {
        let s = b.subrange(i * 2, i * 2 + 2);
        assert(s.drop_first().drop_first() =~= seq![]);
        assert(s[0] == b[2 * i] && s.drop_first()[0] == b[2 * i + 1]);
    }
    if i < b.len() / 4 {
        let s = b.subrange(i * 4, i * 4 + 4);
        let t = s.drop_first();
        let u = t.drop_first();
        let v = u.drop_first();
        assert(v.drop_first() =~= seq![]);
        assert(s[0] == b[4 * i] && t[0] == b[4 * i + 1] && u[0] == b[4 * i + 2] && v[0] == b[4 * i
            + 3]);
    }
}

} // verus!

//! A model file that was written can be opened and bound, and gives its weights back.
use crate::bytes::{le_bytes, lemma_le_bytes_len, stands_at};
use crate::constants::Dims;
use crate::gguf::{
    data_bytes, data_end, image_of, kept_key, last_named, lemma_name_index, name_index,
    nonzero_product, GgufFault, ImageView, ValueView, GGUF_MAGIC,
};
use crate::gguf_laws::{
    describable, law_file_round_trip, metadata_of, read_back, readable, storable,
};
use crate::gguf_writer::{
    lemma_end_bound, lemma_offset_bound, pair_bytes, pairs_bytes, value_code, WriterView,
};
use crate::half::narrowed;
use crate::model::{
    all_slots, config_fault, first_fault, global_slots, layer_prefix, layer_slots,
    lemma_fault_concat, one_layer, slot_fault, Slot, GLOBAL_TENSORS, LAYER_TENSORS,
};
use crate::sample_file::{
    file_pairs, file_tensors, file_token, file_tokens, file_view, first_tokens, global_outline,
    layer_outline, layer_tensors, lemma_product, unit_block, Outline, ONE_OF_127,
};
use crate::sample_model::lemma_repeated_len;
use crate::tensor_types::{blocks_bytes, type_table};
use crate::tokenizer::{string_array, strings_of, vocab_fault, vocab_size};
use vstd::prelude::*;
use vstd::utf8::encode_utf8;

verus! {

/// The data of every tensor is at least as long as its descriptor says.
pub open spec fn whole(w: WriterView) -> bool {
    forall|i: int|
        0 <= i < w.tensors.len() ==> data_bytes(
            (#[trigger] w.tensors[i]).dims,
            w.tensors[i].tensor_type,
        ) <= w.tensors[i].data.len()
}

/// A tensor that was written is found under its name, unless a later one has the name too; what is
/// bound for it is the data that was written.
pub proof fn law_written_tensor_is_bound(w: WriterView, m: ImageView, i: int)
    requires
        readable(w),
        whole(w),
        w.tensors.len() <= usize::MAX,
        image_of(w.file()) == Ok::<ImageView, GgufFault>(m),
        0 <= i < w.tensors.len(),
        forall|k: int| i < k < w.tensors.len() ==> (#[trigger] w.tensors[k]).name
            != w.tensors[i].name,
    ensures
        ({
            let t = w.tensors[i];
            let found = last_named(m.tensors, t.name);
            let n = data_bytes(t.dims, t.tensor_type) as int;
            &&& name_index(m.tensors).contains_key(t.name)
            &&& found == read_back(w, i)
            &&& data_end(found) <= w.file().len()
            &&& w.file().subrange(found.offset as int, data_end(found)) == t.data.take(n)
        }),
{
    law_file_round_trip(w);
    lemma_found(w, m, w.file(), i);
}

/// The tensor that is found under a name is the last one that was written under it.
proof fn lemma_found(w: WriterView, m: ImageView, data: Seq<u8>, i: int)
    requires
        whole(w),
        w.tensors.len() <= usize::MAX,
        m.tensors == Seq::new(w.tensors.len(), |k: int| read_back(w, k)),
        0 <= i < w.tensors.len(),
        forall|k: int| i < k < w.tensors.len() ==> (#[trigger] w.tensors[k]).name
            != w.tensors[i].name,
        stands_at(data, w.offset(i) as int, w.tensors[i].data),
    ensures
        ({
            let t = w.tensors[i];
            let found = last_named(m.tensors, t.name);
            let n = data_bytes(t.dims, t.tensor_type) as int;
            &&& name_index(m.tensors).contains_key(t.name)
            &&& found == read_back(w, i)
            &&& data_end(found) <= data.len()
            &&& data.subrange(found.offset as int, data_end(found)) == t.data.take(n)
        }),
{
    let t = w.tensors[i];
    let n = data_bytes(t.dims, t.tensor_type) as int;
    lemma_name_index(m.tensors, t.name);
    assert(m.tensors[i].name == t.name);
    let j = name_index(m.tensors)[t.name] as int;
    assert(m.tensors[j] == read_back(w, j));
    assert(w.tensors[j].name == t.name);
    let at = w.offset(i) as int;
    assert(data.subrange(at, at + n) =~= data.subrange(at, at + t.data.len()).take(n));
}

/// A name that some tensor was written under can be bound.
pub proof fn law_written_name_is_bound(w: WriterView, m: ImageView, name: Seq<char>)
    requires
        readable(w),
        whole(w),
        w.tensors.len() <= usize::MAX,
        image_of(w.file()) == Ok::<ImageView, GgufFault>(m),
        exists|i: int| 0 <= i < w.tensors.len() && (#[trigger] w.tensors[i]).name == name,
    ensures
        slot_fault(m, w.file().len(), (Slot { name, required: true })) is None,
{
    law_file_round_trip(w);
    lemma_name_index(m.tensors, name);
    let i = choose|i: int| 0 <= i < w.tensors.len() && (#[trigger] w.tensors[i]).name == name;
    assert(m.tensors[i].name == name);
    let j = name_index(m.tensors)[name] as int;
    assert(m.tensors[j] == read_back(w, j));
    assert(stands_at(w.file(), w.offset(j) as int, w.tensors[j].data));
}

// The sample file

/// Where a tensor of a layer stands in the file.
pub open spec fn layer_place(il: nat, k: int) -> int {
    GLOBAL_TENSORS + LAYER_TENSORS * il + k
}

/// The tensors of the sample file, place by place.
proof fn lemma_places(d: Dims, n: nat)
    ensures
        file_tensors(d, n).len() == GLOBAL_TENSORS + LAYER_TENSORS * n,
        forall|k: int|
            0 <= k < GLOBAL_TENSORS ==> #[trigger] file_tensors(d, n)[k] == global_outline(
                d,
                k,
            ).entry(seq![]),
        forall|il: nat, k: int|
            il < n && 0 <= k < LAYER_TENSORS ==> file_tensors(d, n)[#[trigger] layer_place(il, k)]
                == layer_outline(d, k).entry(layer_prefix(il)),
    decreases n,
{
    if n > 0 {
        let m = (n - 1) as nat;
        lemma_places(d, m);
        assert forall|il: nat, k: int| il < n && 0 <= k < LAYER_TENSORS implies file_tensors(
            d,
            n,
        )[#[trigger] layer_place(il, k)] == layer_outline(d, k).entry(layer_prefix(il)) by {
            if il < m {
                assert(layer_place(il, k) < file_tensors(d, m).len());
            } else {
                assert(layer_place(il, k) - file_tensors(d, m).len() == k);
            }
        }
    }
}

/// An outline of a tensor of a layer, or of one outside the layers.
pub open spec fn outline_of(d: Dims, in_layer: bool, k: int) -> Outline {
    if in_layer {
        layer_outline(d, k)
    } else {
        global_outline(d, k)
    }
}

/// Every tensor of the sample file is that of an outline.
proof fn lemma_outlined(d: Dims, n: nat, i: int) -> (r: (bool, int, Seq<char>))
    requires
        0 <= i < file_tensors(d, n).len(),
    ensures
        file_tensors(d, n)[i] == outline_of(d, r.0, r.1).entry(r.2),
        r.0 ==> n > 0 && 0 <= r.1 < LAYER_TENSORS,
        !r.0 ==> 0 <= r.1 < GLOBAL_TENSORS,
    decreases n,
{
    lemma_places(d, n);
    if n == 0 {
        (false, i, seq![])
    } else {
        let m = (n - 1) as nat;
        lemma_places(d, m);
        if i < file_tensors(d, m).len() {
            let r = lemma_outlined(d, m, i);
            assert(file_tensors(d, n)[i] == file_tensors(d, m)[i]);
            r
        } else {
            let k = i - file_tensors(d, m).len();
            assert(file_tensors(d, n)[i] == layer_tensors(d, m)[k]);
            (true, k, layer_prefix(m))
        }
    }
}

/// The bytes of a unit of data.
pub open spec fn unit_len(tensor_type: u32) -> nat {
    if tensor_type == 8 {
        34
    } else if tensor_type == 1 {
        2
    } else {
        4
    }
}

/// A type that the sample file uses.
pub open spec fn sample_type(tensor_type: u32) -> bool {
    tensor_type == 0 || tensor_type == 1 || tensor_type == 8 || tensor_type == 26
}

proof fn lemma_data_len(o: Outline)
    requires
        sample_type(o.tensor_type),
        o.units() >= 0,
    ensures
        o.data().len() == o.units() * unit_len(o.tensor_type),
{
    let n = o.units() as nat;
    lemma_le_bytes_len(0x3f80_0000, 4);
    lemma_le_bytes_len(narrowed(0x3f80_0000) as nat, 2);
    lemma_le_bytes_len(narrowed(ONE_OF_127) as nat, 2);
    lemma_le_bytes_len(0, 4);
    lemma_repeated_len(le_bytes(0x3f80_0000, 4), n);
    lemma_repeated_len(le_bytes(narrowed(0x3f80_0000) as nat, 2), n);
    lemma_repeated_len(unit_block(), n);
    lemma_repeated_len(le_bytes(0, 4), n);
}

/// Dimensions that leave room to round up to blocks.
pub open spec fn modest(o: Outline) -> bool {
    &&& 0 <= o.inner <= u64::MAX - 32
    &&& 0 <= o.rows() <= u64::MAX - 32
}

proof fn lemma_units(o: Outline)
    requires
        sample_type(o.tensor_type),
        modest(o),
    ensures
        o.units() >= 0,
        o.tensor_type == 8 ==> 32 * o.units() >= o.inner * o.rows(),
        o.tensor_type != 8 ==> o.units() == o.inner * o.rows(),
        o.inner * o.rows() >= 0,
{
    let a = o.inner;
    let b = o.rows();
    let c = (a + 31) / 32;
    assert(a * b >= 0 && c * b >= 0 && 32 * (c * b) >= a * b) by (nonlinear_arith)
        requires
            a >= 0,
            b >= 0,
            c >= 0,
            32 * c >= a,
    ;
}

/// The product of the dimensions of an outline, without the zeros.
proof fn lemma_outline_product(o: Outline)
    requires
        modest(o),
    ensures
        nonzero_product(o.dims()) == if o.inner == 0 && o.rows() == 0 {
            1
        } else if o.inner == 0 {
            o.rows() as nat
        } else if o.rows() == 0 {
            o.inner as nat
        } else {
            (o.inner * o.rows()) as nat
        },
{
    reveal_with_fuel(nonzero_product, 3);
    let dims = o.dims();
    match o.outer {
        Some(n) => {
            assert(dims.drop_last() =~= seq![o.inner as u64]);
            assert(seq![o.inner as u64].drop_last() =~= seq![]);
        },
        None => {
            assert(dims.drop_last() =~= seq![]);
        },
    }
    let a = o.inner;
    let b = o.rows();
    assert(1 * a == a && 1 * b == b && a * 1 == a) by (nonlinear_arith);
}

/// A tensor of the sample file can be read back, and its data is as long as its descriptor says
/// where no dimension is zero.
proof fn lemma_outline_fits(o: Outline, prefix: Seq<char>)
    requires
        sample_type(o.tensor_type),
        modest(o),
        o.data().len() <= u64::MAX,
    ensures
        describable(o.entry(prefix)),
        o.inner > 0 && o.rows() > 0 ==> data_bytes(o.dims(), o.tensor_type) <= o.data().len(),
{
    lemma_units(o);
    lemma_data_len(o);
    lemma_outline_product(o);
    let p = o.inner * o.rows();
    let u = o.units();
    let t = o.tensor_type;
    let n = nonzero_product(o.dims());
    assert(u * unit_len(t) == if t == 8 {
        34 * u
    } else if t == 1 {
        2 * u
    } else {
        4 * u
    }) by (nonlinear_arith)
        requires
            unit_len(t) == if t == 8 {
                34nat
            } else if t == 1 {
                2nat
            } else {
                4nat
            },
    ;
    if o.inner > 0 && o.rows() > 0 {
        if t == 8 {
            assert(blocks_bytes(n, t) == (p + 31) / 32 * 34);
            let a = o.inner;
            let b = o.rows();
            let c = (a + 31) / 32;
            assert((a * b + 31) / 32 <= c * b) by (nonlinear_arith)
                requires
                    a >= 0,
                    b > 0,
                    32 * c >= a,
            ;
        } else {
            let bytes: int = if t == 1 {
                2
            } else {
                4
            };
            assert(type_table()[t as int].block_elems == 1 && type_table()[t as int].block_bytes
                == bytes);
            assert((n + 1 - 1) / 1 * bytes == p * bytes) by (nonlinear_arith)
                requires
                    n == p,
            ;
            assert(p * bytes == if t == 1 {
                2 * p
            } else {
                4 * p
            }) by (nonlinear_arith)
                requires
                    bytes == if t == 1 {
                        2int
                    } else {
                        4int
                    },
            ;
        }
    }
}

proof fn lemma_written_len(w: WriterView, i: int)
    requires
        w.fits(),
        0 <= i < w.tensors.len(),
    ensures
        w.tensors[i].data.len() <= u64::MAX,
{
    lemma_offset_bound(w, i as nat);
    lemma_end_bound(w, (i + 1) as nat);
}

/// The outlines of the sample file have modest dimensions, provided that the mixing vector has.
proof fn lemma_outline_modest(d: Dims, in_layer: bool, k: int)
    requires
        d.n_out_group > 0,
        in_layer ==> 0 <= k < LAYER_TENSORS && 2 * d.n_hc + d.n_hc * d.n_hc <= u64::MAX - 32,
        !in_layer ==> 0 <= k < GLOBAL_TENSORS,
    ensures
        sample_type(outline_of(d, in_layer, k).tensor_type),
        modest(outline_of(d, in_layer, k)),
{
    lemma_product(d.n_hc, d.n_embd);
    lemma_product(d.n_hc, d.n_hc);
    lemma_product(d.n_head, d.n_head_dim);
    lemma_product(d.n_indexer_head, d.n_indexer_head_dim);
    lemma_product(d.n_out_group, d.n_lora_o);
    lemma_product(d.n_head, d.n_indexer_head);
    lemma_product(d.n_head_dim, d.n_indexer_head_dim);
    lemma_product(d.n_expert, d.n_ff_exp);
    lemma_product(d.n_expert, d.n_embd);
    lemma_product((d.n_head / d.n_out_group) as u32, d.n_head_dim);
}

/// In a file that fits, the mixing vector of a layer is short.
proof fn lemma_mixing_vector(d: Dims)
    requires
        d.n_out_group > 0,
        d.n_layer > 0,
        file_view(d).fits(),
    ensures
        2 * d.n_hc + d.n_hc * d.n_hc <= u64::MAX - 32,
{
    let n = d.n_layer as nat;
    let w = file_view(d);
    lemma_places(d, n);
    let o = layer_outline(d, 2);
    let i = layer_place(0, 2);
    assert(w.tensors[i] == o.entry(layer_prefix(0)));
    lemma_written_len(w, i);
    lemma_product(d.n_hc, d.n_hc);
    let mix = 2 * d.n_hc + d.n_hc * d.n_hc;
    assert(o.units() == mix) by {
        assert(mix * 1 == mix) by (nonlinear_arith);
    }
    lemma_data_len(o);
    let len = unit_len(o.tensor_type);
    assert(mix * len >= 2 * mix) by (nonlinear_arith)
        requires
            mix >= 0,
            len >= 2,
    ;
    assert(w.tensors[i].data == o.data());
}

/// Every tensor of a sample file that fits can be read back, and is whole where no dimension is
/// zero.
proof fn lemma_tensors_fit(d: Dims, i: int)
    requires
        d.n_out_group > 0,
        file_view(d).fits(),
        0 <= i < file_view(d).tensors.len(),
    ensures
        describable(file_view(d).tensors[i]),
        solid(d) ==> data_bytes(
            file_view(d).tensors[i].dims,
            file_view(d).tensors[i].tensor_type,
        ) <= file_view(d).tensors[i].data.len(),
{
    let (in_layer, k, prefix) = lemma_outlined(d, d.n_layer as nat, i);
    if in_layer {
        lemma_mixing_vector(d);
    }
    lemma_outline_modest(d, in_layer, k);
    lemma_written_len(file_view(d), i);
    lemma_outline_fits(outline_of(d, in_layer, k), prefix);
}

/// No tensor of the sample file has a dimension of zero.
pub open spec fn solid(d: Dims) -> bool {
    &&& forall|k: int|
        0 <= k < GLOBAL_TENSORS ==> (#[trigger] global_outline(d, k)).inner > 0 && global_outline(
            d,
            k,
        ).rows() > 0
    &&& forall|k: int|
        0 <= k < LAYER_TENSORS ==> (#[trigger] layer_outline(d, k)).inner > 0 && layer_outline(
            d,
            k,
        ).rows() > 0
}

// Metadata

/// The value under a key is that of the last pair with the key.
proof fn lemma_metadata_lookup(kv: Seq<(Seq<char>, ValueView)>, i: int)
    requires
        0 <= i < kv.len(),
        kept_key(kv[i].0),
        forall|k: int| i < k < kv.len() ==> (#[trigger] kv[k]).0 != kv[i].0,
    ensures
        metadata_of(kv).kv.contains_key(kv[i].0),
        metadata_of(kv).kv[kv[i].0] == kv[i].1,
    decreases kv.len(),
{
    if i < kv.len() - 1 {
        let front = kv.drop_last();
        assert(front[i] == kv[i]);
        assert forall|k: int| i < k < front.len() implies (#[trigger] front[k]).0 != front[i].0 by {
            assert(front[k] == kv[k]);
        }
        lemma_metadata_lookup(front, i);
        assert(kv[kv.len() - 1].0 != kv[i].0);
    }
}

/// Where no pair sets the alignment, it is 32.
proof fn lemma_default_alignment(kv: Seq<(Seq<char>, ValueView)>)
    requires
        forall|k: int| 0 <= k < kv.len() ==> (#[trigger] kv[k]).0 != "general.alignment"@,
    ensures
        metadata_of(kv).alignment == 32,
    decreases kv.len(),
{
    if kv.len() > 0 {
        let front = kv.drop_last();
        assert forall|k: int| 0 <= k < front.len() implies (#[trigger] front[k]).0
            != "general.alignment"@ by {
            assert(front[k] == kv[k]);
        }
        lemma_default_alignment(front);
        assert(kv[kv.len() - 1].0 != "general.alignment"@);
    }
}

/// The keys of the sample file are kept, none of them sets the alignment, and they differ.
proof fn lemma_keys(d: Dims)
    ensures
        file_pairs(d).len() == 12,
        forall|k: int| 0 <= k < 12 ==> (#[trigger] file_pairs(d)[k]).0 != "general.alignment"@,
        forall|k: int| 2 <= k < 9 ==> kept_key((#[trigger] file_pairs(d)[k]).0),
        forall|i: int, k: int|
            2 <= i < 9 && i < k < 12 ==> (#[trigger] file_pairs(d)[i]).0 != (#[trigger] file_pairs(
                d,
            )[k]).0,
{
    reveal_strlit("general.alignment");
    reveal_strlit("general.architecture");
    reveal_strlit("general.name");
    reveal_strlit("ds4.n_layer");
    reveal_strlit("ds4.n_embd");
    reveal_strlit("ds4.vocab_size");
    reveal_strlit("ds4.attn_n_head");
    reveal_strlit("ds4.attn_n_head_kv");
    reveal_strlit("general.file_type");
    reveal_strlit("tokenizer.ggml.tokens");
    reveal_strlit("tokenizer.ggml.merges");
    reveal_strlit("tokenizer.ggml.bos_token_id");
    reveal_strlit("tokenizer.ggml.eos_token_id");
    reveal_strlit("ds4.");
    reveal_strlit("general.");
    reveal_strlit("tokenizer.");
    let p = file_pairs(d);
    assert(p[0].0.len() == 20);
    assert(p[1].0.len() == 12);
    assert(p[2].0.len() == 11);
    assert(p[3].0.len() == 10);
    assert(p[4].0.len() == 14);
    assert(p[5].0.len() == 15);
    assert(p[6].0.len() == 18);
    assert(p[7].0.len() == 17);
    assert(p[8].0.len() == 21);
    assert(p[9].0.len() == 21);
    assert(p[10].0.len() == 27);
    assert(p[11].0.len() == 27);
    assert("general.alignment"@.len() == 17 && "general.alignment"@[8] == 'a');
    assert(p[7].0[8] == 'f');
    assert(p[8].0[15] == 't' && p[9].0[15] == 'm');
    assert forall|k: int| 0 <= k < 12 implies (#[trigger] p[k]).0 != "general.alignment"@ by {
        assert(k == 0 || k == 1 || k == 2 || k == 3 || k == 4 || k == 5 || k == 6 || k == 7 || k
            == 8 || k == 9 || k == 10 || k == 11);
    }
    assert forall|i: int, k: int| 2 <= i < 9 && i < k < 12 implies (#[trigger] p[i]).0 != (
    #[trigger] p[k]).0 by {
        assert(i == 2 || i == 3 || i == 4 || i == 5 || i == 6 || i == 7 || i == 8);
        assert(k == 3 || k == 4 || k == 5 || k == 6 || k == 7 || k == 8 || k == 9 || k == 10 || k
            == 11);
    }
    assert("ds4."@ =~= p[2].0.subrange(0, 4));
    assert("ds4."@ =~= p[3].0.subrange(0, 4));
    assert("ds4."@ =~= p[4].0.subrange(0, 4));
    assert("ds4."@ =~= p[5].0.subrange(0, 4));
    assert("ds4."@ =~= p[6].0.subrange(0, 4));
    assert("general."@ =~= p[7].0.subrange(0, 8));
    assert("tokenizer."@ =~= p[8].0.subrange(0, 10));
}

/// The values of the sample file can be stored.
proof fn lemma_storable_pairs(d: Dims)
    ensures
        forall|i: int|
            0 <= i < file_pairs(d).len() ==> storable((#[trigger] file_pairs(d)[i]).1, 0),
{
    reveal_with_fuel(storable, 2);
    let p = file_pairs(d);
    assert(storable(p[8].1, 0)) by {
        let tokens = file_tokens(d.n_vocab);
        assert forall|j: int| 0 <= j < tokens.len() implies value_code(#[trigger] tokens[j]) == 8
            && storable(tokens[j], 1) by {
            assert(tokens[j] is Text);
        }
    }
    assert forall|i: int| 0 <= i < p.len() implies storable((#[trigger] p[i]).1, 0) by {
        assert(i == 0 || i == 1 || i == 2 || i == 3 || i == 4 || i == 5 || i == 6 || i == 7 || i
            == 8 || i == 9 || i == 10 || i == 11);
    }
}

/// A sample file that fits can be read.
pub proof fn law_sample_file_is_readable(d: Dims)
    requires
        d.n_out_group > 0,
        file_view(d).fits(),
    ensures
        readable(file_view(d)),
{
    let w = file_view(d);
    assert forall|i: int| 0 <= i < w.tensors.len() implies describable(
        #[trigger] w.tensors[i],
    ) by {
        lemma_tensors_fit(d, i);
    }
    lemma_storable_pairs(d);
    lemma_keys(d);
    lemma_default_alignment(w.kv);
    lemma_file_len(w);
}

/// A file with a metadata pair has at least 40 bytes.
proof fn lemma_file_len(w: WriterView)
    requires
        w.kv.len() > 0,
        w.kv.last().1 is Uint32,
    ensures
        w.file().len() >= 40,
{
    let (key, value) = w.kv.last();
    lemma_le_bytes_len(GGUF_MAGIC as nat, 4);
    lemma_le_bytes_len(w.version as nat, 4);
    lemma_le_bytes_len(w.tensors.len(), 8);
    lemma_le_bytes_len(w.kv.len(), 8);
    lemma_le_bytes_len(encode_utf8(key).len(), 8);
    lemma_le_bytes_len(value_code(value) as nat, 4);
    lemma_le_bytes_len(value->Uint32_0 as nat, 4);
    assert(pair_bytes(w.kv.last()).len() >= 16);
    assert(pairs_bytes(w.kv).len() >= 16);
    assert(w.header().len() == 24);
}

proof fn lemma_no_fault(m: ImageView, len: nat, slots: Seq<Slot>)
    requires
        forall|k: int| 0 <= k < slots.len() ==> slot_fault(m, len, #[trigger] slots[k]) is None,
    ensures
        first_fault(m, len, slots) is None,
    decreases slots.len(),
{
    if slots.len() > 0 {
        let front = slots.drop_last();
        assert forall|k: int| 0 <= k < front.len() implies slot_fault(
            m,
            len,
            #[trigger] front[k],
        ) is None by {
            assert(front[k] == slots[k]);
        }
        lemma_no_fault(m, len, front);
        assert(slot_fault(m, len, slots[slots.len() - 1]) is None);
    }
}

/// The sample file holds the tensors that are bound, under the names that they are bound by.
proof fn lemma_outline_names(d: Dims)
    ensures
        forall|k: int|
            0 <= k < GLOBAL_TENSORS ==> (#[trigger] global_outline(d, k)).name
                == global_slots()[k].name,
        forall|k: int|
            0 <= k < LAYER_TENSORS ==> (#[trigger] layer_outline(d, k)).name
                == layer_slots()[k].name,
{
}

/// The tensors of the first `n` layers can be bound.
proof fn lemma_slots_bound(d: Dims, m: ImageView, n: nat)
    requires
        n <= d.n_layer,
        readable(file_view(d)),
        whole(file_view(d)),
        file_view(d).tensors.len() <= usize::MAX,
        image_of(file_view(d).file()) == Ok::<ImageView, GgufFault>(m),
    ensures
        first_fault(m, file_view(d).file().len(), all_slots(n)) is None,
    decreases n,
{
    let w = file_view(d);
    let len = w.file().len();
    lemma_places(d, d.n_layer as nat);
    lemma_outline_names(d);
    if n == 0 {
        let slots = global_slots();
        assert forall|k: int| 0 <= k < slots.len() implies slot_fault(
            m,
            len,
            #[trigger] slots[k],
        ) is None by {
            let o = global_outline(d, k);
            assert(seq![] + o.name =~= o.name);
            assert(w.tensors[k].name == slots[k].name);
            law_written_name_is_bound(w, m, slots[k].name);
        }
        lemma_no_fault(m, len, slots);
    } else {
        let il = (n - 1) as nat;
        lemma_slots_bound(d, m, il);
        let slots = one_layer(il);
        assert forall|k: int| 0 <= k < slots.len() implies slot_fault(
            m,
            len,
            #[trigger] slots[k],
        ) is None by {
            assert(w.tensors[layer_place(il, k)].name == slots[k].name);
            law_written_name_is_bound(w, m, slots[k].name);
        }
        lemma_no_fault(m, len, slots);
        lemma_fault_concat(m, len, all_slots(il), slots);
    }
}

/// What reading the sample file gives for the sizes and for the tokens.
proof fn lemma_sizes_read(d: Dims)
    ensures
        config_fault(metadata_of(file_pairs(d)).kv, d, false) is None,
        vocab_size(metadata_of(file_pairs(d)).kv) == Some(d.n_vocab),
        metadata_of(file_pairs(d)).kv.contains_key("tokenizer.ggml.tokens"@),
        metadata_of(file_pairs(d)).kv["tokenizer.ggml.tokens"@] == ValueView::Array(
            8,
            file_tokens(d.n_vocab),
        ),
{
    let p = file_pairs(d);
    lemma_keys(d);
    assert(p[2].0 == "ds4.n_layer"@ && p[2].1 == ValueView::Uint32(d.n_layer));
    assert(p[3].0 == "ds4.n_embd"@ && p[3].1 == ValueView::Uint32(d.n_embd));
    assert(p[4].0 == "ds4.vocab_size"@ && p[4].1 == ValueView::Uint32(d.n_vocab));
    assert(p[5].0 == "ds4.attn_n_head"@ && p[5].1 == ValueView::Uint32(d.n_head));
    assert(p[6].0 == "ds4.attn_n_head_kv"@ && p[6].1 == ValueView::Uint32(d.n_head_kv));
    assert(p[8].0 == "tokenizer.ggml.tokens"@);
    lemma_metadata_lookup(p, 2);
    lemma_metadata_lookup(p, 3);
    lemma_metadata_lookup(p, 4);
    lemma_metadata_lookup(p, 5);
    lemma_metadata_lookup(p, 6);
    lemma_metadata_lookup(p, 8);
}

/// The metadata that a readable file gives.
proof fn lemma_image_metadata(w: WriterView, m: ImageView)
    requires
        readable(w),
        image_of(w.file()) == Ok::<ImageView, GgufFault>(m),
    ensures
        m.kv == metadata_of(w.kv).kv,
{
    law_file_round_trip(w);
}

/// A sample file without empty dimensions passes the checks of its sizes, and all its tensors can be
/// bound.
pub proof fn law_sample_file_binds(d: Dims, m: ImageView)
    requires
        d.n_out_group > 0,
        solid(d),
        file_view(d).fits(),
        file_view(d).tensors.len() <= usize::MAX,
        image_of(file_view(d).file()) == Ok::<ImageView, GgufFault>(m),
    ensures
        config_fault(m.kv, d, false) is None,
        first_fault(m, file_view(d).file().len(), all_slots(d.n_layer as nat)) is None,
{
    let w = file_view(d);
    law_sample_file_is_readable(d);
    assert forall|i: int| 0 <= i < w.tensors.len() implies data_bytes(
        (#[trigger] w.tensors[i]).dims,
        w.tensors[i].tensor_type,
    ) <= w.tensors[i].data.len() by {
        lemma_tensors_fit(d, i);
    }
    lemma_slots_bound(d, m, d.n_layer as nat);
    lemma_image_metadata(w, m);
    lemma_sizes_read(d);
}

/// The texts among values that are all texts are the values.
proof fn lemma_all_texts(vs: Seq<ValueView>)
    requires
        forall|i: int| 0 <= i < vs.len() ==> (#[trigger] vs[i]) is Text,
    ensures
        strings_of(vs) == Seq::new(vs.len(), |i: int| vs[i]->Text_0),
    decreases vs.len(),
{
    if vs.len() > 0 {
        let front = vs.drop_last();
        assert forall|i: int| 0 <= i < front.len() implies (#[trigger] front[i]) is Text by {
            assert(front[i] == vs[i]);
        }
        lemma_all_texts(front);
        assert(vs[vs.len() - 1] is Text);
    }
    assert(strings_of(vs) =~= Seq::new(vs.len(), |i: int| vs[i]->Text_0));
}

/// A sample file of a model with room for the first tokens holds a vocabulary: its tokens, in order.
pub proof fn law_sample_file_has_vocabulary(d: Dims, m: ImageView)
    requires
        d.n_out_group > 0,
        d.n_vocab >= first_tokens().len(),
        file_view(d).fits(),
        image_of(file_view(d).file()) == Ok::<ImageView, GgufFault>(m),
    ensures
        vocab_fault(m.kv) is None,
        string_array(m.kv, "tokenizer.ggml.tokens"@) == Seq::new(
            d.n_vocab as nat,
            |i: int| file_token(i),
        ),
{
    let w = file_view(d);
    law_sample_file_is_readable(d);
    lemma_image_metadata(w, m);
    lemma_sizes_read(d);
    lemma_all_texts(file_tokens(d.n_vocab));
    assert(string_array(m.kv, "tokenizer.ggml.tokens"@) =~= Seq::new(
        d.n_vocab as nat,
        |i: int| file_token(i),
    ));
}

} // verus!

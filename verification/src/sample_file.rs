//! A model file made up in memory, with metadata, a small vocabulary and every weight set to one.
use crate::bytes::{le_bytes, push_le};
use crate::constants::Dims;
use crate::gguf::{GgufArray, GgufValue, ValueView};
use crate::gguf_writer::{GgufWriter, TensorEntry, WriterView};
use crate::half::{f32_to_f16, narrowed};
use crate::model::{layer_prefix, GLOBAL_TENSORS, LAYER_TENSORS};
use crate::sample_model::{alloc_f16_buf, alloc_f32_buf, alloc_i32_zero_buf, repeated};
use crate::text::{decimal, push_decimal};
use vstd::prelude::*;

verus! {

/// A tensor of the file: its name, its type (0 for 32-bit floats, 1 for halves, 8 for quantized
/// blocks, 26 for 32-bit integers), and one dimension or two.
pub struct Outline {
    pub name: Seq<char>,
    pub tensor_type: u32,
    pub inner: int,
    pub outer: Option<int>,
}

/// An outline.
pub open spec fn outline(
    name: Seq<char>,
    tensor_type: u32,
    inner: int,
    outer: Option<int>,
) -> Outline {
    Outline { name, tensor_type, inner, outer }
}

/// The tensors outside the layers.
pub open spec fn global_outline(d: Dims, k: int) -> Outline {
    if k == 0 {
        outline(
            "token_embd.weight"@,
            1,
            d.n_vocab as int,
            Some(d.n_embd as int),
        )
    } else if k == 1 {
        outline(
            "output_hc_base.weight"@,
            0,
            d.n_hc as int,
            None,
        )
    } else if k == 2 {
        outline(
            "output_hc_fn.weight"@,
            1,
            d.n_hc * d.n_embd,
            Some(d.n_hc as int),
        )
    } else if k == 3 {
        outline(
            "output_hc_scale.weight"@,
            0,
            1,
            None,
        )
    } else if k == 4 {
        outline(
            "output_norm.weight"@,
            0,
            d.n_embd as int,
            None,
        )
    } else {
        outline(
            "output.weight"@,
            8,
            d.n_embd as int,
            Some(d.n_vocab as int),
        )
    }
}

/// The tensors of a layer, by the ends of their names.
pub open spec fn layer_outline(d: Dims, k: int) -> Outline {
    if k == 0 {
        outline(
            "hc_attn_fn.weight"@,
            1,
            d.n_hc * d.n_embd,
            Some(2 * d.n_hc + d.n_hc * d.n_hc),
        )
    } else if k == 1 {
        outline(
            "hc_attn_scale.weight"@,
            0,
            3,
            None,
        )
    } else if k == 2 {
        outline(
            "hc_attn_base.weight"@,
            0,
            2 * d.n_hc + d.n_hc * d.n_hc,
            None,
        )
    } else if k == 3 {
        outline(
            "attn_norm.weight"@,
            0,
            d.n_embd as int,
            None,
        )
    } else if k == 4 {
        outline(
            "attn_q_a.weight"@,
            8,
            d.n_embd as int,
            Some(d.n_lora_q as int),
        )
    } else if k == 5 {
        outline(
            "attn_q_a_norm.weight"@,
            0,
            d.n_lora_q as int,
            None,
        )
    } else if k == 6 {
        outline(
            "attn_q_b.weight"@,
            8,
            d.n_lora_q as int,
            Some(d.n_head * d.n_head_dim),
        )
    } else if k == 7 {
        outline(
            "attn_kv.weight"@,
            8,
            d.n_embd as int,
            Some(d.n_head_dim as int),
        )
    } else if k == 8 {
        outline(
            "attn_kv_a_norm.weight"@,
            0,
            d.n_head_dim as int,
            None,
        )
    } else if k == 9 {
        outline(
            "attn_sinks.weight"@,
            1,
            1,
            Some(d.n_head_dim as int),
        )
    } else if k == 10 {
        outline(
            "attn_output_a.weight"@,
            8,
            d.n_head as int / d.n_out_group as int * d.n_head_dim,
            Some(d.n_out_group * d.n_lora_o),
        )
    } else if k == 11 {
        outline(
            "attn_output_b.weight"@,
            8,
            d.n_out_group * d.n_lora_o,
            Some(d.n_embd as int),
        )
    } else if k == 12 {
        outline(
            "attn_compressor_ape.weight"@,
            0,
            d.n_head * d.n_head_dim,
            None,
        )
    } else if k == 13 {
        outline(
            "attn_compressor_kv.weight"@,
            1,
            d.n_head * d.n_head_dim,
            Some(d.n_embd as int),
        )
    } else if k == 14 {
        outline(
            "attn_compressor_gate.weight"@,
            0,
            d.n_head * d.n_head_dim,
            None,
        )
    } else if k == 15 {
        outline(
            "attn_compressor_norm.weight"@,
            0,
            d.n_head * d.n_head_dim,
            None,
        )
    } else if k == 16 {
        outline(
            "indexer.attn_q_b.weight"@,
            1,
            d.n_indexer_head * d.n_indexer_head_dim,
            Some(d.n_embd as int),
        )
    } else if k == 17 {
        outline(
            "indexer.proj.weight"@,
            1,
            d.n_head * d.n_indexer_head,
            Some(d.n_head_dim * d.n_indexer_head_dim),
        )
    } else if k == 18 {
        outline(
            "indexer_compressor_ape.weight"@,
            0,
            d.n_indexer_head * d.n_indexer_head_dim,
            None,
        )
    } else if k == 19 {
        outline(
            "indexer_compressor_kv.weight"@,
            1,
            d.n_indexer_head * d.n_indexer_head_dim,
            Some(d.n_embd as int),
        )
    } else if k == 20 {
        outline(
            "indexer_compressor_gate.weight"@,
            0,
            d.n_indexer_head * d.n_indexer_head_dim,
            None,
        )
    } else if k == 21 {
        outline(
            "indexer_compressor_norm.weight"@,
            0,
            d.n_indexer_head * d.n_indexer_head_dim,
            None,
        )
    } else if k == 22 {
        outline(
            "hc_ffn_fn.weight"@,
            1,
            d.n_hc * d.n_embd,
            Some(2 * d.n_hc + d.n_hc * d.n_hc),
        )
    } else if k == 23 {
        outline(
            "hc_ffn_scale.weight"@,
            0,
            3,
            None,
        )
    } else if k == 24 {
        outline(
            "hc_ffn_base.weight"@,
            0,
            2 * d.n_hc + d.n_hc * d.n_hc,
            None,
        )
    } else if k == 25 {
        outline(
            "ffn_norm.weight"@,
            0,
            d.n_embd as int,
            None,
        )
    } else if k == 26 {
        outline(
            "ffn_gate_tid2eid.weight"@,
            26,
            d.n_vocab as int,
            Some(d.n_expert_used as int),
        )
    } else if k == 27 {
        outline(
            "ffn_gate_inp.weight"@,
            1,
            d.n_embd as int,
            Some(d.n_expert as int),
        )
    } else if k == 28 {
        outline(
            "exp_probs_b.bias"@,
            0,
            d.n_head * d.n_head_dim,
            None,
        )
    } else if k == 29 {
        outline(
            "ffn_gate_exps.weight"@,
            1,
            d.n_embd as int,
            Some(d.n_expert * d.n_ff_exp),
        )
    } else if k == 30 {
        outline(
            "ffn_up_exps.weight"@,
            1,
            d.n_embd as int,
            Some(d.n_expert * d.n_ff_exp),
        )
    } else if k == 31 {
        outline(
            "ffn_down_exps.weight"@,
            1,
            d.n_ff_exp as int,
            Some(d.n_expert * d.n_embd),
        )
    } else if k == 32 {
        outline(
            "ffn_gate_shexp.weight"@,
            8,
            d.n_embd as int,
            Some(d.n_ff_exp as int),
        )
    } else if k == 33 {
        outline(
            "ffn_up_shexp.weight"@,
            8,
            d.n_embd as int,
            Some(d.n_ff_exp as int),
        )
    } else {
        outline(
            "ffn_down_shexp.weight"@,
            8,
            d.n_ff_exp as int,
            Some(d.n_embd as int),
        )
    }
}

/// One of 127 in a half: the scale of the quantized blocks.
pub const ONE_OF_127: u32 = 0x3c01_0204;

/// A quantized block whose 32 values are one.
pub open spec fn unit_block() -> Seq<u8> {
    le_bytes(narrowed(ONE_OF_127) as nat, 2) + Seq::new(32, |i: int| 127u8)
}

impl Outline {
    /// The rows behind the first.
    pub open spec fn rows(self) -> int {
        match self.outer {
            Some(n) => n,
            None => 1,
        }
    }

    /// How many units the data is made of: blocks of 32 per row, or elements.
    pub open spec fn units(self) -> int {
        if self.tensor_type == 8 {
            (self.inner + 31) / 32 * self.rows()
        } else {
            self.inner * self.rows()
        }
    }

    /// The dimensions.
    pub open spec fn dims(self) -> Seq<u64> {
        match self.outer {
            Some(n) => seq![self.inner as u64, n as u64],
            None => seq![self.inner as u64],
        }
    }

    /// The data: every weight is one, and every integer is zero.
    pub open spec fn data(self) -> Seq<u8> {
        let n = self.units() as nat;
        if self.tensor_type == 0 {
            repeated(le_bytes(0x3f80_0000, 4), n)
        } else if self.tensor_type == 1 {
            repeated(le_bytes(narrowed(0x3f80_0000) as nat, 2), n)
        } else if self.tensor_type == 8 {
            repeated(unit_block(), n)
        } else {
            repeated(le_bytes(0, 4), n)
        }
    }

    /// The tensor, under its full name.
    pub open spec fn entry(self, prefix: Seq<char>) -> TensorEntry {
        TensorEntry {
            name: prefix + self.name,
            dims: self.dims(),
            tensor_type: self.tensor_type,
            data: self.data(),
        }
    }
}

/// The units of every tensor can be counted.
pub open spec fn writable(d: Dims) -> bool {
    &&& d.n_out_group > 0
    &&& forall|k: int|
        0 <= k < GLOBAL_TENSORS ==> (#[trigger] global_outline(d, k)).units() <= usize::MAX
    &&& forall|k: int|
        0 <= k < LAYER_TENSORS ==> (#[trigger] layer_outline(d, k)).units() <= usize::MAX
}

// The vocabulary

/// The tokens that the vocabulary starts with.
pub open spec fn first_tokens() -> Seq<Seq<char>> {
    seq![
        "<unk>"@,
        "<｜begin▁of▁sentence｜>"@,
        "<｜end▁of▁sentence｜>"@,
        "<｜User｜>"@,
        "<｜Assistant｜>"@,
        "<think>"@,
        "</think>"@,
        "｜DSML｜"@,
        "the"@,
        "Hello"@,
        "a"@,
        "is"@,
        "of"@,
        "and"@,
        "to"@,
        "world"@,
        " "@,
        "H"@,
        "e"@,
        "l"@,
        "o"@,
        "w"@,
        "r"@,
        "d"@,
        "t"@,
        "test"@,
    ]
}

/// A token of the vocabulary: one of the first, or one named by its number.
pub open spec fn file_token(i: int) -> Seq<char> {
    if i < first_tokens().len() {
        first_tokens()[i]
    } else {
        "<tok_"@ + decimal(i as nat) + ">"@
    }
}

/// The tokens of the vocabulary: as many as the model asks for, but at least the first ones.
pub open spec fn file_tokens(n_vocab: u32) -> Seq<ValueView> {
    Seq::new(
        if n_vocab <= 26 {
            26
        } else {
            n_vocab as nat
        },
        |i: int| ValueView::Text(file_token(i)),
    )
}

/// The metadata of the file.
pub open spec fn file_pairs(d: Dims) -> Seq<(Seq<char>, ValueView)> {
    seq![
        ("general.architecture"@, ValueView::Text("ds4"@)),
        ("general.name"@, ValueView::Text("test_model"@)),
        ("ds4.n_layer"@, ValueView::Uint32(d.n_layer)),
        ("ds4.n_embd"@, ValueView::Uint32(d.n_embd)),
        ("ds4.vocab_size"@, ValueView::Uint32(d.n_vocab)),
        ("ds4.attn_n_head"@, ValueView::Uint32(d.n_head)),
        ("ds4.attn_n_head_kv"@, ValueView::Uint32(d.n_head_kv)),
        ("general.file_type"@, ValueView::Uint32(1)),
        ("tokenizer.ggml.tokens"@, ValueView::Array(8, file_tokens(d.n_vocab))),
        ("tokenizer.ggml.merges"@, ValueView::Array(8, seq![])),
        ("tokenizer.ggml.bos_token_id"@, ValueView::Uint32(1)),
        ("tokenizer.ggml.eos_token_id"@, ValueView::Uint32(2)),
    ]
}

/// The tensors outside the layers, and then those of the first `n` layers.
pub open spec fn file_tensors(d: Dims, n: nat) -> Seq<TensorEntry>
    decreases n,
{
    if n == 0 {
        Seq::new(GLOBAL_TENSORS as nat, |k: int| global_outline(d, k).entry(seq![]))
    } else {
        file_tensors(d, (n - 1) as nat) + layer_tensors(d, (n - 1) as nat)
    }
}

/// The tensors of a layer.
pub open spec fn layer_tensors(d: Dims, il: nat) -> Seq<TensorEntry> {
    Seq::new(LAYER_TENSORS as nat, |k: int| layer_outline(d, k).entry(layer_prefix(il)))
}

/// The file of a model.
pub open spec fn file_view(d: Dims) -> WriterView {
    WriterView {
        version: 3,
        alignment: 32,
        kv: file_pairs(d),
        tensors: file_tensors(d, d.n_layer as nat),
    }
}

fn first_token(i: usize) -> (r: &'static str)
    requires
        i < 26,
    ensures
        r@ == first_tokens()[i as int],
{
    match i {
        0 => "<unk>",
        1 => "<｜begin▁of▁sentence｜>",
        2 => "<｜end▁of▁sentence｜>",
        3 => "<｜User｜>",
        4 => "<｜Assistant｜>",
        5 => "<think>",
        6 => "</think>",
        7 => "｜DSML｜",
        8 => "the",
        9 => "Hello",
        10 => "a",
        11 => "is",
        12 => "of",
        13 => "and",
        14 => "to",
        15 => "world",
        16 => " ",
        17 => "H",
        18 => "e",
        19 => "l",
        20 => "o",
        21 => "w",
        22 => "r",
        23 => "d",
        24 => "t",
        _ => "test",
    }
}

fn make_tokens(n_vocab: u32) -> (r: Vec<GgufValue>)
    ensures
        Seq::new(r@.len(), |i: int| r@[i]@) == file_tokens(n_vocab),
{
    let n: u32 = if n_vocab <= 26 {
        26
    } else {
        n_vocab
    };
    let mut r: Vec<GgufValue> = Vec::new();
    let mut i: u32 = 0;
    while i < n
        invariant
            i <= n,
            n == file_tokens(n_vocab).len(),
            r@.len() == i,
            forall|k: int| 0 <= k < i ==> (#[trigger] r@[k])@ == file_tokens(n_vocab)[k],
        decreases n - i,
    {
        let text: String = if i < 26 {
            first_token(i as usize).to_owned()
        } else {
            let mut t = "<tok_".to_owned();
            push_decimal(&mut t, i as u64);
            t.append(">");
            t
        };
        r.push(GgufValue::String(text));
        i = i + 1;
    }
    assert(Seq::new(r@.len(), |i: int| r@[i]@) =~= file_tokens(n_vocab));
    r
}

fn global_size(d: &Dims, k: usize) -> (r: (&'static str, u32, u64, Option<u64>))
    requires
        k < GLOBAL_TENSORS,
    ensures
        sized(global_outline(*d, k as int), r),
{
    let n_vocab: u64 = d.n_vocab as u64;
    let n_embd: u64 = d.n_embd as u64;
    let n_hc: u64 = d.n_hc as u64;
    proof {
        lemma_products(*d);
    }
    match k {
        0 => ("token_embd.weight", 1, n_vocab, Some(n_embd)),
        1 => ("output_hc_base.weight", 0, n_hc, None),
        2 => ("output_hc_fn.weight", 1, n_hc * n_embd, Some(n_hc)),
        3 => ("output_hc_scale.weight", 0, 1, None),
        4 => ("output_norm.weight", 0, n_embd, None),
        _ => ("output.weight", 8, n_embd, Some(n_vocab)),
    }
}

fn layer_size(d: &Dims, k: usize) -> (r: (&'static str, u32, u64, Option<u64>))
    requires
        d.n_out_group > 0,
        k < LAYER_TENSORS,
    ensures
        sized(layer_outline(*d, k as int), r),
{
    let n_vocab: u64 = d.n_vocab as u64;
    let n_embd: u64 = d.n_embd as u64;
    let n_hc: u64 = d.n_hc as u64;
    let n_head: u64 = d.n_head as u64;
    let n_head_dim: u64 = d.n_head_dim as u64;
    let n_lora_q: u64 = d.n_lora_q as u64;
    let n_lora_o: u64 = d.n_lora_o as u64;
    let n_out_group: u64 = d.n_out_group as u64;
    let n_indexer_head: u64 = d.n_indexer_head as u64;
    let n_indexer_head_dim: u64 = d.n_indexer_head_dim as u64;
    let n_expert: u64 = d.n_expert as u64;
    let n_expert_used: u64 = d.n_expert_used as u64;
    let n_ff_exp: u64 = d.n_ff_exp as u64;
    proof {
        lemma_products(*d);
    }
    match k {
        0 => ("hc_attn_fn.weight", 1, n_hc * n_embd, Some(2 * n_hc + n_hc * n_hc)),
        1 => ("hc_attn_scale.weight", 0, 3, None),
        2 => ("hc_attn_base.weight", 0, 2 * n_hc + n_hc * n_hc, None),
        3 => ("attn_norm.weight", 0, n_embd, None),
        4 => ("attn_q_a.weight", 8, n_embd, Some(n_lora_q)),
        5 => ("attn_q_a_norm.weight", 0, n_lora_q, None),
        6 => ("attn_q_b.weight", 8, n_lora_q, Some(n_head * n_head_dim)),
        7 => ("attn_kv.weight", 8, n_embd, Some(n_head_dim)),
        8 => ("attn_kv_a_norm.weight", 0, n_head_dim, None),
        9 => ("attn_sinks.weight", 1, 1, Some(n_head_dim)),
        10 => (
            "attn_output_a.weight",
            8,
            n_head / n_out_group * n_head_dim,
            Some(n_out_group * n_lora_o),
        ),
        11 => ("attn_output_b.weight", 8, n_out_group * n_lora_o, Some(n_embd)),
        12 => ("attn_compressor_ape.weight", 0, n_head * n_head_dim, None),
        13 => ("attn_compressor_kv.weight", 1, n_head * n_head_dim, Some(n_embd)),
        14 => ("attn_compressor_gate.weight", 0, n_head * n_head_dim, None),
        15 => ("attn_compressor_norm.weight", 0, n_head * n_head_dim, None),
        16 => ("indexer.attn_q_b.weight", 1, n_indexer_head * n_indexer_head_dim, Some(n_embd)),
        17 => (
            "indexer.proj.weight",
            1,
            n_head * n_indexer_head,
            Some(n_head_dim * n_indexer_head_dim),
        ),
        18 => ("indexer_compressor_ape.weight", 0, n_indexer_head * n_indexer_head_dim, None),
        19 => ("indexer_compressor_kv.weight", 1, n_indexer_head * n_indexer_head_dim, Some(n_embd)),
        20 => ("indexer_compressor_gate.weight", 0, n_indexer_head * n_indexer_head_dim, None),
        21 => ("indexer_compressor_norm.weight", 0, n_indexer_head * n_indexer_head_dim, None),
        22 => ("hc_ffn_fn.weight", 1, n_hc * n_embd, Some(2 * n_hc + n_hc * n_hc)),
        23 => ("hc_ffn_scale.weight", 0, 3, None),
        24 => ("hc_ffn_base.weight", 0, 2 * n_hc + n_hc * n_hc, None),
        25 => ("ffn_norm.weight", 0, n_embd, None),
        26 => ("ffn_gate_tid2eid.weight", 26, n_vocab, Some(n_expert_used)),
        27 => ("ffn_gate_inp.weight", 1, n_embd, Some(n_expert)),
        28 => ("exp_probs_b.bias", 0, n_head * n_head_dim, None),
        29 => ("ffn_gate_exps.weight", 1, n_embd, Some(n_expert * n_ff_exp)),
        30 => ("ffn_up_exps.weight", 1, n_embd, Some(n_expert * n_ff_exp)),
        31 => ("ffn_down_exps.weight", 1, n_ff_exp, Some(n_expert * n_embd)),
        32 => ("ffn_gate_shexp.weight", 8, n_embd, Some(n_ff_exp)),
        33 => ("ffn_up_shexp.weight", 8, n_embd, Some(n_ff_exp)),
        _ => ("ffn_down_shexp.weight", 8, n_ff_exp, Some(n_embd)),
    }
}

/// The outline that a name, a type and dimensions make.
pub open spec fn sized(o: Outline, r: (&'static str, u32, u64, Option<u64>)) -> bool {
    &&& o.name == r.0@
    &&& o.tensor_type == r.1
    &&& o.tensor_type == 0 || o.tensor_type == 1 || o.tensor_type == 8 || o.tensor_type == 26
    &&& o.inner == r.2
    &&& o.outer == match r.3 {
        Some(n) => Some(n as int),
        None => None::<int>,
    }
}

pub(crate) proof fn lemma_product(a: u32, b: u32)
    ensures
        0 <= a * b <= 0xffff_ffff * 0xffff_ffff,
{
    assert(0 <= a * b <= 0xffff_ffff * 0xffff_ffff) by (nonlinear_arith)
        requires
            0 <= a <= 0xffff_ffff,
            0 <= b <= 0xffff_ffff,
    ;
}

/// The products that make up dimensions fit in 64 bits.
proof fn lemma_products(d: Dims)
    ensures
        0 <= d.n_hc * d.n_embd <= u64::MAX,
        0 <= d.n_hc * d.n_hc,
        2 * d.n_hc + d.n_hc * d.n_hc <= u64::MAX,
        0 <= d.n_head * d.n_head_dim <= u64::MAX,
        0 <= d.n_indexer_head * d.n_indexer_head_dim <= u64::MAX,
        0 <= d.n_out_group * d.n_lora_o <= u64::MAX,
        0 <= d.n_head * d.n_indexer_head <= u64::MAX,
        0 <= d.n_head_dim * d.n_indexer_head_dim <= u64::MAX,
        0 <= d.n_expert * d.n_ff_exp <= u64::MAX,
        0 <= d.n_expert * d.n_embd <= u64::MAX,
        d.n_out_group > 0 ==> 0 <= d.n_head as int / d.n_out_group as int * d.n_head_dim
            <= u64::MAX,
{
    lemma_product(d.n_hc, d.n_embd);
    lemma_product(d.n_hc, d.n_hc);
    lemma_product(d.n_head, d.n_head_dim);
    lemma_product(d.n_indexer_head, d.n_indexer_head_dim);
    lemma_product(d.n_out_group, d.n_lora_o);
    lemma_product(d.n_head, d.n_indexer_head);
    lemma_product(d.n_head_dim, d.n_indexer_head_dim);
    lemma_product(d.n_expert, d.n_ff_exp);
    lemma_product(d.n_expert, d.n_embd);
    if d.n_out_group > 0 {
        lemma_product((d.n_head / d.n_out_group) as u32, d.n_head_dim);
    }
}

fn unit_blocks(n: usize) -> (r: Vec<u8>)
    ensures
        r@ == repeated(unit_block(), n as nat),
{
    let scale: u16 = f32_to_f16(ONE_OF_127);
    let mut r: Vec<u8> = Vec::new();
    let mut i: usize = 0;
    while i < n
        invariant
            i <= n,
            scale == narrowed(ONE_OF_127),
            r@ == repeated(unit_block(), i as nat),
        decreases n - i,
    {
        let ghost before = r@;
        push_le(&mut r, scale as u64, 2);
        let ghost with_scale = r@;
        let mut k: usize = 0;
        while k < 32
            invariant
                k <= 32,
                r@ =~= with_scale + Seq::new(k as nat, |j: int| 127u8),
            decreases 32 - k,
        {
            r.push(127);
            k = k + 1;
        }
        assert(r@ =~= before + unit_block());
        i = i + 1;
    }
    r
}

fn add_outline(
    w: &mut GgufWriter,
    name: &str,
    tensor_type: u32,
    inner: u64,
    outer: Option<u64>,
    Ghost(o): Ghost<Outline>,
    Ghost(prefix): Ghost<Seq<char>>,
)
    requires
        name@ == prefix + o.name,
        o.tensor_type == tensor_type,
        tensor_type == 0 || tensor_type == 1 || tensor_type == 8 || tensor_type == 26,
        o.inner == inner,
        o.outer == match outer {
            Some(n) => Some(n as int),
            None => None::<int>,
        },
        o.units() <= usize::MAX,
    ensures
        final(w)@ == (WriterView {
            tensors: old(w)@.tensors.push(o.entry(prefix)),
            ..old(w)@
        }),
{
    let rows: u64 = match outer {
        Some(n) => n,
        None => 1,
    };
    let per_row: u64 = if tensor_type == 8 {
        inner / 32 + if inner % 32 == 0 {
            0
        } else {
            1
        }
    } else {
        inner
    };
    proof {
        assert(per_row * rows == o.units());
        assert(0 <= per_row * rows) by (nonlinear_arith);
    }
    let units: usize = (per_row * rows) as usize;
    let data: Vec<u8> = if tensor_type == 0 {
        alloc_f32_buf(units, 0x3f80_0000)
    } else if tensor_type == 1 {
        alloc_f16_buf(units, f32_to_f16(0x3f80_0000))
    } else if tensor_type == 8 {
        unit_blocks(units)
    } else {
        alloc_i32_zero_buf(units)
    };
    let mut dims: Vec<u64> = Vec::new();
    dims.push(inner);
    match outer {
        Some(n) => {
            dims.push(n);
        },
        None => {},
    }
    assert(dims@ =~= o.dims());
    w.add_tensor(name, dims, tensor_type, data);
}

fn add_pairs(w: &mut GgufWriter, d: &Dims)
    ensures
        final(w)@ == (WriterView { kv: old(w)@.kv + file_pairs(*d), ..old(w)@ }),
{
    let tokens = make_tokens(d.n_vocab);
    let none: Vec<GgufValue> = Vec::new();
    w.add_meta("general.architecture", GgufValue::String("ds4".to_owned()));
    w.add_meta("general.name", GgufValue::String("test_model".to_owned()));
    w.add_meta("ds4.n_layer", GgufValue::Uint32(d.n_layer));
    w.add_meta("ds4.n_embd", GgufValue::Uint32(d.n_embd));
    w.add_meta("ds4.vocab_size", GgufValue::Uint32(d.n_vocab));
    w.add_meta("ds4.attn_n_head", GgufValue::Uint32(d.n_head));
    w.add_meta("ds4.attn_n_head_kv", GgufValue::Uint32(d.n_head_kv));
    w.add_meta("general.file_type", GgufValue::Uint32(1));
    let token_array = GgufValue::Array(GgufArray { element_type: 8, elements: tokens });
    assert(token_array@->Array_1 =~= file_tokens(d.n_vocab));
    w.add_meta("tokenizer.ggml.tokens", token_array);
    let merge_array = GgufValue::Array(GgufArray { element_type: 8, elements: none });
    assert(merge_array@->Array_1 =~= seq![]);
    w.add_meta("tokenizer.ggml.merges", merge_array);
    w.add_meta("tokenizer.ggml.bos_token_id", GgufValue::Uint32(1));
    w.add_meta("tokenizer.ggml.eos_token_id", GgufValue::Uint32(2));
    assert(w@.kv =~= old(w)@.kv + file_pairs(*d));
}

/// Build the file of a model of the given sizes, with a small vocabulary and every weight set to
/// one.
pub fn sample_file(d: &Dims) -> (w: GgufWriter)
    requires
        writable(*d),
    ensures
        w@ == file_view(*d),
{
    let mut w = GgufWriter::new(3, 32);
    add_pairs(&mut w, d);
    assert(w@.kv =~= file_pairs(*d));
    let mut k: usize = 0;
    while k < GLOBAL_TENSORS
        invariant
            k <= GLOBAL_TENSORS,
            writable(*d),
            w@.version == 3,
            w@.alignment == 32,
            w@.kv == file_pairs(*d),
            w@.tensors =~= file_tensors(*d, 0).take(k as int),
        decreases GLOBAL_TENSORS - k,
    {
        let (name, tensor_type, inner, outer) = global_size(d, k);
        let ghost o = global_outline(*d, k as int);
        let ghost none: Seq<char> = Seq::empty();
        assert(none + o.name =~= o.name);
        add_outline(&mut w, name, tensor_type, inner, outer, Ghost(o), Ghost(none));
        k = k + 1;
    }
    assert(w@.tensors =~= file_tensors(*d, 0));
    let mut il: u32 = 0;
    while il < d.n_layer
        invariant
            il <= d.n_layer,
            writable(*d),
            w@.version == 3,
            w@.alignment == 32,
            w@.kv == file_pairs(*d),
            w@.tensors =~= file_tensors(*d, il as nat),
        decreases d.n_layer - il,
    {
        let ghost before = w@.tensors;
        let mut k: usize = 0;
        while k < LAYER_TENSORS
            invariant
                k <= LAYER_TENSORS,
                writable(*d),
                w@.version == 3,
                w@.alignment == 32,
                w@.kv == file_pairs(*d),
                w@.tensors =~= before + layer_tensors(*d, il as nat).take(k as int),
            decreases LAYER_TENSORS - k,
        {
            let (suffix, tensor_type, inner, outer) = layer_size(d, k);
            let ghost o = layer_outline(*d, k as int);
            let mut name = "blk.".to_owned();
            push_decimal(&mut name, il as u64);
            name.append(".");
            name.append(suffix);
            add_outline(
                &mut w,
                name.as_str(),
                tensor_type,
                inner,
                outer,
                Ghost(o),
                Ghost(layer_prefix(il as nat)),
            );
            k = k + 1;
        }
        il = il + 1;
        assert(w@.tensors =~= file_tensors(*d, il as nat));
    }
    w
}

} // verus!

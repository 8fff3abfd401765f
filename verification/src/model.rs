//! The weights of a model: tensors, and their binding to the fields of the model.
use crate::bytes::{decode_le, le_value, lemma_byte_range, lemma_le_value_bound};
use crate::constants::{Dims};
use crate::gguf::{data_end, last_named, lookup_u32, name_index, GgufModel, ImageView, ValueView};
use crate::half::{f16_to_f32, widened};
use crate::text::{decimal, push_decimal};
use vstd::prelude::*;
use vstd::slice::slice_subrange;

pub use crate::sample_model::{build_test_model, build_test_model_with_value, OwnedModelWeights};

verus! {

/// Where a tensor's bytes are.
#[derive(Debug, Clone)]
pub enum TensorData<'a> {
    /// Nowhere: the tensor does not exist.
    Absent,
    /// In a file image.
    Borrowed(&'a [u8]),
    /// With the tensor.
    Owned(Vec<u8>),
}

/// A bound tensor.
#[derive(Debug, Clone)]
pub struct Tensor<'a> {
    pub name: String,
    pub tensor_type: u32,
    pub data: TensorData<'a>,
    pub elements: u64,
    pub bytes: u64,
    pub dims: Vec<u64>,
}

/// The little-endian numbers of `width` bytes that bytes make up.
pub open spec fn numbers(b: Seq<u8>, width: nat) -> Seq<nat> {
    Seq::new(
        b.len() / width,
        |i: int| le_value(b.subrange(i * width, i * width + width)),
    )
}

/// Read the little-endian number `i` of a row of numbers.
pub(crate) fn number(b: &[u8], width: usize, i: usize) -> (r: u64)
    requires
        width == 2 || width == 4,
        i < b@.len() / width as nat,
    ensures
        r == numbers(b@, width as nat)[i as int],
        width == 2 ==> r < 0x1_0000,
        r < 0x1_0000_0000,
{
    proof {
        let n: nat = b@.len();
        let k: int = n as int / width as int;
        assert(i * width + width <= n) by (nonlinear_arith)
            requires
                width == 2 || width == 4,
                i < k,
                k == n as int / width as int,
        ;
        lemma_byte_range();
        lemma_le_value_bound(b@.subrange(i * width, i * width + width));
        assert(n == b.len());
    }
    let at: usize = i * width;
    decode_le(slice_subrange(b, at, at + width))
}

impl<'a> Tensor<'a> {
    /// The bytes of the tensor.
    pub open spec fn content(&self) -> Seq<u8> {
        match self.data {
            TensorData::Absent => seq![],
            TensorData::Borrowed(d) => d@,
            TensorData::Owned(v) => v@,
        }
    }

    /// The tensor has data.
    pub open spec fn present(&self) -> bool {
        !(self.data is Absent) && self.bytes > 0
    }

    /// Check if the tensor has data.
    pub fn has_data(&self) -> (r: bool)
        ensures
            r == self.present(),
    {
        match self.data {
            TensorData::Absent => false,
            _ => self.bytes > 0,
        }
    }

    /// Get the tensor data as bytes.
    pub fn as_bytes(&self) -> (r: &[u8])
        ensures
            r@ == self.content(),
    {
        match &self.data {
            TensorData::Absent => {
                let none: &[u8] = &[];
                assert(none@ =~= seq![]);
                none
            },
            TensorData::Borrowed(d) => d,
            TensorData::Owned(v) => v.as_slice(),
        }
    }

    /// Get the tensor data as halves.
    pub fn as_f16(&self) -> (r: Vec<u16>)
        ensures
            r@ == Seq::new(
                self.content().len() / 2,
                |i: int| numbers(self.content(), 2)[i] as u16,
            ),
    {
        let b = self.as_bytes();
        let n: usize = b.len() / 2;
        let mut r: Vec<u16> = Vec::new();
        let mut i: usize = 0;
        while i < n
            invariant
                i <= n,
                b@ == self.content(),
                n == b@.len() / 2,
                r@ =~= Seq::new(i as nat, |k: int| numbers(self.content(), 2)[k] as u16),
            decreases n - i,
        {
            r.push(number(b, 2, i) as u16);
            i = i + 1;
        }
        r
    }

    /// Get the tensor data as bit patterns of 32-bit floats.
    pub fn as_f32(&self) -> (r: Vec<u32>)
        ensures
            r@ == Seq::new(
                self.content().len() / 4,
                |i: int| numbers(self.content(), 4)[i] as u32,
            ),
    {
        let b = self.as_bytes();
        let n: usize = b.len() / 4;
        let mut r: Vec<u32> = Vec::new();
        let mut i: usize = 0;
        while i < n
            invariant
                i <= n,
                b@ == self.content(),
                n == b@.len() / 4,
                r@ =~= Seq::new(i as nat, |k: int| numbers(self.content(), 4)[k] as u32),
            decreases n - i,
        {
            r.push(number(b, 4, i) as u32);
            i = i + 1;
        }
        r
    }

    /// Get the tensor data as 32-bit signed numbers.
    pub fn as_i32(&self) -> (r: Vec<i32>)
        ensures
            r@ == Seq::new(
                self.content().len() / 4,
                |i: int| numbers(self.content(), 4)[i] as u32 as i32,
            ),
    {
        let b = self.as_bytes();
        let n: usize = b.len() / 4;
        let mut r: Vec<i32> = Vec::new();
        let mut i: usize = 0;
        while i < n
            invariant
                i <= n,
                b@ == self.content(),
                n == b@.len() / 4,
                r@ =~= Seq::new(i as nat, |k: int| numbers(self.content(), 4)[k] as u32 as i32),
            decreases n - i,
        {
            r.push(number(b, 4, i) as u32 as i32);
            i = i + 1;
        }
        r
    }

    /// Get the tensor data as bit patterns of 32-bit floats, widening halves if the tensor is of
    /// half precision.
    pub fn as_f32_auto(&self) -> (r: Vec<u32>)
        ensures
            self.tensor_type == 1 ==> r@ == Seq::new(
                self.content().len() / 2,
                |i: int| widened(numbers(self.content(), 2)[i] as u16),
            ),
            self.tensor_type != 1 ==> r@ == Seq::new(
                self.content().len() / 4,
                |i: int| numbers(self.content(), 4)[i] as u32,
            ),
    {
        if self.tensor_type != 1 {
            return self.as_f32();
        }
        let h = self.as_f16();
        let mut r: Vec<u32> = Vec::new();
        let mut i: usize = 0;
        while i < h.len()
            invariant
                i <= h@.len(),
                h@ == Seq::new(
                    self.content().len() / 2,
                    |i: int| numbers(self.content(), 2)[i] as u16,
                ),
                r@ =~= Seq::new(
                    i as nat,
                    |k: int| widened(numbers(self.content(), 2)[k] as u16),
                ),
            decreases h@.len() - i,
        {
            r.push(f16_to_f32(h[i]));
            i = i + 1;
        }
        r
    }
}

/// The weights of one layer.
#[derive(Debug, Clone)]
pub struct LayerWeights<'a> {
    pub hc_attn_fn: Tensor<'a>,
    pub hc_attn_scale: Tensor<'a>,
    pub hc_attn_base: Tensor<'a>,
    pub attn_norm: Tensor<'a>,
    pub attn_q_a: Tensor<'a>,
    pub attn_q_a_norm: Tensor<'a>,
    pub attn_q_b: Tensor<'a>,
    pub attn_kv: Tensor<'a>,
    pub attn_kv_a_norm: Tensor<'a>,
    pub attn_sinks: Tensor<'a>,
    pub attn_output_a: Tensor<'a>,
    pub attn_output_b: Tensor<'a>,
    pub attn_compressor_ape: Tensor<'a>,
    pub attn_compressor_kv: Tensor<'a>,
    pub attn_compressor_gate: Tensor<'a>,
    pub attn_compressor_norm: Tensor<'a>,
    pub indexer_attn_q_b: Tensor<'a>,
    pub indexer_proj: Tensor<'a>,
    pub indexer_compressor_ape: Tensor<'a>,
    pub indexer_compressor_kv: Tensor<'a>,
    pub indexer_compressor_gate: Tensor<'a>,
    pub indexer_compressor_norm: Tensor<'a>,
    pub hc_ffn_fn: Tensor<'a>,
    pub hc_ffn_scale: Tensor<'a>,
    pub hc_ffn_base: Tensor<'a>,
    pub ffn_norm: Tensor<'a>,
    pub ffn_gate_tid2eid: Tensor<'a>,
    pub ffn_gate_inp: Tensor<'a>,
    pub ffn_exp_probs_b: Tensor<'a>,
    pub ffn_gate_exps: Tensor<'a>,
    pub ffn_up_exps: Tensor<'a>,
    pub ffn_down_exps: Tensor<'a>,
    pub ffn_gate_shexp: Tensor<'a>,
    pub ffn_up_shexp: Tensor<'a>,
    pub ffn_down_shexp: Tensor<'a>,
}

/// All model weights.
#[derive(Debug, Clone)]
pub struct ModelWeights<'a> {
    pub token_embd: Tensor<'a>,
    pub output_hc_base: Tensor<'a>,
    pub output_hc_fn: Tensor<'a>,
    pub output_hc_scale: Tensor<'a>,
    pub output_norm: Tensor<'a>,
    pub output: Tensor<'a>,
    pub layers: Vec<LayerWeights<'a>>,
}

/// How many tensors a layer has.
pub const LAYER_TENSORS: usize = 35;

/// How many tensors a model has outside its layers.
pub const GLOBAL_TENSORS: usize = 6;

impl<'a> LayerWeights<'a> {
    /// The tensors of the layer in the order of its fields.
    pub open spec fn list(&self) -> Seq<Tensor<'a>> {
        seq![
            self.hc_attn_fn,
            self.hc_attn_scale,
            self.hc_attn_base,
            self.attn_norm,
            self.attn_q_a,
            self.attn_q_a_norm,
            self.attn_q_b,
            self.attn_kv,
            self.attn_kv_a_norm,
            self.attn_sinks,
            self.attn_output_a,
            self.attn_output_b,
            self.attn_compressor_ape,
            self.attn_compressor_kv,
            self.attn_compressor_gate,
            self.attn_compressor_norm,
            self.indexer_attn_q_b,
            self.indexer_proj,
            self.indexer_compressor_ape,
            self.indexer_compressor_kv,
            self.indexer_compressor_gate,
            self.indexer_compressor_norm,
            self.hc_ffn_fn,
            self.hc_ffn_scale,
            self.hc_ffn_base,
            self.ffn_norm,
            self.ffn_gate_tid2eid,
            self.ffn_gate_inp,
            self.ffn_exp_probs_b,
            self.ffn_gate_exps,
            self.ffn_up_exps,
            self.ffn_down_exps,
            self.ffn_gate_shexp,
            self.ffn_up_shexp,
            self.ffn_down_shexp,
        ]
    }

    /// Make a layer of its tensors.
    pub(crate) fn from_list(list: Vec<Tensor<'a>>) -> (r: LayerWeights<'a>)
        requires
            list@.len() == LAYER_TENSORS,
        ensures
            r.list() == list@,
    {
        let mut v = list;
        let ghost all = v@;
        let ffn_down_shexp = v.pop().unwrap();
        let ffn_up_shexp = v.pop().unwrap();
        let ffn_gate_shexp = v.pop().unwrap();
        let ffn_down_exps = v.pop().unwrap();
        let ffn_up_exps = v.pop().unwrap();
        let ffn_gate_exps = v.pop().unwrap();
        let ffn_exp_probs_b = v.pop().unwrap();
        let ffn_gate_inp = v.pop().unwrap();
        let ffn_gate_tid2eid = v.pop().unwrap();
        let ffn_norm = v.pop().unwrap();
        let hc_ffn_base = v.pop().unwrap();
        let hc_ffn_scale = v.pop().unwrap();
        let hc_ffn_fn = v.pop().unwrap();
        let indexer_compressor_norm = v.pop().unwrap();
        let indexer_compressor_gate = v.pop().unwrap();
        let indexer_compressor_kv = v.pop().unwrap();
        let indexer_compressor_ape = v.pop().unwrap();
        let indexer_proj = v.pop().unwrap();
        let indexer_attn_q_b = v.pop().unwrap();
        let attn_compressor_norm = v.pop().unwrap();
        let attn_compressor_gate = v.pop().unwrap();
        let attn_compressor_kv = v.pop().unwrap();
        let attn_compressor_ape = v.pop().unwrap();
        let attn_output_b = v.pop().unwrap();
        let attn_output_a = v.pop().unwrap();
        let attn_sinks = v.pop().unwrap();
        let attn_kv_a_norm = v.pop().unwrap();
        let attn_kv = v.pop().unwrap();
        let attn_q_b = v.pop().unwrap();
        let attn_q_a_norm = v.pop().unwrap();
        let attn_q_a = v.pop().unwrap();
        let attn_norm = v.pop().unwrap();
        let hc_attn_base = v.pop().unwrap();
        let hc_attn_scale = v.pop().unwrap();
        let hc_attn_fn = v.pop().unwrap();
        let r = LayerWeights {
            hc_attn_fn,
            hc_attn_scale,
            hc_attn_base,
            attn_norm,
            attn_q_a,
            attn_q_a_norm,
            attn_q_b,
            attn_kv,
            attn_kv_a_norm,
            attn_sinks,
            attn_output_a,
            attn_output_b,
            attn_compressor_ape,
            attn_compressor_kv,
            attn_compressor_gate,
            attn_compressor_norm,
            indexer_attn_q_b,
            indexer_proj,
            indexer_compressor_ape,
            indexer_compressor_kv,
            indexer_compressor_gate,
            indexer_compressor_norm,
            hc_ffn_fn,
            hc_ffn_scale,
            hc_ffn_base,
            ffn_norm,
            ffn_gate_tid2eid,
            ffn_gate_inp,
            ffn_exp_probs_b,
            ffn_gate_exps,
            ffn_up_exps,
            ffn_down_exps,
            ffn_gate_shexp,
            ffn_up_shexp,
            ffn_down_shexp,
        };
        assert(r.list() =~= all);
        r
    }
}

impl<'a> ModelWeights<'a> {
    /// The tensors outside the layers in the order of their fields.
    pub open spec fn globals(&self) -> Seq<Tensor<'a>> {
        seq![
            self.token_embd,
            self.output_hc_base,
            self.output_hc_fn,
            self.output_hc_scale,
            self.output_norm,
            self.output,
        ]
    }

    /// Make a model of its tensors.
    pub(crate) fn from_list(list: Vec<Tensor<'a>>, layers: Vec<LayerWeights<'a>>) -> (r: ModelWeights<'a>)
        requires
            list@.len() == GLOBAL_TENSORS,
        ensures
            r.globals() == list@,
            r.layers == layers,
    {
        let mut v = list;
        let ghost all = v@;
        let output = v.pop().unwrap();
        let output_norm = v.pop().unwrap();
        let output_hc_scale = v.pop().unwrap();
        let output_hc_fn = v.pop().unwrap();
        let output_hc_base = v.pop().unwrap();
        let token_embd = v.pop().unwrap();
        let r = ModelWeights {
            token_embd,
            output_hc_base,
            output_hc_fn,
            output_hc_scale,
            output_norm,
            output,
            layers,
        };
        assert(r.globals() =~= all);
        r
    }
}

// Binding

/// Why the weights of a model cannot be bound.
#[derive(Debug)]
pub enum ModelError {
    /// A tensor is missing.
    MissingTensor(String),
    /// The data of a tensor reaches past the end of the file.
    NoData(String),
    /// Another layer count than expected.
    LayerCount(u32, u32),
    /// No layers.
    NoLayers,
    /// Another embedding width than expected.
    EmbeddingDim(u32, u32),
    /// An embedding width of zero.
    ZeroEmbedding,
    /// Another vocabulary size than expected.
    VocabSize(u32, u32),
    /// A vocabulary size of zero.
    ZeroVocab,
    /// Another number of heads than expected.
    HeadCount(u32, u32),
    /// Another number of key-value heads than expected.
    KvHeadCount(u32, u32),
}

/// What a binding error says.
pub enum ModelFault {
    MissingTensor(Seq<char>),
    NoData(Seq<char>),
    LayerCount(u32, u32),
    NoLayers,
    EmbeddingDim(u32, u32),
    ZeroEmbedding,
    VocabSize(u32, u32),
    ZeroVocab,
    HeadCount(u32, u32),
    KvHeadCount(u32, u32),
}

impl View for ModelError {
    type V = ModelFault;

    open spec fn view(&self) -> ModelFault {
        match self {
            ModelError::MissingTensor(n) => ModelFault::MissingTensor(n@),
            ModelError::NoData(n) => ModelFault::NoData(n@),
            ModelError::LayerCount(a, b) => ModelFault::LayerCount(*a, *b),
            ModelError::NoLayers => ModelFault::NoLayers,
            ModelError::EmbeddingDim(a, b) => ModelFault::EmbeddingDim(*a, *b),
            ModelError::ZeroEmbedding => ModelFault::ZeroEmbedding,
            ModelError::VocabSize(a, b) => ModelFault::VocabSize(*a, *b),
            ModelError::ZeroVocab => ModelFault::ZeroVocab,
            ModelError::HeadCount(a, b) => ModelFault::HeadCount(*a, *b),
            ModelError::KvHeadCount(a, b) => ModelFault::KvHeadCount(*a, *b),
        }
    }
}

/// The number under a key, or under a second key, or a default.
pub open spec fn meta_u32(
    kv: Map<Seq<char>, ValueView>,
    key: Seq<char>,
    alias: Seq<char>,
    default: u32,
) -> u32 {
    match lookup_u32(kv, key) {
        Some(n) => n,
        None => match lookup_u32(kv, alias) {
            Some(n) => n,
            None => default,
        },
    }
}

fn get_meta(model: &GgufModel, key: &str, alias: &str, default: u32) -> (r: u32)
    ensures
        r == meta_u32(model@.kv, key@, alias@, default),
{
    match model.get_u32(key) {
        Some(n) => n,
        None => match model.get_u32(alias) {
            Some(n) => n,
            None => default,
        },
    }
}

/// The first way in which the metadata does not fit the sizes. A lenient look asks only that there
/// are layers, an embedding and a vocabulary.
pub open spec fn config_fault(
    kv: Map<Seq<char>, ValueView>,
    d: Dims,
    lenient: bool,
) -> Option<ModelFault> {
    let layers = meta_u32(kv, "ds4.n_layer"@, "llama.block_count"@, 0);
    let embd = meta_u32(kv, "ds4.n_embd"@, "llama.embedding_length"@, 0);
    let vocab = meta_u32(kv, "ds4.vocab_size"@, "llama.vocab_size"@, 0);
    let heads = meta_u32(kv, "ds4.attn_n_head"@, "llama.attention.head_count"@, 0);
    let kv_heads = meta_u32(kv, "ds4.attn_n_head_kv"@, "llama.attention.head_count_kv"@, 0);
    if lenient {
        if layers == 0 {
            Some(ModelFault::NoLayers)
        } else if embd == 0 {
            Some(ModelFault::ZeroEmbedding)
        } else if vocab == 0 {
            Some(ModelFault::ZeroVocab)
        } else {
            None
        }
    } else if layers != d.n_layer {
        Some(ModelFault::LayerCount(d.n_layer, layers))
    } else if embd != d.n_embd {
        Some(ModelFault::EmbeddingDim(d.n_embd, embd))
    } else if vocab != d.n_vocab {
        Some(ModelFault::VocabSize(d.n_vocab, vocab))
    } else if heads != d.n_head {
        Some(ModelFault::HeadCount(d.n_head, heads))
    } else if kv_heads != d.n_head_kv {
        Some(ModelFault::KvHeadCount(d.n_head_kv, kv_heads))
    } else {
        None
    }
}

/// Validate the model configuration against the sizes.
pub fn validate_model(model: &GgufModel, d: &Dims) -> (r: Result<(), ModelError>)
    ensures
        r is Ok <==> config_fault(model@.kv, *d, false) is None,
        r matches Err(e) ==> config_fault(model@.kv, *d, false) == Some(e@),
{
    validate_model_inner(model, d, false)
}

/// Validate the model, allowing other sizes.
pub fn validate_model_lenient(model: &GgufModel, d: &Dims) -> (r: Result<(), ModelError>)
    ensures
        r is Ok <==> config_fault(model@.kv, *d, true) is None,
        r matches Err(e) ==> config_fault(model@.kv, *d, true) == Some(e@),
{
    validate_model_inner(model, d, true)
}

fn validate_model_inner(model: &GgufModel, d: &Dims, lenient: bool) -> (r: Result<(), ModelError>)
    ensures
        r is Ok <==> config_fault(model@.kv, *d, lenient) is None,
        r matches Err(e) ==> config_fault(model@.kv, *d, lenient) == Some(e@),
{
    let layers: u32 = get_meta(model, "ds4.n_layer", "llama.block_count", 0);
    if !lenient && layers != d.n_layer {
        return Err(ModelError::LayerCount(d.n_layer, layers));
    }
    if lenient && layers == 0 {
        return Err(ModelError::NoLayers);
    }
    let embd: u32 = get_meta(model, "ds4.n_embd", "llama.embedding_length", 0);
    if !lenient && embd != d.n_embd {
        return Err(ModelError::EmbeddingDim(d.n_embd, embd));
    }
    if lenient && embd == 0 {
        return Err(ModelError::ZeroEmbedding);
    }
    let vocab: u32 = get_meta(model, "ds4.vocab_size", "llama.vocab_size", 0);
    if !lenient && vocab != d.n_vocab {
        return Err(ModelError::VocabSize(d.n_vocab, vocab));
    }
    if lenient && vocab == 0 {
        return Err(ModelError::ZeroVocab);
    }
    let heads: u32 = get_meta(model, "ds4.attn_n_head", "llama.attention.head_count", 0);
    if !lenient && heads != d.n_head {
        return Err(ModelError::HeadCount(d.n_head, heads));
    }
    let kv_heads: u32 = get_meta(model, "ds4.attn_n_head_kv", "llama.attention.head_count_kv", 0);
    if !lenient && kv_heads != d.n_head_kv {
        return Err(ModelError::KvHeadCount(d.n_head_kv, kv_heads));
    }
    Ok(())
}

/// A tensor that is to be bound: its name, and whether it must be there.
pub struct Slot {
    pub name: Seq<char>,
    pub required: bool,
}

/// The tensors outside the layers.
pub open spec fn global_slots() -> Seq<Slot> {
    seq![
        Slot { name: "token_embd.weight"@, required: true },
        Slot { name: "output_hc_base.weight"@, required: true },
        Slot { name: "output_hc_fn.weight"@, required: true },
        Slot { name: "output_hc_scale.weight"@, required: true },
        Slot { name: "output_norm.weight"@, required: true },
        Slot { name: "output.weight"@, required: true },
    ]
}

/// The tensors of a layer, by the ends of their names.
pub open spec fn layer_slots() -> Seq<Slot> {
    seq![
        Slot { name: "hc_attn_fn.weight"@, required: true },
        Slot { name: "hc_attn_scale.weight"@, required: true },
        Slot { name: "hc_attn_base.weight"@, required: true },
        Slot { name: "attn_norm.weight"@, required: true },
        Slot { name: "attn_q_a.weight"@, required: true },
        Slot { name: "attn_q_a_norm.weight"@, required: true },
        Slot { name: "attn_q_b.weight"@, required: true },
        Slot { name: "attn_kv.weight"@, required: true },
        Slot { name: "attn_kv_a_norm.weight"@, required: true },
        Slot { name: "attn_sinks.weight"@, required: true },
        Slot { name: "attn_output_a.weight"@, required: true },
        Slot { name: "attn_output_b.weight"@, required: true },
        Slot { name: "attn_compressor_ape.weight"@, required: false },
        Slot { name: "attn_compressor_kv.weight"@, required: false },
        Slot { name: "attn_compressor_gate.weight"@, required: false },
        Slot { name: "attn_compressor_norm.weight"@, required: false },
        Slot { name: "indexer.attn_q_b.weight"@, required: false },
        Slot { name: "indexer.proj.weight"@, required: false },
        Slot { name: "indexer_compressor_ape.weight"@, required: false },
        Slot { name: "indexer_compressor_kv.weight"@, required: false },
        Slot { name: "indexer_compressor_gate.weight"@, required: false },
        Slot { name: "indexer_compressor_norm.weight"@, required: false },
        Slot { name: "hc_ffn_fn.weight"@, required: true },
        Slot { name: "hc_ffn_scale.weight"@, required: true },
        Slot { name: "hc_ffn_base.weight"@, required: true },
        Slot { name: "ffn_norm.weight"@, required: true },
        Slot { name: "ffn_gate_tid2eid.weight"@, required: false },
        Slot { name: "ffn_gate_inp.weight"@, required: true },
        Slot { name: "exp_probs_b.bias"@, required: false },
        Slot { name: "ffn_gate_exps.weight"@, required: true },
        Slot { name: "ffn_up_exps.weight"@, required: true },
        Slot { name: "ffn_down_exps.weight"@, required: true },
        Slot { name: "ffn_gate_shexp.weight"@, required: true },
        Slot { name: "ffn_up_shexp.weight"@, required: true },
        Slot { name: "ffn_down_shexp.weight"@, required: true },
    ]
}

/// The beginning of the names of a layer's tensors.
pub open spec fn layer_prefix(il: nat) -> Seq<char> {
    "blk."@ + decimal(il) + "."@
}

/// Tensor `k` of layer `il`.
pub open spec fn layer_slot(il: nat, k: int) -> Slot {
    Slot { name: layer_prefix(il) + layer_slots()[k].name, required: layer_slots()[k].required }
}

/// All tensors that are bound for a number of layers, in order.
pub open spec fn all_slots(n_layer: nat) -> Seq<Slot>
    decreases n_layer,
{
    if n_layer == 0 {
        global_slots()
    } else {
        let il = (n_layer - 1) as nat;
        all_slots(il) + Seq::new(LAYER_TENSORS as nat, |k: int| layer_slot(il, k))
    }
}

/// Why a tensor cannot be bound.
pub open spec fn slot_fault(m: ImageView, len: nat, slot: Slot) -> Option<ModelFault> {
    if !slot.required {
        None
    } else if !name_index(m.tensors).contains_key(slot.name) {
        Some(ModelFault::MissingTensor(slot.name))
    } else if data_end(last_named(m.tensors, slot.name)) > len {
        Some(ModelFault::NoData(slot.name))
    } else {
        None
    }
}

/// The first fault among tensors.
pub open spec fn first_fault(m: ImageView, len: nat, slots: Seq<Slot>) -> Option<ModelFault>
    decreases slots.len(),
{
    if slots.len() == 0 {
        None
    } else {
        match first_fault(m, len, slots.drop_last()) {
            Some(f) => Some(f),
            None => slot_fault(m, len, slots.last()),
        }
    }
}

/// `t` is the tensor of that name in the file: its descriptor, and its data. A tensor that need not
/// be there may be absent, or have no data.
pub open spec fn slot_bound(m: ImageView, image: Seq<u8>, slot: Slot, t: Tensor) -> bool {
    let found = last_named(m.tensors, slot.name);
    &&& t.name@ == slot.name
    &&& if name_index(m.tensors).contains_key(slot.name) {
        &&& t.tensor_type == found.tensor_type
        &&& t.elements == found.elements
        &&& t.bytes == found.bytes
        &&& t.dims@ == found.dims
        &&& t.data is Borrowed
        &&& t.content() == if data_end(found) <= image.len() {
            image.subrange(found.offset as int, data_end(found))
        } else {
            seq![]
        }
    } else {
        &&& t.tensor_type == 0
        &&& t.elements == 0
        &&& t.bytes == 0
        &&& t.dims@.len() == 0
        &&& t.data is Absent
    }
}

/// All tensors of the list are bound.
pub open spec fn slots_bound(m: ImageView, image: Seq<u8>, slots: Seq<Slot>, ts: Seq<Tensor>) -> bool {
    slots.len() == ts.len() && forall|k: int|
        0 <= k < slots.len() ==> slot_bound(m, image, #[trigger] slots[k], ts[k])
}

/// The slots of one layer.
pub open spec fn one_layer(il: nat) -> Seq<Slot> {
    Seq::new(LAYER_TENSORS as nat, |k: int| layer_slot(il, k))
}

/// All weights are those of the file.
pub open spec fn weights_bound(m: ImageView, image: Seq<u8>, w: ModelWeights, n_layer: nat) -> bool {
    &&& slots_bound(m, image, global_slots(), w.globals())
    &&& w.layers@.len() == n_layer
    &&& forall|il: int|
        0 <= il < n_layer ==> slots_bound(
            m,
            image,
            one_layer(il as nat),
            (#[trigger] w.layers@[il]).list(),
        )
}

/// Bind a tensor by name.
pub fn bind_tensor<'a>(model: &GgufModel<'a>, name: &str) -> (r: Result<Tensor<'a>, ModelError>)
    requires
        model.wf(),
    ensures
        r matches Ok(t) ==> slot_fault(
            model@,
            model.mmap@.len(),
            (Slot { name: name@, required: true }),
        ) is None && slot_bound(
            model@,
            model.mmap@,
            (Slot { name: name@, required: true }),
            t,
        ),
        r matches Err(e) ==> slot_fault(
            model@,
            model.mmap@.len(),
            (Slot { name: name@, required: true }),
        ) == Some(e@),
{
    let t = match model.tensor(name) {
        None => {
            return Err(ModelError::MissingTensor(name.to_owned()));
        },
        Some(t) => t,
    };
    let data = match model.tensor_data(name) {
        None => {
            return Err(ModelError::NoData(name.to_owned()));
        },
        Some(d) => d,
    };
    let dims = t.dims.clone();
    assert(dims@ =~= t.dims@);
    Ok(
        Tensor {
            name: name.to_owned(),
            tensor_type: t.tensor_type,
            data: TensorData::Borrowed(data),
            elements: t.elements,
            bytes: t.bytes,
            dims,
        },
    )
}

/// Bind a tensor that may not exist in the model.
pub fn bind_tensor_optional<'a>(model: &GgufModel<'a>, name: &str) -> (t: Tensor<'a>)
    requires
        model.wf(),
    ensures
        slot_bound(model@, model.mmap@, (Slot { name: name@, required: false }), t),
{
    match model.tensor(name) {
        None => Tensor {
            name: name.to_owned(),
            tensor_type: 0,
            data: TensorData::Absent,
            elements: 0,
            bytes: 0,
            dims: Vec::new(),
        },
        Some(t) => {
            let none: &'a [u8] = slice_subrange(model.mmap, 0, 0);
            let data: &'a [u8] = match model.tensor_data(name) {
                None => none,
                Some(d) => d,
            };
            let dims = t.dims.clone();
            assert(dims@ =~= t.dims@);
            let r = Tensor {
                name: name.to_owned(),
                tensor_type: t.tensor_type,
                data: TensorData::Borrowed(data),
                elements: t.elements,
                bytes: t.bytes,
                dims,
            };
            assert(none@ =~= seq![]);
            r
        },
    }
}

fn global_slot_of(k: usize) -> (r: &'static str)
    requires
        k < GLOBAL_TENSORS,
    ensures
        r@ == global_slots()[k as int].name,
{
    match k {
        0 => "token_embd.weight",
        1 => "output_hc_base.weight",
        2 => "output_hc_fn.weight",
        3 => "output_hc_scale.weight",
        4 => "output_norm.weight",
        _ => "output.weight",
    }
}

fn layer_slot_of(k: usize) -> (r: (&'static str, bool))
    requires
        k < LAYER_TENSORS,
    ensures
        r.0@ == layer_slots()[k as int].name,
        r.1 == layer_slots()[k as int].required,
{
    match k {
        0 => ("hc_attn_fn.weight", true),
        1 => ("hc_attn_scale.weight", true),
        2 => ("hc_attn_base.weight", true),
        3 => ("attn_norm.weight", true),
        4 => ("attn_q_a.weight", true),
        5 => ("attn_q_a_norm.weight", true),
        6 => ("attn_q_b.weight", true),
        7 => ("attn_kv.weight", true),
        8 => ("attn_kv_a_norm.weight", true),
        9 => ("attn_sinks.weight", true),
        10 => ("attn_output_a.weight", true),
        11 => ("attn_output_b.weight", true),
        12 => ("attn_compressor_ape.weight", false),
        13 => ("attn_compressor_kv.weight", false),
        14 => ("attn_compressor_gate.weight", false),
        15 => ("attn_compressor_norm.weight", false),
        16 => ("indexer.attn_q_b.weight", false),
        17 => ("indexer.proj.weight", false),
        18 => ("indexer_compressor_ape.weight", false),
        19 => ("indexer_compressor_kv.weight", false),
        20 => ("indexer_compressor_gate.weight", false),
        21 => ("indexer_compressor_norm.weight", false),
        22 => ("hc_ffn_fn.weight", true),
        23 => ("hc_ffn_scale.weight", true),
        24 => ("hc_ffn_base.weight", true),
        25 => ("ffn_norm.weight", true),
        26 => ("ffn_gate_tid2eid.weight", false),
        27 => ("ffn_gate_inp.weight", true),
        28 => ("exp_probs_b.bias", false),
        29 => ("ffn_gate_exps.weight", true),
        30 => ("ffn_up_exps.weight", true),
        31 => ("ffn_down_exps.weight", true),
        32 => ("ffn_gate_shexp.weight", true),
        33 => ("ffn_up_shexp.weight", true),
        _ => ("ffn_down_shexp.weight", true),
    }
}

/// Make the name of tensor `suffix` of layer `il`.
fn layer_name(il: u32, suffix: &str) -> (r: String)
    ensures
        r@ == layer_prefix(il as nat) + suffix@,
{
    let mut s = "blk.".to_owned();
    push_decimal(&mut s, il as u64);
    s.append(".");
    s.append(suffix);
    s
}

/// A fault among the first `k` tensors is the fault of them all.
proof fn lemma_first_fault(m: ImageView, len: nat, slots: Seq<Slot>, k: int)
    requires
        0 <= k <= slots.len(),
        first_fault(m, len, slots.take(k)) is Some,
    ensures
        first_fault(m, len, slots) == first_fault(m, len, slots.take(k)),
    decreases slots.len(),
{
    if k < slots.len() {
        assert(slots.drop_last().take(k) =~= slots.take(k));
        lemma_first_fault(m, len, slots.drop_last(), k);
    } else {
        assert(slots.take(k) =~= slots);
    }
}

/// The faults of two lists, one after the other.
pub(crate) proof fn lemma_fault_concat(m: ImageView, len: nat, a: Seq<Slot>, b: Seq<Slot>)
    ensures
        first_fault(m, len, a + b) == match first_fault(m, len, a) {
            Some(f) => Some(f),
            None => first_fault(m, len, b),
        },
    decreases b.len(),
{
    if b.len() == 0 {
        assert(a + b =~= a);
    } else {
        assert((a + b).drop_last() =~= a + b.drop_last());
        lemma_fault_concat(m, len, a, b.drop_last());
    }
}

proof fn lemma_layer_fault(m: ImageView, len: nat, k: nat, n: nat)
    requires
        k <= n,
        first_fault(m, len, all_slots(k)) is Some,
    ensures
        first_fault(m, len, all_slots(n)) == first_fault(m, len, all_slots(k)),
    decreases n,
{
    if k < n {
        let il = (n - 1) as nat;
        lemma_layer_fault(m, len, k, il);
        lemma_fault_concat(m, len, all_slots(il), one_layer(il));
    }
}

/// Bind the tensors outside the layers.
fn bind_globals<'a>(model: &GgufModel<'a>) -> (r: Result<Vec<Tensor<'a>>, ModelError>)
    requires
        model.wf(),
    ensures
        r matches Ok(ts) ==> first_fault(model@, model.mmap@.len(), global_slots()) is None
            && slots_bound(model@, model.mmap@, global_slots(), ts@),
        r matches Err(e) ==> first_fault(model@, model.mmap@.len(), global_slots()) == Some(e@),
{
    let ghost slots = global_slots();
    let ghost len = model.mmap@.len();
    let mut ts: Vec<Tensor<'a>> = Vec::new();
    let mut k: usize = 0;
    assert(slots.take(0) =~= seq![]);
    while k < GLOBAL_TENSORS
        invariant
            k <= GLOBAL_TENSORS,
            model.wf(),
            slots == global_slots(),
            len == model.mmap@.len(),
            ts@.len() == k,
            first_fault(model@, len, slots.take(k as int)) is None,
            forall|j: int|
                0 <= j < k ==> slot_bound(model@, model.mmap@, #[trigger] slots[j], ts@[j]),
        decreases GLOBAL_TENSORS - k,
    {
        let ghost next = slots.take(k + 1);
        proof {
            assert(next.drop_last() =~= slots.take(k as int));
            assert(next.last() == slots[k as int]);
            assert(slots[k as int].required);
        }
        match bind_tensor(model, global_slot_of(k)) {
            Err(e) => {
                proof {
                    lemma_first_fault(model@, len, slots, k + 1);
                }
                return Err(e);
            },
            Ok(t) => {
                ts.push(t);
            },
        }
        k = k + 1;
    }
    assert(slots.take(slots.len() as int) =~= slots);
    Ok(ts)
}

/// Bind the tensors of a layer.
fn bind_layer<'a>(model: &GgufModel<'a>, il: u32) -> (r: Result<LayerWeights<'a>, ModelError>)
    requires
        model.wf(),
    ensures
        r matches Ok(l) ==> first_fault(model@, model.mmap@.len(), one_layer(il as nat)) is None
            && slots_bound(model@, model.mmap@, one_layer(il as nat), l.list()),
        r matches Err(e) ==> first_fault(model@, model.mmap@.len(), one_layer(il as nat)) == Some(
            e@,
        ),
{
    let ghost slots = one_layer(il as nat);
    let ghost len = model.mmap@.len();
    let mut ts: Vec<Tensor<'a>> = Vec::new();
    let mut k: usize = 0;
    assert(slots.take(0) =~= seq![]);
    while k < LAYER_TENSORS
        invariant
            k <= LAYER_TENSORS,
            model.wf(),
            slots == one_layer(il as nat),
            len == model.mmap@.len(),
            ts@.len() == k,
            first_fault(model@, len, slots.take(k as int)) is None,
            forall|j: int|
                0 <= j < k ==> slot_bound(model@, model.mmap@, #[trigger] slots[j], ts@[j]),
        decreases LAYER_TENSORS - k,
    {
        let (suffix, required) = layer_slot_of(k);
        let name = layer_name(il, suffix);
        let ghost next = slots.take(k + 1);
        proof {
            assert(next.drop_last() =~= slots.take(k as int));
            assert(next.last() == slots[k as int]);
            assert(slots[k as int] == (Slot { name: name@, required }));
        }
        if required {
            match bind_tensor(model, name.as_str()) {
                Err(e) => {
                    proof {
                        lemma_first_fault(model@, len, slots, k + 1);
                    }
                    return Err(e);
                },
                Ok(t) => {
                    ts.push(t);
                },
            }
        } else {
            let t = bind_tensor_optional(model, name.as_str());
            ts.push(t);
        }
        k = k + 1;
    }
    assert(slots.take(slots.len() as int) =~= slots);
    Ok(LayerWeights::from_list(ts))
}

/// The layers that a file has: as its metadata says, or as many as expected.
pub open spec fn layer_count(kv: Map<Seq<char>, ValueView>, d: Dims) -> u32 {
    meta_u32(kv, "ds4.n_layer"@, "llama.block_count"@, d.n_layer)
}

/// Bind all model weights, with strict validation of the configuration first.
pub fn bind_weights<'a>(model: &GgufModel<'a>, d: &Dims) -> (r: Result<
    ModelWeights<'a>,
    ModelError,
>)
    requires
        model.wf(),
    ensures
        r matches Ok(w) ==> {
            &&& config_fault(model@.kv, *d, false) is None
            &&& weights_bound(model@, model.mmap@, w, d.n_layer as nat)
        },
        r matches Err(e) ==> Some(e@) == match config_fault(model@.kv, *d, false) {
            Some(f) => Some(f),
            None => first_fault(model@, model.mmap@.len(), all_slots(d.n_layer as nat)),
        },
        r is Ok <==> config_fault(model@.kv, *d, false) is None && first_fault(
            model@,
            model.mmap@.len(),
            all_slots(d.n_layer as nat),
        ) is None,
{
    match validate_model(model, d) {
        Err(e) => {
            return Err(e);
        },
        Ok(_) => {},
    }
    proof {
        lemma_layer_count(model@.kv, *d);
    }
    bind_weights_inner(model, d)
}

/// A configuration without fault says how many layers there are, unless none are expected.
proof fn lemma_layer_count(kv: Map<Seq<char>, ValueView>, d: Dims)
    requires
        config_fault(kv, d, false) is None,
    ensures
        layer_count(kv, d) == d.n_layer,
{
}

/// Bind weights without validation, for models of other sizes.
pub fn bind_weights_unchecked<'a>(model: &GgufModel<'a>, d: &Dims) -> (r: Result<
    ModelWeights<'a>,
    ModelError,
>)
    requires
        model.wf(),
    ensures
        r matches Ok(w) ==> weights_bound(
            model@,
            model.mmap@,
            w,
            layer_count(model@.kv, *d) as nat,
        ),
        r matches Err(e) ==> first_fault(
            model@,
            model.mmap@.len(),
            all_slots(layer_count(model@.kv, *d) as nat),
        ) == Some(e@),
        r is Ok <==> first_fault(
            model@,
            model.mmap@.len(),
            all_slots(layer_count(model@.kv, *d) as nat),
        ) is None,
{
    bind_weights_inner(model, d)
}

fn bind_weights_inner<'a>(model: &GgufModel<'a>, d: &Dims) -> (r: Result<
    ModelWeights<'a>,
    ModelError,
>)
    requires
        model.wf(),
    ensures
        r matches Ok(w) ==> weights_bound(
            model@,
            model.mmap@,
            w,
            layer_count(model@.kv, *d) as nat,
        ),
        r matches Err(e) ==> first_fault(
            model@,
            model.mmap@.len(),
            all_slots(layer_count(model@.kv, *d) as nat),
        ) == Some(e@),
        r is Ok <==> first_fault(
            model@,
            model.mmap@.len(),
            all_slots(layer_count(model@.kv, *d) as nat),
        ) is None,
{
    let ghost len = model.mmap@.len();
    let n_layer: u32 = get_meta(model, "ds4.n_layer", "llama.block_count", d.n_layer);
    let globals = match bind_globals(model) {
        Err(e) => {
            proof {
                lemma_layer_fault(model@, len, 0, n_layer as nat);
            }
            return Err(e);
        },
        Ok(ts) => ts,
    };
    let mut layers: Vec<LayerWeights<'a>> = Vec::new();
    let mut il: u32 = 0;
    while il < n_layer
        invariant
            il <= n_layer,
            model.wf(),
            len == model.mmap@.len(),
            n_layer == layer_count(model@.kv, *d),
            layers@.len() == il,
            first_fault(model@, len, all_slots(il as nat)) is None,
            forall|i: int|
                0 <= i < il ==> slots_bound(
                    model@,
                    model.mmap@,
                    one_layer(i as nat),
                    (#[trigger] layers@[i]).list(),
                ),
        decreases n_layer - il,
    {
        proof {
            lemma_fault_concat(model@, len, all_slots(il as nat), one_layer(il as nat));
        }
        match bind_layer(model, il) {
            Err(e) => {
                proof {
                    lemma_layer_fault(model@, len, (il + 1) as nat, n_layer as nat);
                }
                return Err(e);
            },
            Ok(l) => {
                layers.push(l);
            },
        }
        il = il + 1;
    }
    Ok(ModelWeights::from_list(globals, layers))
}

} // verus!

//! Whole model files: loading, checking, binding, and their vocabulary.
use ds4::constants::Dims;
use ds4::gguf::{GgufArray, GgufModel, GgufValue};
use ds4::gguf_writer::GgufWriter;
use ds4::model::{
    bind_tensor, bind_tensor_optional, bind_weights, bind_weights_unchecked, validate_model,
    validate_model_lenient, ModelError,
};
use ds4::sample_file::sample_file;
use ds4::tokenizer::{token_to_bytes, Vocab, VocabError};

fn image() -> Vec<u8> {
    sample_file(&Dims::tiny()).finish().unwrap()
}

#[test]
fn test_load_gguf() {
    let image = image();
    let model = GgufModel::open(&image).expect("Failed to open GGUF model");
    assert!(model.version >= 2);
    assert!(model.tensors.len() > 0, "No tensors found");
    assert!(model.tensor("token_embd.weight").is_some());
}

#[test]
fn test_gguf_metadata() {
    let image = image();
    let model = GgufModel::open(&image).expect("Failed to open GGUF model");
    let n_layer = model
        .get_u32("ds4.n_layer")
        .or_else(|| model.get_u32("llama.block_count"));
    assert!(n_layer.is_some());
    let arch = model.get_string("general.architecture");
    assert!(arch.is_some());
}

#[test]
fn test_bind_weights() {
    let image = image();
    let gguf = GgufModel::open(&image).expect("Failed to open GGUF model");
    let weights = bind_weights(&gguf, &Dims::tiny()).expect("Failed to bind weights");
    assert_eq!(weights.layers.len(), Dims::tiny().n_layer as usize);
}

#[test]
fn test_load_vocab() {
    let image = image();
    let gguf = GgufModel::open(&image).expect("Failed to open GGUF model");
    let vocab = Vocab::load(&gguf).expect("Failed to load vocabulary");

    assert_eq!(vocab.n_vocab, Dims::tiny().n_vocab as usize);
    assert!(vocab.eos_id >= 0);
    assert!(vocab.bos_id >= 0);
    assert!(
        vocab.token_id("the").is_some() || vocab.token_id("Hello").is_some(),
        "Expected common tokens to be present"
    );
}

/// A vocabulary of single characters: a space at 8, small letters from 22 on, capital letters from
/// 48 on, digits from 74 on, and punctuation behind them.
fn character_vocab() -> Vocab {
    let mut tokens: Vec<String> = (0..256).map(|i| format!("<tok_{}>", i)).collect();
    tokens[8] = "Ġ".to_string();
    for i in 0..26u8 {
        tokens[22 + i as usize] = ((b'a' + i) as char).to_string();
        tokens[48 + i as usize] = ((b'A' + i) as char).to_string();
    }
    for i in 0..10u8 {
        tokens[74 + i as usize] = ((b'0' + i) as char).to_string();
    }
    tokens[100] = ";".to_string();
    tokens[102] = "=".to_string();
    let mut w = GgufWriter::new(3, 32);
    w.add_meta("ds4.vocab_size", GgufValue::Uint32(256));
    w.add_meta(
        "tokenizer.ggml.tokens",
        GgufValue::Array(GgufArray {
            element_type: 8,
            elements: tokens.into_iter().map(GgufValue::String).collect(),
        }),
    );
    let image = w.finish().unwrap();
    Vocab::load(&GgufModel::open(&image).unwrap()).unwrap()
}

#[test]
fn test_vocab_encode_decode() {
    let vocab = character_vocab();
    let tokens = vocab.encode("Hello world");
    assert!(!tokens.is_empty(), "Encoding should produce tokens");
    assert_eq!(tokens, vec![55, 26, 33, 33, 36, 8, 44, 36, 39, 33, 25]);
    let decoded = vocab.decode(&tokens);
    assert_eq!(decoded, "HelloĠworld");
    assert_eq!(token_to_bytes(&decoded), b"Hello world");
}

#[test]
fn test_vocab_encode_cross_validate_c() {
    let vocab = character_vocab();
    let test_cases: &[(&str, &[i32])] = &[
        ("Hello", &[55, 26, 33, 33, 36]),
        ("world", &[44, 36, 39, 33, 25]),
        ("Hello world", &[55, 26, 33, 33, 36, 8, 44, 36, 39, 33, 25]),
        ("test", &[41, 26, 40, 41]),
        ("int x = 42;", &[30, 35, 41, 8, 45, 8, 102, 8, 78, 76, 100]),
    ];
    for (text, expected) in test_cases {
        let tokens = vocab.encode(text);
        assert_eq!(&tokens, expected, "Tokenization mismatch for {:?}", text);
    }
}

#[test]
fn token_texts_stand_for_bytes() {
    let all: Vec<u8> = (0..=255).collect();
    assert_eq!(token_to_bytes(&ds4::tokenizer::byte_encode(&all)), all);
    assert_eq!(token_to_bytes("a世Ċ"), b"a\n");
}

#[test]
fn the_vocabulary_size_has_several_names() {
    for key in ["ds4.vocab_size", "llama.vocab_size", "deepseek4.vocab_size", "other.vocab_size"] {
        let mut w = GgufWriter::new(3, 32);
        w.add_meta(key, GgufValue::Uint32(1));
        w.add_meta(
            "tokenizer.ggml.tokens",
            GgufValue::Array(GgufArray {
                element_type: 8,
                elements: vec![GgufValue::String("a".to_string())],
            }),
        );
        let image = w.finish().unwrap();
        let r = Vocab::load(&GgufModel::open(&image).unwrap());
        if key == "other.vocab_size" {
            assert_eq!(r.err(), Some(VocabError::MissingSize));
        } else {
            assert_eq!(r.unwrap().n_vocab, 1);
        }
    }
}

#[test]
fn the_sample_file() {
    let d = Dims::tiny();
    let image = image();
    let m = GgufModel::open(&image).unwrap();
    assert_eq!((m.version, m.alignment, m.tensors.len()), (3, 32, 41));
    assert_eq!(m.get_string("general.name"), Some("test_model"));
    assert_eq!(m.get_u32("ds4.attn_n_head_kv"), Some(1));
    let t = m.tensor("output.weight").unwrap();
    assert_eq!((t.tensor_type, &t.dims[..], t.bytes), (8, &[64u64, 256][..], 512 * 34));
    let block = &m.tensor_data("output.weight").unwrap()[34..68];
    assert_eq!(block[..2], 0x2008u16.to_le_bytes());
    assert_eq!(block[2..], [127u8; 32]);
    let t = m.tensor("blk.0.ffn_gate_tid2eid.weight").unwrap();
    assert_eq!((t.tensor_type, &t.dims[..]), (26, &[256u64, 2][..]));
    assert_eq!(m.tensor_data("blk.0.ffn_gate_tid2eid.weight").unwrap(), &[0u8; 2048][..]);
    assert_eq!(m.tensor_data("output_hc_scale.weight").unwrap(), &1.0f32.to_le_bytes()[..]);
    assert_eq!(m.tensor_data("token_embd.weight").unwrap()[..2], 0x3c00u16.to_le_bytes());
    let w = bind_weights_unchecked(&m, &d).unwrap();
    assert_eq!(w.layers[0].attn_output_a.dims, vec![32, 32]);
    assert_eq!(w.layers[0].indexer_proj.elements, 16 * 128);
    assert_eq!(w.layers[0].attn_q_a.as_bytes().len(), 32 * 34);
    let v = Vocab::load(&m).unwrap();
    assert_eq!(v.token_text(15), Some("world"));
    assert_eq!(v.token_text(26), Some("<tok_26>"));
    assert_eq!(v.token_text(255), Some("<tok_255>"));
    assert_eq!((v.bos_id, v.eos_id, v.user_id, v.dsml_id), (1, 2, 3, 7));
}

/// A file that holds metadata only.
fn meta(pairs: &[(&str, u32)]) -> Vec<u8> {
    let mut w = GgufWriter::new(3, 32);
    for (k, v) in pairs {
        w.add_meta(k, GgufValue::Uint32(*v));
    }
    w.finish().unwrap()
}

fn strict(pairs: &[(&str, u32)]) -> Result<(), ModelError> {
    validate_model(&GgufModel::open(&meta(pairs)).unwrap(), &Dims::tiny())
}

fn lenient(pairs: &[(&str, u32)]) -> Result<(), ModelError> {
    validate_model_lenient(&GgufModel::open(&meta(pairs)).unwrap(), &Dims::tiny())
}

const GOOD: [(&str, u32); 5] = [
    ("ds4.n_layer", 1),
    ("ds4.n_embd", 64),
    ("ds4.vocab_size", 256),
    ("ds4.attn_n_head", 4),
    ("ds4.attn_n_head_kv", 1),
];

fn with(i: usize, v: u32) -> Vec<(&'static str, u32)> {
    let mut p = GOOD.to_vec();
    p[i].1 = v;
    p
}

#[test]
fn configurations_are_checked() {
    assert!(strict(&GOOD).is_ok());
    assert!(matches!(strict(&with(0, 2)), Err(ModelError::LayerCount(1, 2))));
    assert!(matches!(strict(&with(1, 2)), Err(ModelError::EmbeddingDim(64, 2))));
    assert!(matches!(strict(&with(2, 2)), Err(ModelError::VocabSize(256, 2))));
    assert!(matches!(strict(&with(3, 2)), Err(ModelError::HeadCount(4, 2))));
    assert!(matches!(strict(&with(4, 2)), Err(ModelError::KvHeadCount(1, 2))));
    assert!(lenient(&with(3, 99)).is_ok());
    assert!(matches!(lenient(&with(0, 0)), Err(ModelError::NoLayers)));
    assert!(matches!(lenient(&with(1, 0)), Err(ModelError::ZeroEmbedding)));
    assert!(matches!(lenient(&with(2, 0)), Err(ModelError::ZeroVocab)));
    let llama = [
        ("llama.block_count", 1),
        ("llama.embedding_length", 64),
        ("llama.vocab_size", 256),
        ("llama.attention.head_count", 4),
        ("llama.attention.head_count_kv", 1),
    ];
    assert!(strict(&llama).is_ok());
    assert!(matches!(strict(&[("general.file_type", 1)]), Err(ModelError::LayerCount(1, 0))));
}

#[test]
fn tensors_are_bound() {
    let mut w = GgufWriter::new(3, 32);
    w.add_tensor("a", vec![2, 1], 1, vec![0, 0x3c, 0, 0x40]);
    w.add_tensor("cut", vec![64], 0, vec![0; 4]);
    let image = w.finish().unwrap();
    let m = GgufModel::open(&image).unwrap();
    let t = bind_tensor(&m, "a").unwrap();
    assert_eq!((t.name.as_str(), t.tensor_type, t.elements, t.bytes), ("a", 1, 2, 4));
    assert_eq!(t.dims, vec![2, 1]);
    assert!(t.has_data());
    assert_eq!(t.as_f16(), vec![0x3c00, 0x4000]);
    assert_eq!(t.as_f32(), vec![0x4000_3c00]);
    assert_eq!(t.as_i32(), vec![0x4000_3c00]);
    assert_eq!(t.as_f32_auto(), vec![1.0f32.to_bits(), 2.0f32.to_bits()]);
    assert!(matches!(bind_tensor(&m, "b"), Err(ModelError::MissingTensor(n)) if n == "b"));
    assert!(matches!(bind_tensor(&m, "cut"), Err(ModelError::NoData(n)) if n == "cut"));
    let t = bind_tensor_optional(&m, "b");
    assert!(!t.has_data());
    assert!(t.as_bytes().is_empty());
    assert_eq!(bind_tensor_optional(&m, "a").as_f16(), vec![0x3c00, 0x4000]);
    assert!(matches!(
        bind_weights_unchecked(&m, &Dims::tiny()),
        Err(ModelError::MissingTensor(n)) if n == "token_embd.weight"
    ));
}

#[test]
fn sample_files_of_other_sizes_are_read_back() {
    for (layers, embd, vocab) in [(1, 32, 26), (3, 64, 40)] {
        let mut d = Dims::tiny();
        d.n_layer = layers;
        d.n_embd = embd;
        d.n_vocab = vocab;
        let image = sample_file(&d).finish().unwrap();
        let gguf = GgufModel::open(&image).unwrap();
        assert_eq!(gguf.tensors.len(), 6 + 35 * layers as usize);
        assert!(validate_model(&gguf, &d).is_ok());
        assert_eq!(bind_weights(&gguf, &d).unwrap().layers.len(), layers as usize);
        let v = Vocab::load(&gguf).unwrap();
        assert_eq!(v.n_vocab, vocab as usize);
        if vocab > 26 {
            assert_eq!(v.token_text(39), Some("<tok_39>"));
        }
    }
}

#[test]
fn a_sample_file_with_an_empty_dimension_is_not_bound() {
    let mut d = Dims::tiny();
    d.n_ff_exp = 0;
    let image = sample_file(&d).finish().unwrap();
    let gguf = GgufModel::open(&image).unwrap();
    assert!(bind_weights(&gguf, &d).is_err());
}

#[test]
fn a_short_vocabulary_is_refused() {
    let mut d = Dims::tiny();
    d.n_vocab = 3;
    let image = sample_file(&d).finish().unwrap();
    let gguf = GgufModel::open(&image).unwrap();
    assert!(matches!(Vocab::load(&gguf), Err(VocabError::CountMismatch(3, 26))));
}

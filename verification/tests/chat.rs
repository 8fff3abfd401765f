//! Chat prompts.
use ds4::chat::{
    apply_chat_template, build_chat_prompt, encode_chat_prompt, get_special_token, ThinkMode,
};
use ds4::constants::Dims;
use ds4::gguf::{GgufArray, GgufModel, GgufValue};
use ds4::gguf_writer::GgufWriter;
use ds4::sample_file::sample_file;
use ds4::tokenizer::Vocab;

fn vocab() -> Vocab {
    let image = sample_file(&Dims::tiny()).finish().unwrap();
    Vocab::load(&GgufModel::open(&image).unwrap()).unwrap()
}

fn vocab_of(tokens: &[&str]) -> Vocab {
    let mut w = GgufWriter::new(3, 32);
    w.add_meta("ds4.vocab_size", GgufValue::Uint32(tokens.len() as u32));
    w.add_meta(
        "tokenizer.ggml.tokens",
        GgufValue::Array(GgufArray {
            element_type: 8,
            elements: tokens.iter().map(|t| GgufValue::String(t.to_string())).collect(),
        }),
    );
    let image = w.finish().unwrap();
    Vocab::load(&GgufModel::open(&image).unwrap()).unwrap()
}

const BOS: &str = "<｜begin▁of▁sentence｜>";

#[test]
fn one_question() {
    let v = vocab();
    assert_eq!(
        apply_chat_template("hi", None, ThinkMode::Auto, &v),
        format!("{BOS}You are a helpful assistant<｜User｜>hi<｜Assistant｜><think>")
    );
    assert_eq!(
        apply_chat_template("hi", Some("S"), ThinkMode::Off, &v),
        format!("{BOS}S<｜User｜>hi<｜Assistant｜>")
    );
    assert_eq!(
        apply_chat_template("hi", Some(""), ThinkMode::Max, &v),
        format!("{BOS}<｜User｜>hi<｜Assistant｜><think></think>")
    );
}

#[test]
fn markers_are_tokens_of_their_own() {
    let v = vocab();
    let ids = encode_chat_prompt(&vec![], "Hello", Some("world"), ThinkMode::Normal, &v);
    let mut expected = vec![1];
    expected.extend(v.encode("world"));
    expected.push(3);
    expected.extend(v.encode("Hello"));
    expected.push(4);
    expected.push(5);
    assert_eq!(ids, expected);
    assert_eq!(v.encode("Hello"), vec![17, 18, 19, 19, 20]);
}

#[test]
fn a_conversation_grows() {
    let v = vocab();
    let history = vec![("a".to_string(), "b".to_string())];
    assert_eq!(
        build_chat_prompt(&history, "c", Some("S"), ThinkMode::Normal, &v),
        format!("{BOS}S<｜User｜>a<｜Assistant｜><think>b</think><｜User｜>c<｜Assistant｜><think>")
    );
    assert_eq!(
        build_chat_prompt(&history, "c", Some("S"), ThinkMode::Off, &v),
        format!("{BOS}S<｜User｜>a<｜Assistant｜>b<｜User｜>c<｜Assistant｜>")
    );
    assert_eq!(
        build_chat_prompt(&history, "c", Some("S"), ThinkMode::Max, &v),
        format!(
            "{BOS}S<｜User｜>a<｜Assistant｜><think><think></think>b</think>\
             <｜User｜>c<｜Assistant｜><think></think>"
        )
    );
    let first = build_chat_prompt(&vec![], "a", Some("S"), ThinkMode::Normal, &v);
    let second = build_chat_prompt(&history, "c", Some("S"), ThinkMode::Normal, &v);
    assert!(second.starts_with(&first));
    let first = build_chat_prompt(&vec![], "a", Some("S"), ThinkMode::Max, &v);
    let second = build_chat_prompt(&history, "c", Some("S"), ThinkMode::Max, &v);
    assert!(!second.starts_with(&first));
}

#[test]
fn markers_that_are_missing_are_written_out() {
    let v = vocab_of(&["<|User|>", "A", "s", "i", "t", "a", "n"]);
    assert_eq!(v.bos_id, 0);
    assert_eq!(
        apply_chat_template("x", Some("S"), ThinkMode::Off, &v),
        "<|User|>S<|User|>xAssistant"
    );
    let ids = encode_chat_prompt(&vec![], "", Some(""), ThinkMode::Off, &v);
    assert_eq!(ids[..2], [0, 0]);
    assert_eq!(ids[2..], v.encode("Assistant")[..]);
    assert_eq!(ids[2..], [1, 2, 2, 3, 2, 4, 5, 6, 4]);
}

#[test]
fn special_tokens_are_tried_in_turn() {
    let v = vocab();
    assert_eq!(get_special_token(&v, &["nope", "</think>", "<think>"], "F"), "</think>");
    assert_eq!(get_special_token(&v, &["nope"], "F"), "F");
    assert_eq!(get_special_token(&v, &[], "F"), "F");
}

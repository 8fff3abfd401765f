//! The interactive mode.
use ds4::chat::{encode_chat_prompt, ThinkMode};
use ds4::cli::Command;
use ds4::constants::Dims;
use ds4::dialogue::Dialogue;
use ds4::gguf::GgufModel;
use ds4::sample_file::sample_file;
use ds4::session::Session;
use ds4::tokenizer::Vocab;

fn vocab() -> Vocab {
    let image = sample_file(&Dims::tiny()).finish().unwrap();
    Vocab::load(&GgufModel::open(&image).unwrap()).unwrap()
}

fn session() -> Session {
    let mut s = Session::new(&Dims::tiny(), 64);
    let (n, hc) = (s.logits.len(), s.hc.len());
    s.record(5, vec![1; n], vec![2; hc]);
    s
}

#[test]
fn lines_change_nothing_but_the_one_that_forgets() {
    let mut s = session();
    let mut d = Dialogue::new();
    d.answered("hi".to_string(), "hello".to_string());
    for line in ["", "/help", "/status", "/temp 1", "/what", "/quit", "say"] {
        d.take_line(&mut s, line);
        assert_eq!(d.history, vec![("hi".to_string(), "hello".to_string())]);
        assert_eq!(s.n_tokens(), 1);
    }
    assert!(matches!(d.take_line(&mut s, "/status"), Command::Status));
    assert!(matches!(d.take_line(&mut s, "/clear"), Command::Clear));
    assert!(d.history.is_empty());
    assert_eq!(s.n_tokens(), 0);
    assert!(s.logits.iter().all(|&v| v == 0));
}

#[test]
fn a_conversation_holds_the_answers_since_it_was_forgotten() {
    let mut s = session();
    let mut d = Dialogue::new();
    d.answered("a".to_string(), "b".to_string());
    d.take_line(&mut s, "/clear");
    d.answered("c".to_string(), "d".to_string());
    d.take_line(&mut s, "/help");
    d.answered("e".to_string(), "f".to_string());
    let expected: Vec<(String, String)> =
        [("c", "d"), ("e", "f")].iter().map(|(q, a)| (q.to_string(), a.to_string())).collect();
    assert_eq!(d.history, expected);
}

#[test]
fn prompts_hold_the_conversation() {
    let v = vocab();
    let mut d = Dialogue::new();
    let first = d.prompt("the", None, ThinkMode::Off, &v);
    assert_eq!(first, encode_chat_prompt(&Vec::new(), "the", None, ThinkMode::Off, &v));
    d.answered("the".to_string(), "Hello".to_string());
    let second = d.prompt("the", None, ThinkMode::Off, &v);
    assert!(second.len() > first.len());
    assert_eq!(second, encode_chat_prompt(&d.history, "the", None, ThinkMode::Off, &v));
}

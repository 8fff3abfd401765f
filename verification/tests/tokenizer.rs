//! The tokenizer: byte texts, character classes, pieces, encoding and decoding.
use ds4::gguf::{GgufArray, GgufModel, GgufValue};
use ds4::gguf_writer::GgufWriter;
use ds4::tokenizer::{
    byte_encode, byte_encode_str, gpt2_byte_to_unicode, is_ascii_alpha, is_ascii_digit,
    is_ascii_newline, is_ascii_punct, is_ascii_space, is_cjk_at, is_cjk_hira_kata, is_letter_like,
    consume_letters, next_utf8_char, pretokenize, utf8_len, utf8_peek_one, Vocab, VocabError,
};

fn strings(list: &[String]) -> GgufValue {
    GgufValue::Array(GgufArray {
        element_type: 8,
        elements: list.iter().map(|s| GgufValue::String(s.clone())).collect(),
    })
}

/// Load a vocabulary through a file image.
fn load_vocab_with_merges(tokens: &[String], merges: &[String], bos: u32, eos: u32) -> Vocab {
    let mut w = GgufWriter::new(3, 32);
    w.add_meta("ds4.vocab_size", GgufValue::Uint32(tokens.len() as u32));
    w.add_meta("tokenizer.ggml.tokens", strings(tokens));
    w.add_meta("tokenizer.ggml.merges", strings(merges));
    w.add_meta("tokenizer.ggml.bos_token_id", GgufValue::Uint32(bos));
    w.add_meta("tokenizer.ggml.eos_token_id", GgufValue::Uint32(eos));
    let image = w.finish().expect("layout fits");
    let model = GgufModel::open(&image).expect("image can be read");
    Vocab::load(&model).expect("vocabulary can be loaded")
}

fn load_vocab(tokens: &[String], bos: u32, eos: u32) -> Vocab {
    load_vocab_with_merges(tokens, &[], bos, eos)
}


// byte_encode / gpt2_byte_to_unicode

#[test]
fn test_gpt2_byte_to_unicode_printable() {
    // Printable ASCII passes through
    assert_eq!(gpt2_byte_to_unicode(b'H'), 'H');
    assert_eq!(gpt2_byte_to_unicode(b'e'), 'e');
    assert_eq!(gpt2_byte_to_unicode(b'a'), 'a');
    assert_eq!(gpt2_byte_to_unicode(b'0'), '0');
    assert_eq!(gpt2_byte_to_unicode(b'!'), '!');
    // Boundary values in printable range
    assert_eq!(gpt2_byte_to_unicode(33), '!');
    assert_eq!(gpt2_byte_to_unicode(126), '~');
    assert_eq!(gpt2_byte_to_unicode(161), '¡');
    assert_eq!(gpt2_byte_to_unicode(172), '¬');
    assert_eq!(gpt2_byte_to_unicode(174), '®');
}

#[test]
fn test_gpt2_byte_to_unicode_control() {
    // Space (0x20) → Ġ (U+0120)
    assert_eq!(gpt2_byte_to_unicode(b' '), 'Ġ');
    // Tab (0x09) → U+0109
    assert_eq!(gpt2_byte_to_unicode(b'\t') as u32, 0x0109);
    // Newline (0x0a) → U+010A
    assert_eq!(gpt2_byte_to_unicode(b'\n') as u32, 0x010A);
    // Null (0x00) → U+0100
    assert_eq!(gpt2_byte_to_unicode(0x00) as u32, 0x0100);
}

#[test]
fn test_byte_encode_hello() {
    assert_eq!(byte_encode(b"Hello"), "Hello");
}

#[test]
fn test_byte_encode_space() {
    // Space byte (0x20) → Ġ
    assert_eq!(byte_encode(b" "), "Ġ");
    assert_eq!(byte_encode(b"Hello world"), "HelloĠworld");
}

#[test]
fn test_byte_encode_roundtrip() {
    // Every byte 0..255 must produce a unique, printable char
    let mut seen = std::collections::HashSet::new();
    for b in 0u8..=255 {
        let ch = gpt2_byte_to_unicode(b);
        assert!(ch as u32 >= 32, "byte {} → U+{:04X} (non-printable)", b, ch as u32);
        assert!(seen.insert(ch), "byte {} → '{}' collides", b, ch);
    }
}

// UTF-8 helpers

#[test]
fn test_utf8_len_ascii() {
    assert_eq!(utf8_len(b'a'), 1);
    assert_eq!(utf8_len(b'z'), 1);
    assert_eq!(utf8_len(b' '), 1);
}

#[test]
fn test_utf8_len_multibyte() {
    assert_eq!(utf8_len(0xc2), 2); // 2-byte lead
    assert_eq!(utf8_len(0xe0), 3); // 3-byte lead
    assert_eq!(utf8_len(0xf0), 4); // 4-byte lead
}

#[test]
fn test_utf8_len_invalid() {
    assert_eq!(utf8_len(0x80), 1); // continuation byte → 1
    assert_eq!(utf8_len(0xfe), 1); // invalid lead → 1
}

#[test]
fn test_utf8_peek_one_ascii() {
    let s = b"Hello";
    assert_eq!(utf8_peek_one(s, 0), (b'H' as u32, 1));
    assert_eq!(utf8_peek_one(s, 1), (b'e' as u32, 2));
}

#[test]
fn test_utf8_peek_one_cjk() {
    // 你好 = e4 bd a0  e5 a5 bd
    let s = "你好".as_bytes();
    let (cp, next) = utf8_peek_one(s, 0);
    assert_eq!(cp, 0x4f60); // 你
    assert_eq!(next, 3);
    let (cp, next) = utf8_peek_one(s, 3);
    assert_eq!(cp, 0x597d); // 好
    assert_eq!(next, 6);
}

#[test]
fn test_utf8_peek_one_gpt2_encoded_space() {
    // Ġ = U+0120 = c4 a0
    let s = "Ġ".as_bytes();
    let (cp, next) = utf8_peek_one(s, 0);
    assert_eq!(cp, 0x0120);
    assert_eq!(next, 2);
}

// Character classification

#[test]
fn test_is_ascii_punct_ranges() {
    assert!(is_ascii_punct(b'!'));
    assert!(is_ascii_punct(b'/'));
    assert!(is_ascii_punct(b':'));
    assert!(is_ascii_punct(b'@'));
    assert!(is_ascii_punct(b'['));
    assert!(is_ascii_punct(b'`'));
    assert!(is_ascii_punct(b'{'));
    assert!(is_ascii_punct(b'~'));
    assert!(!is_ascii_punct(b'A'));
    assert!(!is_ascii_punct(b'0'));
    assert!(!is_ascii_punct(b' '));
}

#[test]
fn test_is_cjk_hira_kata() {
    assert!(is_cjk_hira_kata(0x4e00)); // CJK start
    assert!(is_cjk_hira_kata(0x9fa5)); // CJK end
    assert!(is_cjk_hira_kata(0x3040)); // Hiragana start
    assert!(is_cjk_hira_kata(0x309f)); // Hiragana end
    assert!(is_cjk_hira_kata(0x30a0)); // Katakana start
    assert!(is_cjk_hira_kata(0x30ff)); // Katakana end
    assert!(!is_cjk_hira_kata(0x0041)); // 'A' — ASCII
    assert!(!is_cjk_hira_kata(0x00e9)); // é — Latin supplement
}

#[test]
fn test_is_letter_like() {
    let s = b"Hello";
    assert!(is_letter_like(s, 0)); // 'H'
    assert!(!is_letter_like(b" ", 0)); // space is not letter-like
    assert!(!is_letter_like(b"!", 0)); // punct is not letter-like
    assert!(!is_letter_like(b"0", 0)); // digit is not letter-like
}

// JoyAI pre-tokenizer piece boundaries

/// The pieces of a text, as strings.
fn pretokenize_pieces(text: &str) -> Vec<String> {
    pretokenize(text.as_bytes())
        .into_iter()
        .map(|p| String::from_utf8_lossy(&p).to_string())
        .collect()
}

#[test]
fn test_pretokenize_hello_world() {
    // "Hello world": H,e,l,l,o are letters → piece "Hello";
    // space + letter → JoyAI joins the space with the word → " world"
    let pieces = pretokenize_pieces("Hello world");
    assert_eq!(pieces, vec!["Hello", " world"]);
}

#[test]
fn test_pretokenize_spaces_then_word() {
    // "   Hello": 3 spaces then letter.
    // JoyAI: "  " (consume all but last), " Hello" (leading space + word)
    let pieces = pretokenize_pieces("   Hello");
    assert_eq!(pieces, vec!["  ", " Hello"]);
}

#[test]
fn test_pretokenize_cjk() {
    let pieces = pretokenize_pieces("你好世界");
    // CJK chars should be grouped together 
    assert_eq!(pieces.len(), 1);
    assert_eq!(pieces[0], "你好世界");
}

#[test]
fn test_pretokenize_cjk_mixed() {
    // Runs of letters take non-ASCII (including CJK) when reached
    // via the letter-like path. CJK is only split out when encountered as
    // the FIRST char of a piece (CJK rule checked before letter rule).
    // Here 'H' triggers letter rule, then consume_letters eats everything.
    let pieces = pretokenize_pieces("Hello你好World");
    assert_eq!(pieces, vec!["Hello你好World"]);
}

#[test]
fn test_pretokenize_cjk_isolated() {
    // CJK as first char: CJK rule fires, groups the CJK run
    let pieces = pretokenize_pieces("你好World");
    assert_eq!(pieces, vec!["你好", "World"]);
}

#[test]
fn test_pretokenize_digits() {
    // Digits grouped 1-3 at a time
    let pieces = pretokenize_pieces("12345");
    assert_eq!(pieces, vec!["123", "45"]);
}

#[test]
fn test_pretokenize_punct_alpha() {
    // Punct immediately before alpha joins: "*ptr" is one piece
    let pieces = pretokenize_pieces("*ptr");
    assert_eq!(pieces, vec!["*ptr"]);
}

#[test]
fn test_pretokenize_punct_run() {
    // Punctuation runs are grouped
    let pieces = pretokenize_pieces("!!!");
    assert_eq!(pieces, vec!["!!!"]);
}

#[test]
fn test_pretokenize_punct_newline() {
    // Punctuation + trailing newline: ">;\n" stays together
    let pieces = pretokenize_pieces(">;\n");
    assert_eq!(pieces, vec![">;\n"]);
}

#[test]
fn test_pretokenize_space_punct() {
    // Space + punct rule: " !" → piece " !" (space joins punct)
    let pieces = pretokenize_pieces(" !");
    assert_eq!(pieces, vec![" !"]);
}

#[test]
fn test_pretokenize_newline_in_spaces() {
    // "  \n  " — spaces, newline, spaces.
    // White space: scan all spaces, last_newline_end=3.
    // Piece 1: "  \n", then pos=3, remaining "  " becomes piece 2.
    let pieces = pretokenize_pieces("  \n  ");
    assert_eq!(pieces, vec!["  \n", "  "]);
}

#[test]
fn test_pretokenize_non_alpha_then_letter() {
    // "`int" → '`' is not a letter, 'i' is a letter
    // Rule: skip one non-letter/punct/non-newline, then consume letters
    // But wait: '`' IS punct! So it should be caught by the punct rule or
    // by the punct+alpha rule. Let's check:
    // '`' = 0x60, is_ascii_punct(0x60) = true (in ['@'..'`'] range)
    // So this is punct+alpha rule → "`int"
    // Actually: punct+alpha requires `pos+1 < len && is_ascii_alpha(s[pos+1])`
    // '`' is punct, 'i' is alpha → "`int" as one piece
    let pieces = pretokenize_pieces("`int");
    assert_eq!(pieces, vec!["`int"]);
}

#[test]
fn test_pretokenize_code_line() {
    // Test a realistic code line
    let pieces = pretokenize_pieces("int x = 42;");
    assert_eq!(pieces, vec!["int", " x", " =", " ", "42", ";"]);
}

// BPE encoding (with test vocab, empty merges)

/// Build a minimal test vocab with special tokens, words and single characters.
fn test_vocab() -> Vocab {
    let tokens: Vec<String> = [
        "<unk>",
        "<｜begin▁of▁sentence｜>",
        "<｜end▁of▁sentence｜>",
        "<｜User｜>",
        "<｜Assistant｜>",
        "<think>",
        "</think>",
        "｜DSML｜",
        "the",
        "Hello",
        "a",
        "is",
        "of",
        "and",
        "to",
        "world",
        "Ġ", // GPT-2 encoded space — crucial!
        "H", "e", "l", "o", "w", "r", "d", "t", "test",
        // Add more single-char tokens so BPE doesn't silently drop chars
        "b", "c", "f", "g", "h", "i", "j", "k", "m",
        "n", "p", "q", "s", "u", "v", "x", "y", "z",
        "A", "B", "C", "D", "E", "F", "G", "I", "J",
        "K", "L", "M", "N", "O", "P", "Q", "R", "S",
        "T", "U", "V", "W", "X", "Y", "Z",
        "0", "1", "2", "3", "4", "5", "6", "7", "8", "9",
        "!", "\"", "#", "$", "%", "&", "'", "(", ")",
        "*", "+", ",", "-", ".", "/", ":", ";", "<",
        "=", ">", "?", "@", "[", "\\", "]", "^", "_",
        "`", "{", "|", "}", "~",
    ]
    .iter()
    .map(|s| s.to_string())
    .collect();

    load_vocab(&tokens, 1, 2)
}

fn encode_test(text: &str) -> Vec<i32> {
    test_vocab().encode(text)
}

#[test]
fn test_encode_hello_world() {
    let ids = encode_test("Hello world");
    // "Hello" → H(17), e(18), l(19), l(19), o(20)
    // " world" → byte_encode: "Ġworld" → Ġ(16), w(21), o(20), r(22), l(19), d(23)
    assert_eq!(ids, vec![17, 18, 19, 19, 20, 16, 21, 20, 22, 19, 23]);
}

#[test]
fn test_encode_simple_word() {
    let ids = encode_test("Hello");
    assert_eq!(ids, vec![17, 18, 19, 19, 20]);
}

#[test]
fn test_encode_with_spaces() {
    // "   Hello": pre-tokenizer gives ["  ", " Hello"]
    // "  " → byte_encode: "ĠĠ" → Ġ(16) Ġ(16)
    // " Hello" → byte_encode: "ĠHello" → Ġ(16) H(17) e(18) l(19) l(19) o(20)
    let ids = encode_test("   Hello");
    assert_eq!(ids, vec![16, 16, 16, 17, 18, 19, 19, 20]);
}

#[test]
fn test_encode_code_line() {
    // "int x = 42;"
    // Pieces: ["int", " x", " =", " ", "42", ";"]
    // "int" → byte_encode "int" → i(31), n(35), t(24)
    // " x" → byte_encode "Ġx" → Ġ(16), x(41)
    // " =" → byte_encode "Ġ=" → Ġ(16), =(97)
    // " " → byte_encode "Ġ" → Ġ(16)
    // "42" → byte_encode "42" → 4(73), 2(71)
    // ";" → byte_encode ";" → ;(95)
    let ids = encode_test("int x = 42;");
    assert_eq!(ids, vec![31, 35, 24, 16, 41, 16, 97, 16, 73, 71, 95]);
}

#[test]
fn test_encode_punct_newline() {
    // ">;\n" stays as one piece (punct run + trailing newlines)
    // byte_encode: ">"(62), ";"(59), "\n"→Ċ (U+010A)
    // Ċ not in test vocab, falls back to single-byte lookup (also not found)
    // So output: >(98), ;(95)
    let ids = encode_test(">;\n");
    assert_eq!(ids, vec![98, 95]);
}

// Decode

#[test]
fn test_decode_roundtrip() {
    let vocab = test_vocab();
    let text = "Hello world";
    let ids = vocab.encode(text);
    let decoded = vocab.decode(&ids);
    // Decoding just concatenates token strings; with GPT-2 BPE,
    // "HelloĠworld" is the decoded form (Ġ = space)
    assert_eq!(decoded, "HelloĠworld");
}

// Special token IDs

#[test]
fn test_special_token_ids() {
    let vocab = test_vocab();
    assert_eq!(vocab.bos_id, 1);
    assert_eq!(vocab.eos_id, 2);
    assert_eq!(vocab.token_id("<｜begin▁of▁sentence｜>"), Some(1));
    assert_eq!(vocab.token_id("<｜end▁of▁sentence｜>"), Some(2));
}

#[test]
fn test_byte_encode_ascii() {
    let encoded = byte_encode(b"Hello");
    assert_eq!(encoded, "Hello");
}

#[test]
fn test_byte_encode_mixed() {
    let encoded = byte_encode("Café".as_bytes());
    // 'C', 'a', 'f' are printable, 'é' (233) is not
    assert!(encoded.starts_with("Caf"));
    assert!(encoded.len() > 3);
}

#[test]
fn byte_encode_str_is_byte_encode_of_utf8() {
    assert_eq!(byte_encode_str("a b"), "aĠb");
    assert_eq!(byte_encode_str("é"), byte_encode(&[0xc3, 0xa9]));
    assert_eq!(gpt2_byte_to_unicode(127) as u32, 0x121);
    assert_eq!(gpt2_byte_to_unicode(160) as u32, 0x142);
    assert_eq!(gpt2_byte_to_unicode(173) as u32, 0x143);
}

#[test]
fn characters_are_stepped_over() {
    let s = "aé你😀".as_bytes();
    assert_eq!(next_utf8_char(s, 0), 1);
    assert_eq!(next_utf8_char(s, 1), 3);
    assert_eq!(next_utf8_char(s, 3), 6);
    assert_eq!(next_utf8_char(s, 6), 10);
    assert_eq!(next_utf8_char(s, 10), 10);
    assert_eq!(utf8_peek_one(s, 6), (0x1f600, 10));
    assert_eq!(utf8_peek_one(s, 10), (0, 10));
    // A character that is cut off counts as one byte.
    assert_eq!(next_utf8_char(&[0xe4, 0xbd], 0), 1);
    assert_eq!(utf8_peek_one(&[0xe4, 0xbd], 0), (0xe4, 1));
}

#[test]
fn classes_at_their_edges() {
    assert!(is_ascii_alpha(b'A') && is_ascii_alpha(b'z') && !is_ascii_alpha(b'@'));
    assert!(is_ascii_digit(b'0') && is_ascii_digit(b'9') && !is_ascii_digit(b'/'));
    assert!(is_ascii_space(b' ') && is_ascii_space(0x0b) && !is_ascii_space(0x0e));
    assert!(is_ascii_newline(b'\r') && !is_ascii_newline(b'\t'));
    assert!(is_cjk_at("你".as_bytes(), 0) && !is_cjk_at(b"a", 0) && !is_cjk_at(b"a", 1));
    assert_eq!(consume_letters("abé1".as_bytes(), 0), 4);
    assert_eq!(consume_letters(b"1", 0), 0);
}

#[test]
fn pieces_make_up_the_text() {
    for text in ["", "a1234 b\t\n  c!?\n\n x", "你好, Wörld 42  "] {
        let ps = pretokenize(text.as_bytes());
        assert!(ps.iter().all(|p| !p.is_empty()));
        assert_eq!(ps.concat(), text.as_bytes());
    }
    assert_eq!(pretokenize_pieces("a1234 b"), vec!["a", "123", "4", " b"]);
    assert_eq!(pretokenize_pieces(" a\n\nb"), vec![" a", "\n\n", "b"]);
    assert_eq!(pretokenize_pieces("  "), vec!["  "]);
    assert_eq!(pretokenize_pieces("\x01"), vec!["\x01"]);
}

#[test]
fn merges_apply_lowest_rank_first() {
    let tokens: Vec<String> =
        ["l", "o", "w", "lo", "ow", "low", "Ġ"].iter().map(|s| s.to_string()).collect();
    // "o w" has the lower rank, so "ow" is made first and "lo" never.
    let merges: Vec<String> = ["o w", "l o", "l ow"].iter().map(|s| s.to_string()).collect();
    let vocab = load_vocab_with_merges(&tokens, &merges, 0, 1);
    assert_eq!(vocab.encode("low"), vec![5]);
    assert_eq!(vocab.encode("lo"), vec![3]);
    assert_eq!(vocab.encode("lolow"), vec![3, 5]);
    assert_eq!(vocab.decode(&vocab.encode("low lo")), "lowĠlo");
}

#[test]
fn symbols_fall_back_to_their_bytes() {
    // "é" becomes the two symbols Ã and ©; the first is no token, but its UTF-8 bytes are
    // looked up one by one.
    let tokens: Vec<String> = ["\u{c3}", "\u{83}", "x"].iter().map(|s| s.to_string()).collect();
    let vocab = load_vocab(&tokens, 0, 0);
    assert_eq!(vocab.encode("é"), vec![0]);
    let tokens: Vec<String> = ["\u{83}", "x"].iter().map(|s| s.to_string()).collect();
    let vocab = load_vocab(&tokens, 0, 0);
    assert_eq!(vocab.encode("é"), vec![0]);
}

#[test]
fn ids_outside_the_vocabulary_have_no_text() {
    let vocab = test_vocab();
    assert_eq!(vocab.token_text(-1), None);
    assert_eq!(vocab.token_text(vocab.n_vocab as i32), None);
    assert_eq!(vocab.token_text(8), Some("the"));
    assert_eq!(vocab.token_id("no such token"), None);
    assert_eq!(vocab.decode(&[8, -5, 9]), "theHello");
    assert_eq!(vocab.user_id, 3);
    assert_eq!(vocab.assistant_id, 4);
    assert_eq!(vocab.think_start_id, 5);
    assert_eq!(vocab.think_end_id, 6);
    assert_eq!(vocab.dsml_id, 7);
}

#[test]
fn special_tokens_have_defaults() {
    let mut w = GgufWriter::new(3, 32);
    w.add_meta("llama.vocab_size", GgufValue::Uint32(1));
    w.add_meta("tokenizer.ggml.tokens", strings(&["a".to_string()]));
    let image = w.finish().unwrap();
    let vocab = Vocab::load(&GgufModel::open(&image).unwrap()).unwrap();
    assert_eq!((vocab.bos_id, vocab.eos_id, vocab.user_id), (0, 1, -1));
}

#[test]
fn vocabulary_errors() {
    let load = |size: Option<u32>, tokens: Option<GgufValue>| {
        let mut w = GgufWriter::new(3, 32);
        w.add_meta("general.name", GgufValue::String("a name long enough".to_string()));
        if let Some(n) = size {
            w.add_meta("ds4.vocab_size", GgufValue::Uint32(n));
        }
        if let Some(t) = tokens {
            w.add_meta("tokenizer.ggml.tokens", t);
        }
        let image = w.finish().unwrap();
        Vocab::load(&GgufModel::open(&image).unwrap()).err()
    };
    assert_eq!(load(None, None), Some(VocabError::MissingSize));
    assert_eq!(load(Some(1), None), Some(VocabError::MissingTokens));
    assert_eq!(load(Some(1), Some(GgufValue::Uint32(1))), Some(VocabError::MissingTokens));
    assert_eq!(load(Some(2), Some(strings(&["a".to_string()]))), Some(VocabError::CountMismatch(2, 1)));
}

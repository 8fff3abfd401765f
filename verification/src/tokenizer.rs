//! Byte-level BPE tokenizer with a rule-based pre-tokenizer.
use crate::bpe::{bpe_emit_piece, id_map, id_text, ids_text, pieces_ids, text_views};
use crate::gguf::{lookup_u32, GgufArray, GgufModel, GgufValue, ValueView};
use crate::text::{char_from_u32, chars_of, push_char};
use vstd::hash_map::StringHashMap;
use vstd::prelude::*;
use vstd::slice::slice_subrange;
use vstd::utf8::encode_utf8;

verus! {

// Byte-to-unicode mapping

/// Bytes that stand for themselves in the symbol alphabet.
pub open spec fn printable(b: int) -> bool {
    33 <= b <= 126 || 161 <= b <= 172 || 174 <= b <= 255
}

/// How many bytes below `b` are not printable.
pub open spec fn unprintable_below(b: int) -> nat
    decreases b,
{
    if b <= 0 {
        0
    } else {
        unprintable_below(b - 1) + if printable(b - 1) {
            0nat
        } else {
            1nat
        }
    }
}

/// The character that stands for a byte: a printable byte for itself, the others in order from
/// U+0100 on.
pub open spec fn byte_char(b: u8) -> char {
    if printable(b as int) {
        b as char
    } else {
        (256 + unprintable_below(b as int)) as char
    }
}

proof fn lemma_unprintable_below(a: int, b: int)
    requires
        0 <= a <= b <= 256,
    ensures
        unprintable_below(a) <= unprintable_below(b) <= unprintable_below(a) + b - a,
        a < b && !printable(a) ==> unprintable_below(a) < unprintable_below(b),
    decreases b - a,
{
    if a < b {
        lemma_unprintable_below(a, b - 1);
    }
}

/// Map a raw byte to its printable Unicode character.
pub fn gpt2_byte_to_unicode(b: u8) -> (c: char)
    ensures
        c == byte_char(b),
{
    if (b >= 33 && b <= 126) || (b >= 161 && b <= 172) || b >= 174 {
        return b as char;
    }
    let mut n: u32 = 0;
    let mut x: u8 = 0;
    while x < b
        invariant
            x <= b,
            n == unprintable_below(x as int),
            n <= x,
        decreases b - x,
    {
        if !((x >= 33 && x <= 126) || (x >= 161 && x <= 172) || x >= 174) {
            n = n + 1;
        }
        x = x + 1;
    }
    match char_from_u32(256 + n) {
        Some(c) => c,
        None => b as char,
    }
}

/// Every byte has a character of its own, and none of them is a control character or a space.
pub proof fn law_byte_char_unique(a: u8, b: u8)
    ensures
        byte_char(a) == byte_char(b) ==> a == b,
        byte_char(a) as u32 >= 33,
{
    lemma_unprintable_below(0, a as int);
    lemma_unprintable_below(0, b as int);
    if a < b {
        lemma_unprintable_below(a as int, b as int);
    } else if b < a {
        lemma_unprintable_below(b as int, a as int);
    }
}

/// The text that stands for raw bytes.
pub open spec fn byte_text(raw: Seq<u8>) -> Seq<char> {
    Seq::new(raw.len(), |i: int| byte_char(raw[i]))
}

/// Different bytes have different texts.
pub proof fn law_byte_text_unique(a: Seq<u8>, b: Seq<u8>)
    requires
        byte_text(a) == byte_text(b),
    ensures
        a == b,
{
    assert(byte_text(a).len() == a.len());
    assert(byte_text(b).len() == b.len());
    assert forall|i: int| 0 <= i < a.len() implies a[i] == b[i] by {
        assert(byte_text(a)[i] == byte_char(a[i]) && byte_text(b)[i] == byte_char(b[i]));
        law_byte_char_unique(a[i], b[i]);
    }
    assert(a =~= b);
}

/// The byte that a character stands for, if it stands for one.
pub open spec fn char_byte(c: char) -> Option<u8> {
    if exists|b: u8| byte_char(b) == c {
        Some(choose|b: u8| byte_char(b) == c)
    } else {
        None
    }
}

/// The bytes that a text stands for. Characters that stand for no byte are passed over.
pub open spec fn raw_bytes(t: Seq<char>) -> Seq<u8>
    decreases t.len(),
{
    if t.len() == 0 {
        seq![]
    } else {
        match char_byte(t.last()) {
            Some(b) => raw_bytes(t.drop_last()).push(b),
            None => raw_bytes(t.drop_last()),
        }
    }
}

fn find_byte(c: char) -> (r: Option<u8>)
    ensures
        r == char_byte(c),
{
    let mut i: u32 = 0;
    while i < 256
        invariant
            i <= 256,
            forall|b: u8| b < i ==> byte_char(b) != c,
        decreases 256 - i,
    {
        let b: u8 = i as u8;
        if gpt2_byte_to_unicode(b) == c {
            proof {
                law_byte_char_unique(b, choose|k: u8| byte_char(k) == c);
            }
            return Some(b);
        }
        i = i + 1;
    }
    None
}

/// Map the text of a token back to the raw bytes that it stands for.
pub fn token_to_bytes(text: &str) -> (r: Vec<u8>)
    ensures
        r@ == raw_bytes(text@),
{
    let t = chars_of(text);
    let mut r: Vec<u8> = Vec::new();
    let mut i: usize = 0;
    assert(t@.take(0) =~= seq![]);
    while i < t.len()
        invariant
            i <= t@.len(),
            r@ == raw_bytes(t@.take(i as int)),
        decreases t@.len() - i,
    {
        proof {
            assert(t@.take(i + 1).drop_last() =~= t@.take(i as int));
        }
        match find_byte(t[i]) {
            Some(b) => r.push(b),
            None => {},
        }
        i = i + 1;
    }
    assert(t@.take(t@.len() as int) =~= t@);
    r
}

/// The bytes that a text stands for come back from the text that stands for them.
pub proof fn law_byte_text_round_trip(raw: Seq<u8>)
    ensures
        raw_bytes(byte_text(raw)) == raw,
    decreases raw.len(),
{
    if raw.len() > 0 {
        let t = byte_text(raw);
        assert(t.drop_last() =~= byte_text(raw.drop_last()));
        law_byte_text_round_trip(raw.drop_last());
        assert(byte_char(raw.last()) == t.last());
        law_byte_char_unique(raw.last(), choose|b: u8| byte_char(b) == t.last());
        assert(raw.drop_last().push(raw.last()) =~= raw);
    } else {
        assert(byte_text(raw) =~= seq![]);
        assert(raw =~= seq![]);
    }
}

/// Map raw bytes to the text that stands for them.
pub fn byte_encode(raw: &[u8]) -> (s: String)
    ensures
        s@ == byte_text(raw@),
{
    let mut s = String::new();
    let mut i: usize = 0;
    assert(s@ =~= byte_text(raw@.take(0)));
    while i < raw.len()
        invariant
            i <= raw@.len(),
            s@ == byte_text(raw@.take(i as int)),
        decreases raw@.len() - i,
    {
        push_char(&mut s, gpt2_byte_to_unicode(raw[i]));
        proof {
            assert(byte_text(raw@.take(i + 1)) =~= byte_text(raw@.take(i as int)).push(
                byte_char(raw@[i as int]),
            ));
        }
        i = i + 1;
    }
    assert(raw@.take(raw@.len() as int) =~= raw@);
    s
}

/// `byte_encode` of the UTF-8 of a string.
pub fn byte_encode_str(s: &str) -> (r: String)
    ensures
        r@ == byte_text(encode_utf8(s@)),
{
    byte_encode(s.as_bytes())
}

// UTF-8 helpers

/// The length that a leading byte announces; 1 for a byte that leads nothing.
pub open spec fn lead_len(c: u8) -> int {
    if 0xc0 <= c <= 0xdf {
        2
    } else if 0xe0 <= c <= 0xef {
        3
    } else if 0xf0 <= c <= 0xf7 {
        4
    } else {
        1
    }
}

/// UTF-8 character length from the leading byte.
pub fn utf8_len(c: u8) -> (n: usize)
    ensures
        n == lead_len(c),
{
    if c < 0x80 {
        1
    } else if c >= 0xc0 && c <= 0xdf {
        2
    } else if c >= 0xe0 && c <= 0xef {
        3
    } else if c >= 0xf0 && c <= 0xf7 {
        4
    } else {
        1
    }
}

/// The position behind the character at `pos`. A character that is cut off counts as one byte.
pub open spec fn char_end(s: Seq<u8>, pos: int) -> int {
    if pos >= s.len() {
        pos
    } else if pos + lead_len(s[pos]) > s.len() {
        pos + 1
    } else {
        pos + lead_len(s[pos])
    }
}

/// Advance `pos` past one UTF-8 character.
pub fn next_utf8_char(s: &[u8], pos: usize) -> (p: usize)
    ensures
        p == char_end(s@, pos as int),
{
    if pos >= s.len() {
        return pos;
    }
    let n: usize = utf8_len(s[pos]);
    if n > s.len() - pos {
        pos + 1
    } else {
        pos + n
    }
}

/// The codepoint at `pos`: its data bits put together. Past the end it is 0, and for a character
/// that is cut off it is its first byte.
pub open spec fn codepoint_at(s: Seq<u8>, pos: int) -> u32 {
    if pos >= s.len() {
        0
    } else {
        let c = s[pos];
        if pos + lead_len(c) > s.len() || lead_len(c) == 1 {
            c as u32
        } else if lead_len(c) == 2 {
            (c % 32 * 64 + s[pos + 1] % 64) as u32
        } else if lead_len(c) == 3 {
            (c % 16 * 4096 + s[pos + 1] % 64 * 64 + s[pos + 2] % 64) as u32
        } else {
            (c % 8 * 262144 + s[pos + 1] % 64 * 4096 + s[pos + 2] % 64 * 64 + s[pos + 3]
                % 64) as u32
        }
    }
}

/// Decode one UTF-8 codepoint and return it with the next position.
pub fn utf8_peek_one(s: &[u8], pos: usize) -> (r: (u32, usize))
    ensures
        r.0 == codepoint_at(s@, pos as int),
        r.1 == char_end(s@, pos as int),
{
    if pos >= s.len() {
        return (0, pos);
    }
    let c: u8 = s[pos];
    let n: usize = utf8_len(c);
    if n > s.len() - pos {
        return (c as u32, pos + 1);
    }
    let cp: u32 = match n {
        1 => c as u32,
        2 => (c % 32) as u32 * 64 + (s[pos + 1] % 64) as u32,
        3 => (c % 16) as u32 * 4096 + (s[pos + 1] % 64) as u32 * 64 + (s[pos + 2] % 64) as u32,
        _ => (c % 8) as u32 * 262144 + (s[pos + 1] % 64) as u32 * 4096 + (s[pos + 2] % 64) as u32
            * 64 + (s[pos + 3] % 64) as u32,
    };
    (cp, pos + n)
}

// Character classes

pub open spec fn alpha(c: u8) -> bool {
    65 <= c <= 90 || 97 <= c <= 122
}

pub open spec fn digit(c: u8) -> bool {
    48 <= c <= 57
}

/// Tab, line feed, vertical tab, form feed, carriage return and space.
pub open spec fn space(c: u8) -> bool {
    c == 32 || 9 <= c <= 13
}

pub open spec fn newline(c: u8) -> bool {
    c == 10 || c == 13
}

pub open spec fn punct(c: u8) -> bool {
    33 <= c <= 47 || 58 <= c <= 64 || 91 <= c <= 96 || 123 <= c <= 126
}

/// Letters: ASCII letters, and every byte that is not ASCII.
pub open spec fn letter(c: u8) -> bool {
    alpha(c) || c >= 128
}

pub fn is_ascii_alpha(c: u8) -> (r: bool)
    ensures
        r == alpha(c),
{
    (c >= 0x41 && c <= 0x5a) || (c >= 0x61 && c <= 0x7a)
}

pub fn is_ascii_digit(c: u8) -> (r: bool)
    ensures
        r == digit(c),
{
    c >= 0x30 && c <= 0x39
}

pub fn is_ascii_space(c: u8) -> (r: bool)
    ensures
        r == space(c),
{
    c == 0x20 || c == 0x09 || c == 0x0a || c == 0x0d || c == 0x0b || c == 0x0c
}

pub fn is_ascii_newline(c: u8) -> (r: bool)
    ensures
        r == newline(c),
{
    c == 0x0a || c == 0x0d
}

/// ASCII punctuation and symbols.
pub fn is_ascii_punct(c: u8) -> (r: bool)
    ensures
        r == punct(c),
{
    (c >= 0x21 && c <= 0x2f) || (c >= 0x3a && c <= 0x40) || (c >= 0x5b && c <= 0x60) || (c >= 0x7b
        && c <= 0x7e)
}

/// CJK, Hiragana and Katakana codepoints.
pub open spec fn cjk(cp: u32) -> bool {
    0x4e00 <= cp <= 0x9fa5 || 0x3040 <= cp <= 0x309f || 0x30a0 <= cp <= 0x30ff
}

pub fn is_cjk_hira_kata(cp: u32) -> (r: bool)
    ensures
        r == cjk(cp),
{
    (cp >= 0x4e00 && cp <= 0x9fa5) || (cp >= 0x3040 && cp <= 0x309f) || (cp >= 0x30a0 && cp
        <= 0x30ff)
}

/// A CJK, Hiragana or Katakana character starts at `pos`.
pub open spec fn cjk_at(s: Seq<u8>, pos: int) -> bool {
    pos < s.len() && s[pos] >= 128 && cjk(codepoint_at(s, pos))
}

pub fn is_cjk_at(s: &[u8], pos: usize) -> (r: bool)
    ensures
        r == cjk_at(s@, pos as int),
{
    if pos >= s.len() || s[pos] < 128 {
        return false;
    }
    let (cp, _next) = utf8_peek_one(s, pos);
    is_cjk_hira_kata(cp)
}

/// A letter stands at `pos`.
pub open spec fn letter_at(s: Seq<u8>, pos: int) -> bool {
    pos < s.len() && letter(s[pos])
}

pub fn is_letter_like(s: &[u8], pos: usize) -> (r: bool)
    ensures
        r == letter_at(s@, pos as int),
{
    if pos >= s.len() {
        return false;
    }
    let c: u8 = s[pos];
    if c < 128 {
        return is_ascii_alpha(c);
    }
    true
}

/// The end of the run of letters from `pos` on.
pub open spec fn letters_end(s: Seq<u8>, pos: int) -> int
    decreases s.len() - pos,
{
    if 0 <= pos && letter_at(s, pos) {
        letters_end(s, char_end(s, pos))
    } else {
        pos
    }
}

/// Consume a run of letters.
pub fn consume_letters(s: &[u8], pos: usize) -> (p: usize)
    ensures
        p == letters_end(s@, pos as int),
        pos <= s@.len() ==> pos <= p <= s@.len(),
        letter_at(s@, pos as int) ==> p > pos,
{
    let mut p: usize = pos;
    while p < s.len() && is_letter_like(s, p)
        invariant
            letters_end(s@, p as int) == letters_end(s@, pos as int),
            pos <= p,
            pos <= s@.len() ==> p <= s@.len(),
            letter_at(s@, pos as int) && p == pos ==> letter_at(s@, p as int),
        decreases s@.len() - p,
    {
        p = next_utf8_char(s, p);
    }
    p
}

// Pre-tokenizer

/// The end of the run of bytes from `pos` on that have a property.
pub open spec fn span(s: Seq<u8>, pos: int, class: spec_fn(u8) -> bool) -> int
    decreases s.len() - pos,
{
    if 0 <= pos < s.len() && class(s[pos]) {
        span(s, pos + 1, class)
    } else {
        pos
    }
}

/// The end of the run of CJK characters from `pos` on.
pub open spec fn cjk_end(s: Seq<u8>, pos: int) -> int
    decreases s.len() - pos,
{
    if 0 <= pos && cjk_at(s, pos) {
        cjk_end(s, char_end(s, pos))
    } else {
        pos
    }
}

/// The position behind the last newline in `s[pos..end]`, or 0.
pub open spec fn last_newline_end(s: Seq<u8>, pos: int, end: int) -> int
    decreases end - pos,
{
    if end <= pos {
        0
    } else if newline(s[end - 1]) {
        end
    } else {
        last_newline_end(s, pos, end - 1)
    }
}

/// The end of a run of punctuation and the newlines behind it.
pub open spec fn punct_end(s: Seq<u8>, pos: int) -> int {
    span(s, span(s, pos, |c: u8| punct(c)), |c: u8| newline(c))
}

/// The end of white space at `pos`: up to its last newline if it has one. Otherwise a run of two
/// or more leaves its last space to the word or punctuation that follows.
pub open spec fn space_end(s: Seq<u8>, pos: int) -> int {
    let p = span(s, pos, |c: u8| space(c));
    let nl = last_newline_end(s, pos, p);
    if nl > 0 {
        nl
    } else if p < s.len() && p > pos + 1 && (letter_at(s, p) || punct(s[p])) {
        p - 1
    } else {
        p
    }
}

/// The end of the piece that starts at `pos`. The rules, first match: up to three digits; a run of
/// CJK characters; one punctuation mark with the ASCII letters behind it; a run of letters; one
/// other character than newline or punctuation with the letters behind it; a space with the
/// punctuation and newlines behind it; punctuation with the newlines behind it; white space; any
/// one character.
pub open spec fn piece_end(s: Seq<u8>, pos: int) -> int {
    let c = s[pos];
    if digit(c) {
        let e = span(s, pos, |c: u8| digit(c));
        if e > pos + 3 {
            pos + 3
        } else {
            e
        }
    } else if cjk_at(s, pos) {
        cjk_end(s, pos)
    } else if punct(c) && pos + 1 < s.len() && alpha(s[pos + 1]) {
        span(s, pos + 1, |c: u8| alpha(c))
    } else if letter_at(s, pos) {
        letters_end(s, pos)
    } else if !newline(c) && !punct(c) && letter_at(s, pos + 1) {
        letters_end(s, pos + 1)
    } else if c == 32 && pos + 1 < s.len() && punct(s[pos + 1]) {
        punct_end(s, pos + 1)
    } else if punct(c) {
        punct_end(s, pos)
    } else if space(c) {
        space_end(s, pos)
    } else {
        char_end(s, pos)
    }
}

pub(crate) proof fn lemma_span(s: Seq<u8>, pos: int, class: spec_fn(u8) -> bool)
    requires
        0 <= pos <= s.len(),
    ensures
        pos <= span(s, pos, class) <= s.len(),
        pos < s.len() && class(s[pos]) ==> span(s, pos, class) > pos,
        forall|i: int| pos <= i < span(s, pos, class) ==> class(#[trigger] s[i]),
        span(s, pos, class) < s.len() ==> !class(s[span(s, pos, class)]),
    decreases s.len() - pos,
{
    if pos < s.len() && class(s[pos]) {
        lemma_span(s, pos + 1, class);
    }
}

pub(crate) proof fn lemma_letters_end(s: Seq<u8>, pos: int)
    requires
        0 <= pos <= s.len(),
    ensures
        pos <= letters_end(s, pos) <= s.len(),
        letter_at(s, pos) ==> letters_end(s, pos) > pos,
    decreases s.len() - pos,
{
    if letter_at(s, pos) {
        lemma_letters_end(s, char_end(s, pos));
    }
}

pub(crate) proof fn lemma_cjk_end(s: Seq<u8>, pos: int)
    requires
        0 <= pos <= s.len(),
    ensures
        pos <= cjk_end(s, pos) <= s.len(),
        cjk_at(s, pos) ==> cjk_end(s, pos) > pos,
    decreases s.len() - pos,
{
    if cjk_at(s, pos) {
        lemma_cjk_end(s, char_end(s, pos));
    }
}

pub(crate) proof fn lemma_last_newline_end(s: Seq<u8>, pos: int, end: int)
    requires
        0 <= pos <= end <= s.len(),
    ensures
        last_newline_end(s, pos, end) == 0 || pos < last_newline_end(s, pos, end) <= end,
    decreases end - pos,
{
    if end > pos && !newline(s[end - 1]) {
        lemma_last_newline_end(s, pos, end - 1);
    }
}

/// Every piece takes at least one byte and stays inside the text.
pub proof fn law_piece_advances(s: Seq<u8>, pos: int)
    requires
        0 <= pos < s.len(),
    ensures
        pos < piece_end(s, pos) <= s.len(),
{
    let c = s[pos];
    lemma_span(s, pos, |c: u8| digit(c));
    lemma_cjk_end(s, pos);
    lemma_span(s, pos + 1, |c: u8| alpha(c));
    lemma_letters_end(s, pos);
    lemma_letters_end(s, pos + 1);
    lemma_span(s, pos, |c: u8| punct(c));
    lemma_span(s, pos + 1, |c: u8| punct(c));
    lemma_span(s, span(s, pos, |c: u8| punct(c)), |c: u8| newline(c));
    lemma_span(s, span(s, pos + 1, |c: u8| punct(c)), |c: u8| newline(c));
    let p = span(s, pos, |c: u8| space(c));
    lemma_span(s, pos, |c: u8| space(c));
    lemma_last_newline_end(s, pos, p);
}

/// A piece that starts with a digit holds one to three digits and nothing else.
pub proof fn law_digit_piece(s: Seq<u8>, pos: int)
    requires
        0 <= pos < s.len(),
        digit(s[pos]),
    ensures
        pos < piece_end(s, pos) <= pos + 3,
        forall|i: int| pos <= i < piece_end(s, pos) ==> digit(#[trigger] s[i]),
{
    lemma_span(s, pos, |c: u8| digit(c));
    assert forall|i: int| pos <= i < piece_end(s, pos) implies digit(#[trigger] s[i]) by {
        assert((|c: u8| digit(c))(s[i]));
    }
}

fn digits_end(s: &[u8], pos: usize) -> (p: usize)
    requires
        pos <= s@.len(),
    ensures
        p == span(s@, pos as int, |c: u8| digit(c)) || p == pos + 3,
        p <= span(s@, pos as int, |c: u8| digit(c)),
        p <= pos + 3,
{
    let mut p: usize = pos;
    proof {
        lemma_span(s@, pos as int, |c: u8| digit(c));
    }
    while p < s.len() && is_ascii_digit(s[p]) && p - pos < 3
        invariant
            pos <= p <= s@.len(),
            p <= pos + 3,
            p <= span(s@, pos as int, |c: u8| digit(c)) <= s@.len(),
            span(s@, p as int, |c: u8| digit(c)) == span(s@, pos as int, |c: u8| digit(c)),
        decreases s@.len() - p,
    {
        p = p + 1;
        proof {
            lemma_span(s@, p as int, |c: u8| digit(c));
        }
    }
    p
}

fn alphas_end(s: &[u8], pos: usize) -> (p: usize)
    requires
        pos <= s@.len(),
    ensures
        p == span(s@, pos as int, |c: u8| alpha(c)),
{
    let mut p: usize = pos;
    while p < s.len() && is_ascii_alpha(s[p])
        invariant
            pos <= p <= s@.len(),
            span(s@, p as int, |c: u8| alpha(c)) == span(s@, pos as int, |c: u8| alpha(c)),
        decreases s@.len() - p,
    {
        p = p + 1;
    }
    p
}

/// The end of a run of punctuation and the newlines behind it.
fn puncts_end(s: &[u8], pos: usize) -> (p: usize)
    requires
        pos <= s@.len(),
    ensures
        p == punct_end(s@, pos as int),
{
    let mut p: usize = pos;
    while p < s.len() && is_ascii_punct(s[p])
        invariant
            pos <= p <= s@.len(),
            span(s@, p as int, |c: u8| punct(c)) == span(s@, pos as int, |c: u8| punct(c)),
        decreases s@.len() - p,
    {
        p = p + 1;
    }
    let ghost mid: int = p as int;
    while p < s.len() && is_ascii_newline(s[p])
        invariant
            mid <= p <= s@.len(),
            span(s@, p as int, |c: u8| newline(c)) == span(s@, mid, |c: u8| newline(c)),
        decreases s@.len() - p,
    {
        p = p + 1;
    }
    p
}

fn cjks_end(s: &[u8], pos: usize) -> (p: usize)
    ensures
        p == cjk_end(s@, pos as int),
{
    let mut p: usize = pos;
    while p < s.len() && is_cjk_at(s, p)
        invariant
            cjk_end(s@, p as int) == cjk_end(s@, pos as int),
        decreases s@.len() - p,
    {
        p = next_utf8_char(s, p);
    }
    p
}

fn spaces_end(s: &[u8], pos: usize) -> (r: usize)
    requires
        pos < s@.len(),
        space(s@[pos as int]),
    ensures
        r == space_end(s@, pos as int),
{
    let mut newline_end: usize = 0;
    let mut p: usize = pos;
    while p < s.len() && is_ascii_space(s[p])
        invariant
            pos <= p <= s@.len(),
            span(s@, p as int, |c: u8| space(c)) == span(s@, pos as int, |c: u8| space(c)),
            newline_end == last_newline_end(s@, pos as int, p as int),
            p == pos ==> space(s@[pos as int]),
            pos < s@.len(),
        decreases s@.len() - p,
    {
        let c: u8 = s[p];
        p = p + 1;
        if is_ascii_newline(c) {
            newline_end = p;
        }
    }
    if newline_end > 0 {
        newline_end
    } else if p < s.len() && p > pos + 1 && (is_letter_like(s, p) || is_ascii_punct(s[p])) {
        p - 1
    } else {
        p
    }
}

/// The end of the piece that starts at `pos`.
pub fn next_piece(s: &[u8], pos: usize) -> (p: usize)
    requires
        pos < s@.len(),
    ensures
        p == piece_end(s@, pos as int),
        pos < p <= s@.len(),
{
    proof {
        law_piece_advances(s@, pos as int);
    }
    let len: usize = s.len();
    let c: u8 = s[pos];
    if is_ascii_digit(c) {
        digits_end(s, pos)
    } else if is_cjk_at(s, pos) {
        cjks_end(s, pos)
    } else if is_ascii_punct(c) && pos + 1 < len && is_ascii_alpha(s[pos + 1]) {
        alphas_end(s, pos + 1)
    } else if is_letter_like(s, pos) {
        consume_letters(s, pos)
    } else if !is_ascii_newline(c) && !is_ascii_punct(c) && is_letter_like(s, pos + 1) {
        consume_letters(s, pos + 1)
    } else if c == 32 && pos + 1 < len && is_ascii_punct(s[pos + 1]) {
        puncts_end(s, pos + 1)
    } else if is_ascii_punct(c) {
        puncts_end(s, pos)
    } else if is_ascii_space(c) {
        spaces_end(s, pos)
    } else {
        next_utf8_char(s, pos)
    }
}

/// The pieces of the text from `pos` on.
pub open spec fn pieces(s: Seq<u8>, pos: int) -> Seq<Seq<u8>>
    decreases s.len() - pos,
{
    if 0 <= pos < s.len() && pos < piece_end(s, pos) <= s.len() {
        seq![s.subrange(pos, piece_end(s, pos))] + pieces(s, piece_end(s, pos))
    } else {
        seq![]
    }
}

/// The pieces of a text are not empty and together make up the text.
pub proof fn law_pieces_cover(s: Seq<u8>, pos: int)
    requires
        0 <= pos <= s.len(),
    ensures
        pieces(s, pos).flatten() == s.subrange(pos, s.len() as int),
        forall|i: int| 0 <= i < pieces(s, pos).len() ==> (#[trigger] pieces(s, pos)[i]).len() > 0,
    decreases s.len() - pos,
{
    let ps = pieces(s, pos);
    if pos < s.len() {
        law_piece_advances(s, pos);
        let e = piece_end(s, pos);
        law_pieces_cover(s, e);
        assert(ps.drop_first() =~= pieces(s, e));
        assert(ps.first() == s.subrange(pos, e));
        assert(s.subrange(pos, e) + s.subrange(e, s.len() as int) =~= s.subrange(
            pos,
            s.len() as int,
        ));
        assert forall|i: int| 0 <= i < ps.len() implies (#[trigger] ps[i]).len() > 0 by {
            if i > 0 {
                assert(ps[i] == pieces(s, e)[i - 1]);
            }
        }
    } else {
        assert(s.subrange(pos, s.len() as int) =~= seq![]);
    }
}

/// The views of a list of byte strings.
pub open spec fn byte_views(v: Seq<Vec<u8>>) -> Seq<Seq<u8>> {
    Seq::new(v.len(), |i: int| v[i]@)
}

/// Cut raw bytes into pieces.
pub fn pretokenize(s: &[u8]) -> (r: Vec<Vec<u8>>)
    ensures
        byte_views(r@) == pieces(s@, 0),
{
    let mut out: Vec<Vec<u8>> = Vec::new();
    let mut pos: usize = 0;
    assert(byte_views(out@) + pieces(s@, 0) =~= pieces(s@, 0));
    while pos < s.len()
        invariant
            pos <= s@.len(),
            byte_views(out@) + pieces(s@, pos as int) == pieces(s@, 0),
        decreases s@.len() - pos,
    {
        let end: usize = next_piece(s, pos);
        let ghost before = byte_views(out@);
        let piece = vstd::slice::slice_to_vec(slice_subrange(s, pos, end));
        out.push(piece);
        proof {
            let one = s@.subrange(pos as int, end as int);
            assert(byte_views(out@) =~= before.push(one));
            assert(byte_views(out@) + pieces(s@, end as int) =~= before + pieces(s@, pos as int));
        }
        pos = end;
    }
    assert(byte_views(out@) + pieces(s@, pos as int) =~= byte_views(out@));
    out
}

// Vocabulary

/// A loaded vocabulary.
pub struct Vocab {
    /// Token strings by id.
    pub tokens: Vec<String>,
    /// Token count.
    pub n_vocab: usize,
    /// Special token ids.
    pub bos_id: i32,
    pub eos_id: i32,
    pub user_id: i32,
    pub assistant_id: i32,
    pub think_start_id: i32,
    pub think_end_id: i32,
    pub dsml_id: i32,
    /// Token string to id lookup.
    pub token_to_id: StringHashMap<i32>,
    /// Merge ranks, keyed by the two symbols with a space between them.
    pub merge_ranks: StringHashMap<i32>,
    /// Decoding: id to text.
    pub id_to_text: Vec<String>,
}

/// Why a vocabulary cannot be loaded.
#[derive(Debug, Clone, Copy, PartialEq, Eq, Structural)]
pub enum VocabError {
    /// The metadata does not give the vocabulary size.
    MissingSize,
    /// The metadata has no array of tokens.
    MissingTokens,
    /// The vocabulary size and the number of tokens differ.
    CountMismatch(usize, usize),
}

/// The strings among metadata values.
pub open spec fn strings_of(vs: Seq<ValueView>) -> Seq<Seq<char>>
    decreases vs.len(),
{
    if vs.len() == 0 {
        seq![]
    } else {
        match vs.last() {
            ValueView::Text(s) => strings_of(vs.drop_last()).push(s),
            _ => strings_of(vs.drop_last()),
        }
    }
}

/// The strings of the metadata array under a key; none if there is no such array.
pub open spec fn string_array(kv: Map<Seq<char>, ValueView>, key: Seq<char>) -> Seq<Seq<char>> {
    if kv.contains_key(key) && kv[key] is Array {
        strings_of(kv[key]->Array_1)
    } else {
        seq![]
    }
}

/// The vocabulary size that the metadata gives.
pub open spec fn vocab_size(kv: Map<Seq<char>, ValueView>) -> Option<u32> {
    match lookup_u32(kv, "ds4.vocab_size"@) {
        Some(n) => Some(n),
        None => match lookup_u32(kv, "llama.vocab_size"@) {
            Some(n) => Some(n),
            None => lookup_u32(kv, "deepseek4.vocab_size"@),
        },
    }
}

/// The id of a text, or -1.
pub open spec fn id_or_none(ids: Map<Seq<char>, i32>, t: Seq<char>) -> i32 {
    if ids.contains_key(t) {
        ids[t]
    } else {
        (-1) as i32
    }
}

/// The 32-bit number under a key, or a default, as a token id.
pub open spec fn id_or(kv: Map<Seq<char>, ValueView>, key: Seq<char>, default: u32) -> i32 {
    match lookup_u32(kv, key) {
        Some(n) => n as i32,
        None => default as i32,
    }
}

/// The first fault of the metadata as a vocabulary.
pub open spec fn vocab_fault(kv: Map<Seq<char>, ValueView>) -> Option<VocabError> {
    match vocab_size(kv) {
        None => Some(VocabError::MissingSize),
        Some(n) => {
            let key = "tokenizer.ggml.tokens"@;
            let found = string_array(kv, key).len();
            if !kv.contains_key(key) || !(kv[key] is Array) {
                Some(VocabError::MissingTokens)
            } else if found != n {
                Some(VocabError::CountMismatch(n as usize, found as usize))
            } else {
                None
            }
        },
    }
}

/// Collect the strings of a metadata array.
fn collect_strings(arr: &GgufArray) -> (r: Vec<String>)
    ensures
        text_views(r@) == strings_of(GgufValue::Array(*arr)@->Array_1),
        r@.len() <= usize::MAX,
{
    let ghost vs = GgufValue::Array(*arr)@->Array_1;
    let mut r: Vec<String> = Vec::new();
    let mut i: usize = 0;
    assert(vs.take(0) =~= seq![]);
    while i < arr.elements.len()
        invariant
            i <= arr.elements@.len(),
            vs.len() == arr.elements@.len(),
            forall|k: int| 0 <= k < vs.len() ==> vs[k] == (#[trigger] arr.elements@[k])@,
            text_views(r@) =~= strings_of(vs.take(i as int)),
        decreases arr.elements@.len() - i,
    {
        let ghost before = text_views(r@);
        proof {
            assert(vs.take(i + 1).drop_last() =~= vs.take(i as int));
            assert(vs.take(i + 1).last() == arr.elements@[i as int]@);
        }
        match &arr.elements[i] {
            GgufValue::String(s) => {
                r.push(s.clone());
                assert(text_views(r@) =~= before.push(s@));
            },
            _ => {},
        }
        i = i + 1;
    }
    assert(vs.take(vs.len() as int) =~= vs);
    assert(r.len() <= usize::MAX);
    r
}

/// The last place of each string.
fn index_strings(texts: &Vec<String>) -> (m: StringHashMap<i32>)
    ensures
        m@ == id_map(text_views(texts@)),
{
    let ghost ts = text_views(texts@);
    let mut m: StringHashMap<i32> = StringHashMap::new();
    let mut i: usize = 0;
    assert(ts.take(0) =~= seq![]);
    while i < texts.len()
        invariant
            i <= texts@.len(),
            ts == text_views(texts@),
            m@ == id_map(ts.take(i as int)),
        decreases texts@.len() - i,
    {
        m.insert(texts[i].clone(), i as i32);
        proof {
            assert(ts.take(i + 1).drop_last() =~= ts.take(i as int));
        }
        i = i + 1;
    }
    assert(ts.take(ts.len() as int) =~= ts);
    m
}

fn copy_strings(v: &Vec<String>) -> (r: Vec<String>)
    ensures
        text_views(r@) == text_views(v@),
{
    let mut r: Vec<String> = Vec::new();
    let mut i: usize = 0;
    while i < v.len()
        invariant
            i <= v@.len(),
            text_views(r@) =~= text_views(v@).take(i as int),
        decreases v@.len() - i,
    {
        let ghost before = text_views(r@);
        r.push(v[i].clone());
        proof {
            assert(text_views(r@) =~= before.push(v@[i as int]@));
        }
        i = i + 1;
    }
    assert(text_views(v@).take(v@.len() as int) =~= text_views(v@));
    r
}

fn lookup_id(ids: &StringHashMap<i32>, t: &str) -> (r: i32)
    ensures
        r == id_or_none(ids@, t@),
{
    match ids.get(t) {
        Some(id) => *id,
        None => -1,
    }
}

impl Vocab {
    /// The token texts by id.
    pub open spec fn texts(&self) -> Seq<Seq<char>> {
        text_views(self.id_to_text@)
    }

    /// The ids of the token texts.
    pub open spec fn ids(&self) -> Map<Seq<char>, i32> {
        self.token_to_id@
    }

    /// The ranks of the merges.
    pub open spec fn ranks(&self) -> Map<Seq<char>, i32> {
        self.merge_ranks@
    }

    /// Load the vocabulary from the metadata of a GGUF file.
    pub fn load(model: &GgufModel) -> (r: Result<Vocab, VocabError>)
        ensures
            r matches Err(e) ==> vocab_fault(model@.kv) == Some(e),
            r matches Ok(v) ==> {
                let kv = model@.kv;
                &&& vocab_fault(kv) is None
                &&& v.texts() == string_array(kv, "tokenizer.ggml.tokens"@)
                &&& text_views(v.tokens@) == v.texts()
                &&& v.n_vocab == v.texts().len()
                &&& v.ids() == id_map(v.texts())
                &&& v.ranks() == id_map(string_array(kv, "tokenizer.ggml.merges"@))
                &&& v.bos_id == id_or(kv, "tokenizer.ggml.bos_token_id"@, 0)
                &&& v.eos_id == id_or(kv, "tokenizer.ggml.eos_token_id"@, 1)
                &&& v.user_id == id_or_none(v.ids(), "<｜User｜>"@)
                &&& v.assistant_id == id_or_none(v.ids(), "<｜Assistant｜>"@)
                &&& v.think_start_id == id_or_none(v.ids(), "<think>"@)
                &&& v.think_end_id == id_or_none(v.ids(), "</think>"@)
                &&& v.dsml_id == id_or_none(v.ids(), "｜DSML｜"@)
            },
    {
        let n_vocab: usize = match model.get_u32("ds4.vocab_size") {
            Some(n) => n as usize,
            None => match model.get_u32("llama.vocab_size") {
                Some(n) => n as usize,
                None => match model.get_u32("deepseek4.vocab_size") {
                    Some(n) => n as usize,
                    None => {
                        return Err(VocabError::MissingSize);
                    },
                },
            },
        };
        let tokens = match model.get_array("tokenizer.ggml.tokens") {
            Some(arr) => collect_strings(arr),
            None => {
                return Err(VocabError::MissingTokens);
            },
        };
        if tokens.len() != n_vocab {
            return Err(VocabError::CountMismatch(n_vocab, tokens.len()));
        }
        let token_to_id = index_strings(&tokens);
        let merges = match model.get_array("tokenizer.ggml.merges") {
            Some(arr) => collect_strings(arr),
            None => Vec::new(),
        };
        assert(model@.kv.contains_key("tokenizer.ggml.merges"@) && model@.kv[
            "tokenizer.ggml.merges"@] is Array || text_views(merges@) =~= seq![]);
        let merge_ranks = index_strings(&merges);
        let bos_id: i32 = match model.get_u32("tokenizer.ggml.bos_token_id") {
            Some(n) => n as i32,
            None => 0,
        };
        let eos_id: i32 = match model.get_u32("tokenizer.ggml.eos_token_id") {
            Some(n) => n as i32,
            None => 1,
        };
        let user_id: i32 = lookup_id(&token_to_id, "<｜User｜>");
        let assistant_id: i32 = lookup_id(&token_to_id, "<｜Assistant｜>");
        let think_start_id: i32 = lookup_id(&token_to_id, "<think>");
        let think_end_id: i32 = lookup_id(&token_to_id, "</think>");
        let dsml_id: i32 = lookup_id(&token_to_id, "｜DSML｜");
        let id_to_text = copy_strings(&tokens);
        Ok(
            Vocab {
                tokens,
                n_vocab,
                bos_id,
                eos_id,
                user_id,
                assistant_id,
                think_start_id,
                think_end_id,
                dsml_id,
                token_to_id,
                merge_ranks,
                id_to_text,
            },
        )
    }

    /// Look up the token id of a single token string.
    pub fn token_id(&self, token: &str) -> (r: Option<i32>)
        ensures
            r == (if self.ids().contains_key(token@) {
                Some(self.ids()[token@])
            } else {
                None
            }),
    {
        match self.token_to_id.get(token) {
            Some(id) => Some(*id),
            None => None,
        }
    }

    /// Look up token text by id. Ids count up to the number of tokens as a 32-bit number.
    pub fn token_text(&self, id: i32) -> (r: Option<&str>)
        ensures
            r is Some <==> 0 <= id < self.texts().len() as usize as i32,
            r matches Some(t) ==> t@ == self.texts()[id as int] && id < self.texts().len(),
    {
        let n: usize = self.id_to_text.len();
        assert(n as i32 > 0 ==> n as i32 <= n) by (bit_vector);
        assert(self.texts().len() == n);
        if id < 0 || id >= n as i32 {
            return None;
        }
        Some(self.id_to_text[id as usize].as_str())
    }

    /// Decode a sequence of token ids to text. Ids without a token are passed over.
    pub fn decode(&self, ids: &[i32]) -> (r: String)
        ensures
            r@ == ids_text(self.texts(), ids@),
    {
        let mut r = String::new();
        let mut i: usize = 0;
        assert(ids@.take(0) =~= seq![]);
        while i < ids.len()
            invariant
                i <= ids@.len(),
                r@ == ids_text(self.texts(), ids@.take(i as int)),
            decreases ids@.len() - i,
        {
            let ghost before = r@;
            proof {
                assert(ids@.take(i + 1).drop_last() =~= ids@.take(i as int));
            }
            match self.token_text(ids[i]) {
                Some(t) => r.append(t),
                None => {},
            }
            proof {
                assert(r@ =~= before + id_text(self.texts(), ids@[i as int]));
            }
            i = i + 1;
        }
        assert(ids@.take(ids@.len() as int) =~= ids@);
        r
    }

    /// Encode text to token ids: cut it into pieces and apply byte-level BPE to each.
    pub fn encode(&self, text: &str) -> (r: Vec<i32>)
        ensures
            r@ == pieces_ids(pieces(encode_utf8(text@), 0), self.ids(), self.ranks()),
    {
        encode_bpe(self, text)
    }
}

/// Encode text to token ids.
pub fn encode_bpe(vocab: &Vocab, text: &str) -> (r: Vec<i32>)
    ensures
        r@ == pieces_ids(pieces(encode_utf8(text@), 0), vocab.ids(), vocab.ranks()),
{
    let list = pretokenize(text.as_bytes());
    let ghost ps = byte_views(list@);
    let mut out: Vec<i32> = Vec::new();
    let mut i: usize = 0;
    assert(ps.take(0) =~= seq![]);
    while i < list.len()
        invariant
            i <= list@.len(),
            ps == byte_views(list@),
            out@ =~= pieces_ids(ps.take(i as int), vocab.ids(), vocab.ranks()),
        decreases list@.len() - i,
    {
        proof {
            assert(ps.take(i + 1).drop_last() =~= ps.take(i as int));
        }
        bpe_emit_piece(&mut out, list[i].as_slice(), &vocab.token_to_id, &vocab.merge_ranks);
        i = i + 1;
    }
    assert(ps.take(ps.len() as int) =~= ps);
    out
}

} // verus!

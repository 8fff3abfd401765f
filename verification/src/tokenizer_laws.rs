//! What the splitting of text promises: what the classes of bytes are, and of each kind of piece
//! what it holds and where it ends.
use crate::gguf::ValueView;
use crate::model_laws::says;
use crate::tokenizer::{
    alpha, byte_char, char_end, cjk, cjk_at, cjk_end, codepoint_at, digit, id_or, id_or_none,
    last_newline_end, lemma_cjk_end, lemma_last_newline_end, lemma_letters_end, lemma_span, letter,
    letter_at, letters_end, newline, piece_end, punct, punct_end, raw_bytes, space, space_end, span,
    string_array, strings_of, unprintable_below, vocab_fault, vocab_size, VocabError,
};
use vstd::prelude::*;
use vstd::utf8::{decode_first_scalar, length_of_first_scalar, valid_first_scalar};

verus! {

// Classes

/// What the classes of bytes are. Of the visible ASCII characters each is a letter, a digit or
/// punctuation, and only one of these; a byte outside ASCII counts as a letter.
pub proof fn law_classes(c: u8)
    ensures
        alpha(c) <==> 'A' <= c as char <= 'Z' || 'a' <= c as char <= 'z',
        digit(c) <==> '0' <= c as char <= '9',
        newline(c) <==> c as char == '\n' || c as char == '\r',
        space(c) <==> c as char == ' ' || '\t' <= c as char <= '\r',
        newline(c) ==> space(c),
        punct(c) <==> '!' <= c as char <= '~' && !alpha(c) && !digit(c),
        letter(c) <==> alpha(c) || c as char > '\u{7f}',
        !(space(c) && letter(c)) && !(space(c) && digit(c)) && !(space(c) && punct(c)),
{
}

/// The ideographs that make runs of their own: the unified ones, and the two Japanese syllabaries.
pub proof fn law_cjk_ranges(c: char)
    ensures
        cjk(c as u32) <==> '\u{4e00}' <= c <= '\u{9fa5}' || '\u{3040}' <= c <= '\u{30ff}',
{
}

/// In well-formed text the character at a position ends where its encoding ends, and its codepoint
/// is the character that is encoded.
pub proof fn law_character_at(s: Seq<u8>, pos: int)
    requires
        0 <= pos < s.len(),
        valid_first_scalar(s.skip(pos)),
    ensures
        char_end(s, pos) == pos + length_of_first_scalar(s.skip(pos)),
        codepoint_at(s, pos) == decode_first_scalar(s.skip(pos)),
{
    let t = s.skip(pos);
    let a = t[0];
    assert(a & 0x7f == a || a >= 0x80) by (bit_vector);
    if a >= 0x80 {
        let b = t[1];
        assert(b == s[pos + 1]);
        assert(((((a & 0x1f) as u32) << 6) | ((b & 0x3f) as u32)) == (a % 32) as u32 * 64 + (b
            % 64) as u32) by (bit_vector);
        if a >= 0xe0 {
            let c = t[2];
            assert(c == s[pos + 2]);
            assert(((((a & 0x0f) as u32) << 12) | (((b & 0x3f) as u32) << 6) | ((c & 0x3f) as u32))
                == (a % 16) as u32 * 4096 + (b % 64) as u32 * 64 + (c % 64) as u32) by (bit_vector);
            if a >= 0xf0 {
                let d = t[3];
                assert(d == s[pos + 3]);
                assert(((((a & 0x07) as u32) << 18) | (((b & 0x3f) as u32) << 12) | (((c
                    & 0x3f) as u32) << 6) | ((d & 0x3f) as u32)) == (a % 8) as u32 * 262144 + (b
                    % 64) as u32 * 4096 + (c % 64) as u32 * 64 + (d % 64) as u32) by (bit_vector);
            }
        }
    }
}

/// A position where nothing well-formed can start takes one byte: a lone continuation byte, or the
/// start of a character that the text cuts off.
pub proof fn law_broken_character(s: Seq<u8>, pos: int)
    requires
        0 <= pos < s.len(),
    ensures
        pos < char_end(s, pos) <= s.len(),
        s[pos] < 0xc0 || s[pos] > 0xf7 ==> char_end(s, pos) == pos + 1 && codepoint_at(s, pos)
            == s[pos],
        char_end(s, pos) > pos + 1 ==> s[pos] >= 0xc0,
        pos + 1 == s.len() ==> codepoint_at(s, pos) == s[pos],
{
}

// Bytes as characters

/// A byte that is a visible character of Latin-1 stands for itself. The others stand, in order, for
/// the characters from U+0100 on: 33 below the visible ones, 34 between them, and the soft hyphen.
pub proof fn law_byte_char(b: u8)
    ensures
        b <= 32 ==> byte_char(b) as u32 == 0x100 + b,
        33 <= b <= 126 ==> byte_char(b) as u32 == b,
        127 <= b <= 160 ==> byte_char(b) as u32 == 0x100 + 33 + (b - 127),
        161 <= b <= 172 ==> byte_char(b) as u32 == b,
        b == 173 ==> byte_char(b) as u32 == 0x100 + 67,
        174 <= b ==> byte_char(b) as u32 == b,
{
    lemma_counted(b as int);
}

/// How many bytes below `b` are not visible.
proof fn lemma_counted(b: int)
    requires
        0 <= b <= 256,
    ensures
        b <= 33 ==> unprintable_below(b) == b,
        33 <= b <= 127 ==> unprintable_below(b) == 33,
        127 <= b <= 161 ==> unprintable_below(b) == 33 + (b - 127),
        161 <= b <= 173 ==> unprintable_below(b) == 67,
        174 <= b ==> unprintable_below(b) == 68,
    decreases b,
{
    if b > 0 {
        lemma_counted(b - 1);
    }
}

/// A character that no byte stands for leaves no byte.
pub proof fn law_strange_character(t: Seq<char>, c: char)
    requires
        forall|b: u8| #[trigger] byte_char(b) != c,
    ensures
        raw_bytes(t.push(c)) == raw_bytes(t),
{
    assert(t.push(c).drop_last() =~= t);
}

/// A character that a byte stands for leaves that byte, behind what stands before it.
pub proof fn law_byte_character(t: Seq<char>, b: u8)
    ensures
        raw_bytes(t.push(byte_char(b))) == raw_bytes(t).push(b),
{
    assert(t.push(byte_char(b)).drop_last() =~= t);
    let k = choose|k: u8| byte_char(k) == byte_char(b);
    assert(byte_char(k) == byte_char(b));
    crate::tokenizer::law_byte_char_unique(k, b);
}

// Pieces

/// A piece that starts with a digit holds up to three digits, and fewer only where the digits end.
pub proof fn law_digits_piece(s: Seq<u8>, pos: int)
    requires
        0 <= pos < s.len(),
        '0' <= s[pos] as char <= '9',
    ensures
        pos < piece_end(s, pos) <= pos + 3,
        forall|i: int| pos <= i < piece_end(s, pos) ==> '0' <= (#[trigger] s[i]) as char <= '9',
        piece_end(s, pos) == pos + 3 || piece_end(s, pos) == s.len() || !('0' <= s[piece_end(
            s,
            pos,
        )] as char <= '9'),
{
    let f = |c: u8| digit(c);
    lemma_span(s, pos, f);
    assert forall|i: int| pos <= i < span(s, pos, f) implies '0' <= (#[trigger] s[i]) as char
        <= '9' by {
        assert(f(s[i]));
    }
    if span(s, pos, f) < s.len() {
        assert(!f(s[span(s, pos, f)]));
    }
}

/// A piece that starts with an ideograph goes on through all that follow, and ends before the first
/// character that is none.
pub proof fn law_cjk_piece(s: Seq<u8>, pos: int)
    requires
        0 <= pos < s.len(),
        cjk_at(s, pos),
    ensures
        char_end(s, pos) <= piece_end(s, pos),
        !cjk_at(s, piece_end(s, pos)),
        cjk_at(s, char_end(s, pos)) ==> piece_end(s, pos) == piece_end(s, char_end(s, pos)),
        !cjk_at(s, char_end(s, pos)) ==> piece_end(s, pos) == char_end(s, pos),
{
    lemma_cjk_stops(s, pos);
    lemma_cjk_end(s, char_end(s, pos));
}

proof fn lemma_cjk_stops(s: Seq<u8>, pos: int)
    requires
        0 <= pos <= s.len(),
    ensures
        !cjk_at(s, cjk_end(s, pos)),
    decreases s.len() - pos,
{
    if cjk_at(s, pos) {
        lemma_cjk_stops(s, char_end(s, pos));
    }
}

/// A run of letters: it ends before what is no letter, and a byte in it that is no letter belongs to
/// a character that started with a lead byte.
proof fn lemma_letters_run(s: Seq<u8>, pos: int)
    requires
        0 <= pos <= s.len(),
    ensures
        !letter_at(s, letters_end(s, pos)),
        forall|i: int|
            pos <= i < letters_end(s, pos) && !letter(#[trigger] s[i]) ==> exists|j: int|
                pos <= j < i < char_end(s, j) && (#[trigger] s[j]) >= 0xc0,
    decreases s.len() - pos,
{
    if letter_at(s, pos) {
        let next = char_end(s, pos);
        lemma_letters_run(s, next);
        assert forall|i: int|
            pos <= i < letters_end(s, pos) && !letter(#[trigger] s[i]) implies exists|j: int|
            pos <= j < i < char_end(s, j) && (#[trigger] s[j]) >= 0xc0 by {
            if i < next {
                assert(s[pos] >= 0xc0);
            }
        }
    }
}

/// A piece that starts with a letter, and with no ideograph, holds the whole run of letters. A byte
/// of it that is no letter belongs to a character that started with a lead byte.
pub proof fn law_letters_piece(s: Seq<u8>, pos: int)
    requires
        0 <= pos < s.len(),
        letter(s[pos]),
        !cjk_at(s, pos),
    ensures
        char_end(s, pos) <= piece_end(s, pos) <= s.len(),
        piece_end(s, pos) < s.len() ==> !letter(s[piece_end(s, pos)]),
        forall|i: int|
            pos <= i < piece_end(s, pos) && !letter(#[trigger] s[i]) ==> exists|j: int|
                pos <= j < i < char_end(s, j) && (#[trigger] s[j]) >= 0xc0,
{
    law_classes(s[pos]);
    lemma_letters_end(s, char_end(s, pos));
    lemma_letters_run(s, pos);
}

/// A character that is no letter, digit, punctuation or line end takes the run of letters behind it
/// along, if there is one.
pub proof fn law_joined_piece(s: Seq<u8>, pos: int)
    requires
        0 <= pos,
        pos + 1 < s.len(),
        !letter(s[pos]),
        !digit(s[pos]),
        !punct(s[pos]),
        !newline(s[pos]),
        letter(s[pos + 1]),
    ensures
        char_end(s, pos + 1) <= piece_end(s, pos) <= s.len(),
        piece_end(s, pos) < s.len() ==> !letter(s[piece_end(s, pos)]),
        forall|i: int|
            pos < i < piece_end(s, pos) && !letter(#[trigger] s[i]) ==> exists|j: int|
                pos < j < i < char_end(s, j) && (#[trigger] s[j]) >= 0xc0,
{
    lemma_letters_end(s, char_end(s, pos + 1));
    lemma_letters_run(s, pos + 1);
    assert forall|i: int|
        pos < i < piece_end(s, pos) && !letter(#[trigger] s[i]) implies exists|j: int|
        pos < j < i < char_end(s, j) && (#[trigger] s[j]) >= 0xc0 by {
        let j = choose|j: int|
            pos + 1 <= j < i < char_end(s, j) && (#[trigger] s[j]) >= 0xc0;
        assert(s[j] >= 0xc0);
    }
}

/// Punctuation before an ASCII letter takes the whole run of ASCII letters along, and nothing else.
pub proof fn law_marked_word_piece(s: Seq<u8>, pos: int)
    requires
        0 <= pos,
        pos + 1 < s.len(),
        punct(s[pos]),
        alpha(s[pos + 1]),
    ensures
        pos + 2 <= piece_end(s, pos) <= s.len(),
        forall|i: int| pos < i < piece_end(s, pos) ==> alpha(#[trigger] s[i]),
        piece_end(s, pos) < s.len() ==> !alpha(s[piece_end(s, pos)]),
{
    let f = |c: u8| alpha(c);
    lemma_span(s, pos + 1, f);
    assert(f(s[pos + 1]));
    assert forall|i: int| pos < i < span(s, pos + 1, f) implies alpha(#[trigger] s[i]) by {
        assert(f(s[i]));
    }
    if span(s, pos + 1, f) < s.len() {
        assert(!f(s[span(s, pos + 1, f)]));
    }
}

/// A run of punctuation and the run of line ends behind it.
proof fn lemma_punct_end(s: Seq<u8>, pos: int) -> (m: int)
    requires
        0 <= pos < s.len(),
        punct(s[pos]),
    ensures
        pos < punct_end(s, pos) <= s.len(),
        pos < m <= punct_end(s, pos),
        forall|i: int| pos <= i < m ==> punct(#[trigger] s[i]),
        forall|i: int| m <= i < punct_end(s, pos) ==> newline(#[trigger] s[i]),
        m < s.len() ==> !punct(s[m]),
        punct_end(s, pos) < s.len() ==> !newline(s[punct_end(s, pos)]),
{
    let f = |c: u8| punct(c);
    let g = |c: u8| newline(c);
    lemma_span(s, pos, f);
    let m = span(s, pos, f);
    assert(f(s[pos]));
    lemma_span(s, m, g);
    let e = span(s, m, g);
    assert(punct_end(s, pos) == e);
    assert forall|i: int| pos <= i < m implies punct(#[trigger] s[i]) by {
        assert(f(s[i]));
    }
    assert forall|i: int| m <= i < e implies newline(#[trigger] s[i]) by {
        assert(g(s[i]));
    }
    if m < s.len() {
        assert(!f(s[m]));
    }
    if e < s.len() {
        assert(!g(s[e]));
    }
    m
}

/// A piece that starts with punctuation and takes no word along, or with a space before
/// punctuation, holds behind that space a whole run of punctuation and then a whole run of line
/// ends, which may be empty. So the byte behind it is no line end, and it is no punctuation unless
/// the piece ends with a line end.
pub proof fn law_punct_piece(s: Seq<u8>, pos: int)
    requires
        0 <= pos < s.len(),
        (punct(s[pos]) && !(pos + 1 < s.len() && alpha(s[pos + 1]))) || (s[pos] as char == ' ' && pos
            + 1 < s.len() && punct(s[pos + 1])),
    ensures
        pos < piece_end(s, pos) <= s.len(),
        exists|m: int|
            #![trigger s[m - 1]]
            {
                &&& pos < m <= piece_end(s, pos)
                &&& punct(s[m - 1])
                &&& forall|i: int|
                    pos <= i < m ==> punct(#[trigger] s[i]) || i == pos && s[i] as char == ' '
                &&& forall|i: int| m <= i < piece_end(s, pos) ==> newline(#[trigger] s[i])
                &&& m < s.len() ==> !punct(s[m])
            },
        piece_end(s, pos) < s.len() ==> !newline(s[piece_end(s, pos)]),
        piece_end(s, pos) < s.len() && !newline(s[piece_end(s, pos) - 1]) ==> !punct(
            s[piece_end(s, pos)],
        ),
{
    let from = if punct(s[pos]) {
        pos
    } else {
        pos + 1
    };
    law_classes(s[pos]);
    if pos + 1 < s.len() {
        law_classes(s[pos + 1]);
    }
    let m = lemma_punct_end(s, from);
    let e = punct_end(s, from);
    assert(piece_end(s, pos) == e);
    assert(punct(s[m - 1]));
    if m < e {
        assert(newline(s[e - 1]));
    }
}

/// The place behind the last line end of a stretch.
proof fn lemma_behind_newline(s: Seq<u8>, pos: int, end: int)
    requires
        0 <= pos <= end <= s.len(),
    ensures
        ({
            let e = last_newline_end(s, pos, end);
            &&& e > 0 ==> pos < e <= end && newline(s[e - 1])
            &&& e > 0 ==> forall|i: int| e <= i < end ==> !newline(#[trigger] s[i])
            &&& e <= 0 ==> forall|i: int| pos <= i < end ==> !newline(#[trigger] s[i])
        }),
    decreases end - pos,
{
    if pos < end && !newline(s[end - 1]) {
        lemma_behind_newline(s, pos, end - 1);
    }
}

/// A piece of white space, where nothing behind its first character takes that along: `q` is where
/// the white space ends. With a line end in it, the piece ends behind the last one. Without, it
/// leaves the last character to a word or to punctuation behind it, if it has more than one, and
/// takes all of it otherwise.
pub proof fn law_space_piece(s: Seq<u8>, pos: int, q: int)
    requires
        0 <= pos < q <= s.len(),
        forall|i: int| pos <= i < q ==> space(#[trigger] s[i]),
        q < s.len() ==> !space(s[q]),
        pos + 1 < s.len() && letter(s[pos + 1]) ==> newline(s[pos]),
        pos + 1 < s.len() && punct(s[pos + 1]) ==> s[pos] as char != ' ',
    ensures
        pos < piece_end(s, pos) <= q,
        (exists|k: int| pos <= k < q && newline(#[trigger] s[k])) ==> newline(
            s[piece_end(s, pos) - 1],
        ) && forall|i: int| piece_end(s, pos) <= i < q ==> !newline(#[trigger] s[i]),
        (forall|k: int| pos <= k < q ==> !newline(#[trigger] s[k])) ==> piece_end(s, pos) == if q
            < s.len() && q > pos + 1 && (letter(s[q]) || punct(s[q])) {
            q - 1
        } else {
            q
        },
{
    let f = |c: u8| space(c);
    law_classes(s[pos]);
    lemma_span(s, pos, f);
    let p = span(s, pos, f);
    assert(p == q) by {
        if p < q {
            assert(space(s[p]));
            assert(f(s[p]));
        }
        if q < p {
            assert(f(s[q]));
        }
    }
    assert(space(s[pos]));
    lemma_behind_newline(s, pos, q);
    lemma_last_newline_end(s, pos, q);
    assert(piece_end(s, pos) == space_end(s, pos));
}

/// A control character that is no white space and takes no letters along is a piece of its own.
pub proof fn law_control_piece(s: Seq<u8>, pos: int)
    requires
        0 <= pos < s.len(),
        s[pos] as char <= '\u{7f}',
        !letter(s[pos]),
        !digit(s[pos]),
        !punct(s[pos]),
        !space(s[pos]),
        pos + 1 < s.len() ==> !letter(s[pos + 1]),
    ensures
        piece_end(s, pos) == pos + 1,
{
}

// Vocabularies

/// The size of a vocabulary stands under the model's own key, or else under one of two others, in
/// this order. Without any of them it has none.
pub proof fn law_vocab_size(kv: Map<Seq<char>, ValueView>, n: u32)
    ensures
        says(kv, "ds4.vocab_size"@, n) ==> vocab_size(kv) == Some(n),
        !kv.contains_key("ds4.vocab_size"@) && says(kv, "llama.vocab_size"@, n) ==> vocab_size(kv)
            == Some(n),
        !kv.contains_key("ds4.vocab_size"@) && !kv.contains_key("llama.vocab_size"@) && says(
            kv,
            "deepseek4.vocab_size"@,
            n,
        ) ==> vocab_size(kv) == Some(n),
        !kv.contains_key("ds4.vocab_size"@) && !kv.contains_key("llama.vocab_size"@)
            && !kv.contains_key("deepseek4.vocab_size"@) ==> vocab_size(kv) is None
            && vocab_fault(kv) == Some(VocabError::MissingSize),
{
}

/// Of a list of values the texts are kept, in order, and the others are dropped.
pub proof fn law_strings_of(vs: Seq<ValueView>, s: Seq<char>, v: ValueView)
    ensures
        strings_of(Seq::<ValueView>::empty()).len() == 0,
        strings_of(vs.push(ValueView::Text(s))) == strings_of(vs).push(s),
        !(v is Text) ==> strings_of(vs.push(v)) == strings_of(vs),
{
    assert(vs.push(ValueView::Text(s)).drop_last() =~= vs);
    assert(vs.push(v).drop_last() =~= vs);
}

proof fn lemma_all_texts(texts: Seq<Seq<char>>)
    ensures
        strings_of(Seq::new(texts.len(), |i: int| ValueView::Text(texts[i]))) == texts,
    decreases texts.len(),
{
    let vs = Seq::new(texts.len(), |i: int| ValueView::Text(texts[i]));
    if texts.len() > 0 {
        let front = texts.drop_last();
        lemma_all_texts(front);
        assert(vs.drop_last() =~= Seq::new(front.len(), |i: int| ValueView::Text(front[i])));
        assert(front.push(texts.last()) =~= texts);
    } else {
        assert(texts =~= strings_of(vs));
    }
}

/// A vocabulary of as many texts as its size says is loaded with these texts. With another number of
/// texts it is refused by both numbers, and without any list of texts for that.
pub proof fn law_vocab_is_loaded(
    kv: Map<Seq<char>, ValueView>,
    n: u32,
    t: u32,
    texts: Seq<Seq<char>>,
)
    requires
        vocab_size(kv) == Some(n),
        texts.len() <= usize::MAX,
    ensures
        kv.contains_key("tokenizer.ggml.tokens"@) && kv["tokenizer.ggml.tokens"@]
            == ValueView::Array(t, Seq::new(texts.len(), |i: int| ValueView::Text(texts[i]))) ==> {
            &&& string_array(kv, "tokenizer.ggml.tokens"@) == texts
            &&& vocab_fault(kv) is None <==> texts.len() == n
            &&& texts.len() != n ==> vocab_fault(kv) == Some(
                VocabError::CountMismatch(n as usize, texts.len() as usize),
            )
        },
        !kv.contains_key("tokenizer.ggml.tokens"@) || !(kv["tokenizer.ggml.tokens"@] is Array)
            ==> vocab_fault(kv) == Some(VocabError::MissingTokens),
{
    lemma_all_texts(texts);
}

/// A special token's number is the one that the metadata gives, or else the default; a name's number
/// is the one that the vocabulary gives it, or else minus one.
pub proof fn law_special_numbers(
    kv: Map<Seq<char>, ValueView>,
    key: Seq<char>,
    n: u32,
    default: u32,
    ids: Map<Seq<char>, i32>,
    name: Seq<char>,
)
    requires
        n <= i32::MAX,
        default <= i32::MAX,
    ensures
        says(kv, key, n) ==> id_or(kv, key, default) == n,
        !kv.contains_key(key) ==> id_or(kv, key, default) == default,
        ids.contains_key(name) ==> id_or_none(ids, name) == ids[name],
        !ids.contains_key(name) ==> id_or_none(ids, name) == -1,
{
}

} // verus!

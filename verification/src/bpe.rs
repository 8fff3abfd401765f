//! Merging symbols by rank and looking up token ids.
use crate::text::{chars_of, push_char, string_of};
use crate::tokenizer::{byte_char, byte_encode, byte_text, law_pieces_cover, pieces};
use vstd::hash_map::StringHashMap;
use vstd::prelude::*;
use vstd::utf8::encode_utf8;

verus! {

/// The views of a list of strings.
pub open spec fn text_views(v: Seq<String>) -> Seq<Seq<char>> {
    Seq::new(v.len(), |i: int| v[i]@)
}

/// The symbols put together.
pub open spec fn join(syms: Seq<Seq<char>>) -> Seq<char>
    decreases syms.len(),
{
    if syms.len() == 0 {
        seq![]
    } else {
        join(syms.drop_last()) + syms.last()
    }
}

/// Each character as a symbol of its own.
pub open spec fn split(t: Seq<char>) -> Seq<Seq<char>> {
    Seq::new(t.len(), |i: int| seq![t[i]])
}

/// The key of the merge of two symbols: the two with a space between them.
pub open spec fn merge_key(a: Seq<char>, b: Seq<char>) -> Seq<char> {
    a.push(' ') + b
}

/// Symbols `i` and `i + 1` can be merged, at rank `r`.
pub open spec fn mergeable(
    syms: Seq<Seq<char>>,
    ranks: Map<Seq<char>, i32>,
    i: int,
    r: i32,
) -> bool {
    &&& 0 <= i < syms.len() - 1
    &&& ranks.contains_key(merge_key(syms[i], syms[i + 1]))
    &&& ranks[merge_key(syms[i], syms[i + 1])] == r
    &&& r < i32::MAX
}

/// The merge of symbols `i` and `i + 1` comes next: its rank is the lowest, and it is the first of
/// that rank.
pub open spec fn next_merge(syms: Seq<Seq<char>>, ranks: Map<Seq<char>, i32>, i: int) -> bool {
    exists|r: i32|
        {
            &&& #[trigger] mergeable(syms, ranks, i, r)
            &&& forall|j: int, q: i32| #[trigger]
                mergeable(syms, ranks, j, q) ==> (r < q || r == q && i <= j)
        }
}

/// The symbols after merging symbols `i` and `i + 1`.
pub open spec fn merged(syms: Seq<Seq<char>>, i: int) -> Seq<Seq<char>> {
    syms.update(i, syms[i] + syms[i + 1]).remove(i + 1)
}

/// The symbols after all merges.
pub open spec fn merge_all(syms: Seq<Seq<char>>, ranks: Map<Seq<char>, i32>) -> Seq<Seq<char>>
    decreases syms.len(),
{
    if exists|i: int| #[trigger] next_merge(syms, ranks, i) {
        let i = choose|i: int| #[trigger] next_merge(syms, ranks, i);
        if 0 <= i < syms.len() - 1 {
            merge_all(merged(syms, i), ranks)
        } else {
            syms
        }
    } else {
        syms
    }
}

/// The ids of the bytes that are tokens, each byte taken as a character.
pub open spec fn byte_ids(b: Seq<u8>, ids: Map<Seq<char>, i32>) -> Seq<i32>
    decreases b.len(),
{
    if b.len() == 0 {
        seq![]
    } else {
        let front = byte_ids(b.drop_last(), ids);
        let key = seq![b.last() as char];
        if ids.contains_key(key) {
            front.push(ids[key])
        } else {
            front
        }
    }
}

/// The ids of a symbol: its own if it is a token, those of its bytes otherwise.
pub open spec fn symbol_ids(sym: Seq<char>, ids: Map<Seq<char>, i32>) -> Seq<i32> {
    if ids.contains_key(sym) {
        seq![ids[sym]]
    } else {
        byte_ids(encode_utf8(sym), ids)
    }
}

/// The ids of symbols in a row.
pub open spec fn symbols_ids(syms: Seq<Seq<char>>, ids: Map<Seq<char>, i32>) -> Seq<i32>
    decreases syms.len(),
{
    if syms.len() == 0 {
        seq![]
    } else {
        symbols_ids(syms.drop_last(), ids) + symbol_ids(syms.last(), ids)
    }
}

/// The ids of one piece of text.
pub open spec fn piece_ids(
    piece: Seq<u8>,
    ids: Map<Seq<char>, i32>,
    ranks: Map<Seq<char>, i32>,
) -> Seq<i32> {
    symbols_ids(merge_all(split(byte_text(piece)), ranks), ids)
}

/// The ids of pieces in a row.
pub open spec fn pieces_ids(
    ps: Seq<Seq<u8>>,
    ids: Map<Seq<char>, i32>,
    ranks: Map<Seq<char>, i32>,
) -> Seq<i32>
    decreases ps.len(),
{
    if ps.len() == 0 {
        seq![]
    } else {
        pieces_ids(ps.drop_last(), ids, ranks) + piece_ids(ps.last(), ids, ranks)
    }
}

pub(crate) proof fn lemma_next_merge_unique(
    syms: Seq<Seq<char>>,
    ranks: Map<Seq<char>, i32>,
    i: int,
    j: int,
)
    requires
        next_merge(syms, ranks, i),
        next_merge(syms, ranks, j),
    ensures
        i == j,
        0 <= i < syms.len() - 1,
{
}

fn merge_key_of(a: &String, b: &String) -> (k: String)
    ensures
        k@ == merge_key(a@, b@),
{
    let mut k = a.clone();
    push_char(&mut k, ' ');
    k.append(b.as_str());
    k
}

/// Find the merge that comes next.
fn find_merge(symbols: &Vec<String>, ranks: &StringHashMap<i32>) -> (r: Option<usize>)
    ensures
        r matches Some(i) ==> next_merge(text_views(symbols@), ranks@, i as int) && i + 1
            < symbols.len(),
        r is None ==> forall|i: int| !#[trigger] next_merge(text_views(symbols@), ranks@, i),
{
    let ghost syms = text_views(symbols@);
    let mut best_rank: i32 = i32::MAX;
    let mut best: Option<usize> = None;
    let mut i: usize = 0;
    let last: usize = if symbols.len() == 0 {
        0
    } else {
        symbols.len() - 1
    };
    while i < last
        invariant
            i <= last,
            last == symbols@.len() - 1 || last == 0 && symbols@.len() == 0,
            syms == text_views(symbols@),
            best is None ==> best_rank == i32::MAX,
            best matches Some(k) ==> k < i && mergeable(syms, ranks@, k as int, best_rank),
            forall|j: int, q: i32| #[trigger]
                mergeable(syms, ranks@, j, q) && j < i ==> best is Some && (best_rank < q
                    || best_rank == q && best->0 <= j),
        decreases last - i,
    {
        let key = merge_key_of(&symbols[i], &symbols[i + 1]);
        assert(key@ == merge_key(syms[i as int], syms[i + 1]));
        if let Some(rank) = ranks.get(key.as_str()) {
            if *rank < best_rank {
                best_rank = *rank;
                best = Some(i);
                assert(mergeable(syms, ranks@, i as int, best_rank));
            }
        }
        i = i + 1;
    }
    proof {
        if best is None {
            assert forall|k: int| !#[trigger] next_merge(syms, ranks@, k) by {
                if next_merge(syms, ranks@, k) {
                    let r = choose|r: i32| #[trigger] mergeable(syms, ranks@, k, r);
                    assert(mergeable(syms, ranks@, k, r));
                }
            }
        }
    }
    best
}

/// Merge symbols, lowest rank first, until no merge is left.
fn merge_symbols(symbols: &mut Vec<String>, ranks: &StringHashMap<i32>)
    ensures
        text_views(final(symbols)@) == merge_all(text_views(old(symbols)@), ranks@),
{
    let ghost goal = merge_all(text_views(symbols@), ranks@);
    loop
        invariant
            merge_all(text_views(symbols@), ranks@) == goal,
        ensures
            text_views(symbols@) == goal,
        decreases symbols@.len(),
    {
        let ghost before = text_views(symbols@);
        match find_merge(symbols, ranks) {
            None => {
                break;
            },
            Some(i) => {
                let mut m = symbols[i].clone();
                m.append(symbols[i + 1].as_str());
                symbols.set(i, m);
                symbols.remove(i + 1);
                proof {
                    assert(text_views(symbols@) =~= merged(before, i as int));
                    let k = choose|k: int| #[trigger] next_merge(before, ranks@, k);
                    lemma_next_merge_unique(before, ranks@, i as int, k);
                }
            },
        }
    }
}

/// Append the ids of the bytes that are tokens.
fn push_byte_ids(out: &mut Vec<i32>, b: &[u8], ids: &StringHashMap<i32>)
    ensures
        final(out)@ == old(out)@ + byte_ids(b@, ids@),
{
    let mut i: usize = 0;
    assert(b@.take(0) =~= seq![]);
    assert(out@ =~= old(out)@ + byte_ids(b@.take(0), ids@));
    while i < b.len()
        invariant
            i <= b@.len(),
            out@ =~= old(out)@ + byte_ids(b@.take(i as int), ids@),
        decreases b@.len() - i,
    {
        let mut key = String::new();
        push_char(&mut key, b[i] as char);
        proof {
            assert(key@ =~= seq![b@[i as int] as char]);
            assert(b@.take(i + 1).drop_last() =~= b@.take(i as int));
        }
        if let Some(id) = ids.get(key.as_str()) {
            out.push(*id);
        }
        i = i + 1;
    }
    assert(b@.take(b@.len() as int) =~= b@);
}

/// Apply byte-level BPE to one piece and append its token ids.
pub fn bpe_emit_piece(
    out: &mut Vec<i32>,
    piece: &[u8],
    ids: &StringHashMap<i32>,
    ranks: &StringHashMap<i32>,
)
    ensures
        final(out)@ == old(out)@ + piece_ids(piece@, ids@, ranks@),
{
    let encoded = byte_encode(piece);
    let chars = chars_of(encoded.as_str());
    let mut symbols: Vec<String> = Vec::new();
    let mut i: usize = 0;
    while i < chars.len()
        invariant
            i <= chars@.len(),
            text_views(symbols@) =~= split(chars@.take(i as int)),
        decreases chars@.len() - i,
    {
        let sym = string_of(chars.as_slice(), i, i + 1);
        let ghost before = symbols@;
        assert(sym@ =~= seq![chars@[i as int]]);
        symbols.push(sym);
        proof {
            assert(text_views(symbols@) =~= text_views(before).push(sym@));
            assert(split(chars@.take(i + 1)) =~= split(chars@.take(i as int)).push(sym@));
        }
        i = i + 1;
    }
    assert(chars@.take(chars@.len() as int) =~= chars@);
    merge_symbols(&mut symbols, ranks);
    let ghost syms = text_views(symbols@);
    let mut k: usize = 0;
    assert(syms.take(0) =~= seq![]);
    while k < symbols.len()
        invariant
            k <= symbols@.len(),
            syms == text_views(symbols@),
            out@ =~= old(out)@ + symbols_ids(syms.take(k as int), ids@),
        decreases symbols@.len() - k,
    {
        proof {
            assert(syms.take(k + 1).drop_last() =~= syms.take(k as int));
        }
        if let Some(id) = ids.get(symbols[k].as_str()) {
            out.push(*id);
        } else {
            push_byte_ids(out, symbols[k].as_str().as_bytes(), ids);
        }
        k = k + 1;
    }
    assert(syms.take(syms.len() as int) =~= syms);
}

proof fn lemma_join_concat(a: Seq<Seq<char>>, b: Seq<Seq<char>>)
    ensures
        join(a + b) == join(a) + join(b),
    decreases b.len(),
{
    if b.len() == 0 {
        assert(a + b =~= a);
    } else {
        assert((a + b).drop_last() =~= a + b.drop_last());
        lemma_join_concat(a, b.drop_last());
        assert(join(a + b) =~= join(a) + join(b));
    }
}

proof fn lemma_join_split(t: Seq<char>)
    ensures
        join(split(t)) == t,
    decreases t.len(),
{
    if t.len() == 0 {
        assert(t =~= seq![]);
    } else {
        assert(split(t).drop_last() =~= split(t.drop_last()));
        lemma_join_split(t.drop_last());
        assert(t.drop_last() + seq![t.last()] =~= t);
    }
}

/// Merging keeps the text: the symbols put together are the same before and after.
pub proof fn law_merge_keeps_text(syms: Seq<Seq<char>>, ranks: Map<Seq<char>, i32>)
    ensures
        join(merge_all(syms, ranks)) == join(syms),
    decreases syms.len(),
{
    if exists|i: int| #[trigger] next_merge(syms, ranks, i) {
        let i = choose|i: int| #[trigger] next_merge(syms, ranks, i);
        if 0 <= i < syms.len() - 1 {
            lemma_join_merged(syms, i);
            law_merge_keeps_text(merged(syms, i), ranks);
        }
    }
}

proof fn lemma_join_merged(syms: Seq<Seq<char>>, i: int)
    requires
        0 <= i < syms.len() - 1,
    ensures
        join(merged(syms, i)) == join(syms),
{
    let a = syms.take(i);
    let x = syms[i];
    let y = syms[i + 1];
    let b = syms.skip(i + 2);
    assert(syms =~= a + seq![x, y] + b);
    assert(merged(syms, i) =~= a + seq![x + y] + b);
    lemma_join_concat(a + seq![x, y], b);
    lemma_join_concat(a, seq![x, y]);
    lemma_join_concat(a + seq![x + y], b);
    lemma_join_concat(a, seq![x + y]);
    assert(seq![x, y].drop_last() =~= seq![x]);
    assert(seq![x].drop_last() =~= seq![]);
    assert(seq![x + y].drop_last() =~= seq![]);
    assert(join(seq![]) =~= seq![]);
    assert(join(seq![x]) =~= x);
    assert(join(seq![x, y]) =~= x + y);
    assert(join(seq![x + y]) =~= x + y);
}

/// Every byte has a token, and merging two symbols always gives a token.
pub open spec fn closed_vocabulary(
    ids: Map<Seq<char>, i32>,
    ranks: Map<Seq<char>, i32>,
) -> bool {
    &&& forall|b: u8| ids.contains_key(seq![#[trigger] byte_char(b)])
    &&& forall|x: Seq<char>, y: Seq<char>|
        ranks.contains_key(#[trigger] merge_key(x, y)) ==> ids.contains_key(x + y)
}

/// All symbols are tokens.
pub open spec fn all_tokens(syms: Seq<Seq<char>>, ids: Map<Seq<char>, i32>) -> bool {
    forall|i: int| 0 <= i < syms.len() ==> ids.contains_key(#[trigger] syms[i])
}

proof fn lemma_merge_keeps_tokens(
    syms: Seq<Seq<char>>,
    ids: Map<Seq<char>, i32>,
    ranks: Map<Seq<char>, i32>,
)
    requires
        closed_vocabulary(ids, ranks),
        all_tokens(syms, ids),
    ensures
        all_tokens(merge_all(syms, ranks), ids),
    decreases syms.len(),
{
    if exists|i: int| #[trigger] next_merge(syms, ranks, i) {
        let i = choose|i: int| #[trigger] next_merge(syms, ranks, i);
        if 0 <= i < syms.len() - 1 {
            let r = choose|r: i32| #[trigger] mergeable(syms, ranks, i, r);
            assert(mergeable(syms, ranks, i, r));
            assert(ids.contains_key(syms[i] + syms[i + 1]));
            let m = merged(syms, i);
            assert forall|k: int| 0 <= k < m.len() implies ids.contains_key(#[trigger] m[k]) by {
                if k > i {
                    assert(m[k] == syms[k + 1]);
                }
            }
            lemma_merge_keeps_tokens(m, ids, ranks);
        }
    }
}

/// The text of an id, or nothing if there is no such token.
pub open spec fn id_text(texts: Seq<Seq<char>>, id: i32) -> Seq<char> {
    if 0 <= id < texts.len() as usize as i32 {
        texts[id as int]
    } else {
        seq![]
    }
}

/// The texts of ids put together.
pub open spec fn ids_text(texts: Seq<Seq<char>>, ids: Seq<i32>) -> Seq<char>
    decreases ids.len(),
{
    if ids.len() == 0 {
        seq![]
    } else {
        ids_text(texts, ids.drop_last()) + id_text(texts, ids.last())
    }
}

/// The id of each token text: the last place where it stands.
pub open spec fn id_map(texts: Seq<Seq<char>>) -> Map<Seq<char>, i32>
    decreases texts.len(),
{
    if texts.len() == 0 {
        Map::empty()
    } else {
        id_map(texts.drop_last()).insert(texts.last(), (texts.len() - 1) as usize as i32)
    }
}

/// The id of a token leads back to its text.
pub proof fn law_id_map(texts: Seq<Seq<char>>, t: Seq<char>)
    requires
        texts.len() <= i32::MAX,
        id_map(texts).contains_key(t),
    ensures
        0 <= id_map(texts)[t] < texts.len(),
        texts[id_map(texts)[t] as int] == t,
    decreases texts.len(),
{
    if texts.len() > 0 && t != texts.last() {
        law_id_map(texts.drop_last(), t);
    }
}

/// The id of every token leads back to its text.
pub open spec fn leads_back(texts: Seq<Seq<char>>, ids: Map<Seq<char>, i32>) -> bool {
    forall|t: Seq<char>| #[trigger]
        ids.contains_key(t) ==> 0 <= ids[t] < texts.len() && texts[ids[t] as int] == t
}

/// The ids that are made from the texts lead back to them.
pub proof fn law_ids_lead_back(texts: Seq<Seq<char>>)
    requires
        texts.len() <= i32::MAX,
    ensures
        leads_back(texts, id_map(texts)),
{
    assert forall|t: Seq<char>| #[trigger] id_map(texts).contains_key(t) implies 0
        <= id_map(texts)[t] < texts.len() && texts[id_map(texts)[t] as int] == t by {
        law_id_map(texts, t);
    }
}

/// Decoding ids in a row gives their texts in a row.
pub proof fn law_decode_concat(texts: Seq<Seq<char>>, a: Seq<i32>, b: Seq<i32>)
    ensures
        ids_text(texts, a + b) == ids_text(texts, a) + ids_text(texts, b),
    decreases b.len(),
{
    if b.len() == 0 {
        assert(a + b =~= a);
    } else {
        assert((a + b).drop_last() =~= a + b.drop_last());
        law_decode_concat(texts, a, b.drop_last());
        assert(ids_text(texts, a + b) =~= ids_text(texts, a) + ids_text(texts, b));
    }
}

proof fn lemma_symbols_text(
    texts: Seq<Seq<char>>,
    ids: Map<Seq<char>, i32>,
    syms: Seq<Seq<char>>,
)
    requires
        texts.len() <= i32::MAX,
        leads_back(texts, ids),
        all_tokens(syms, ids),
    ensures
        ids_text(texts, symbols_ids(syms, ids)) == join(syms),
    decreases syms.len(),
{
    if syms.len() > 0 {
        let front = syms.drop_last();
        let last = syms.last();
        assert forall|i: int| 0 <= i < front.len() implies ids.contains_key(
            #[trigger] front[i],
        ) by {
            assert(front[i] == syms[i]);
        }
        lemma_symbols_text(texts, ids, front);
        assert(ids.contains_key(syms[syms.len() - 1]));
        law_decode_concat(texts, symbols_ids(front, ids), seq![ids[last]]);
        reveal_with_fuel(ids_text, 2);
        assert(ids_text(texts, seq![ids[last]]) =~= last);
    }
}

proof fn lemma_pieces_text(
    texts: Seq<Seq<char>>,
    ids: Map<Seq<char>, i32>,
    ranks: Map<Seq<char>, i32>,
    ps: Seq<Seq<u8>>,
)
    requires
        texts.len() <= i32::MAX,
        leads_back(texts, ids),
        closed_vocabulary(ids, ranks),
    ensures
        ids_text(texts, pieces_ids(ps, ids, ranks)) == byte_text(ps.flatten()),
    decreases ps.len(),
{
    if ps.len() == 0 {
        assert(byte_text(ps.flatten()) =~= seq![]);
    } else {
        let front = ps.drop_last();
        let last = ps.last();
        lemma_pieces_text(texts, ids, ranks, front);
        let syms = split(byte_text(last));
        assert forall|i: int| 0 <= i < syms.len() implies ids.contains_key(
            #[trigger] syms[i],
        ) by {
            assert(syms[i] == seq![byte_char(last[i])]);
        }
        lemma_merge_keeps_tokens(syms, ids, ranks);
        law_merge_keeps_text(syms, ranks);
        lemma_join_split(byte_text(last));
        lemma_symbols_text(texts, ids, merge_all(syms, ranks));
        law_decode_concat(
            texts,
            pieces_ids(front, ids, ranks),
            piece_ids(last, ids, ranks),
        );
        ps.lemma_flatten_and_flatten_alt_are_equivalent();
        front.lemma_flatten_and_flatten_alt_are_equivalent();
        assert(ps.flatten() =~= front.flatten() + last);
        assert(byte_text(ps.flatten()) =~= byte_text(front.flatten()) + byte_text(last));
    }
}

/// With a closed vocabulary whose ids lead back to their texts, decoding what a text was encoded to
/// gives the byte text of the text: nothing is lost, added or moved. The empty text has no ids.
pub proof fn law_decode_encode(
    texts: Seq<Seq<char>>,
    ids: Map<Seq<char>, i32>,
    ranks: Map<Seq<char>, i32>,
    raw: Seq<u8>,
)
    requires
        texts.len() <= i32::MAX,
        leads_back(texts, ids),
        closed_vocabulary(ids, ranks),
    ensures
        ids_text(texts, pieces_ids(pieces(raw, 0), ids, ranks)) == byte_text(raw),
        raw.len() == 0 ==> pieces_ids(pieces(raw, 0), ids, ranks).len() == 0,
{
    law_pieces_cover(raw, 0);
    lemma_pieces_text(texts, ids, ranks, pieces(raw, 0));
    assert(raw.subrange(0, raw.len() as int) =~= raw);
}

} // verus!

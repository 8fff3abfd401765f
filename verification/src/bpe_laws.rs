//! What merging promises: it merges the pair that ranks lowest, the first of equal ones, until no
//! pair is left to merge, and what it makes of a text it makes of its pieces one by one.
use crate::bpe::{
    byte_ids, id_text, ids_text, lemma_next_merge_unique, merge_all, merge_key, mergeable, merged,
    next_merge, piece_ids, pieces_ids, split, symbol_ids, symbols_ids,
};
use crate::tokenizer::byte_text;
use vstd::prelude::*;
use vstd::utf8::encode_utf8;

verus! {

/// A pair of neighbours is in the list of merges, under the two texts with a space between them.
pub open spec fn listed(syms: Seq<Seq<char>>, ranks: Map<Seq<char>, i32>, i: int) -> bool {
    0 <= i < syms.len() - 1 && ranks.contains_key(syms[i] + seq![' '] + syms[i + 1])
}

/// The rank of a pair that is listed.
pub open spec fn pair_rank(syms: Seq<Seq<char>>, ranks: Map<Seq<char>, i32>, i: int) -> int {
    ranks[syms[i] + seq![' '] + syms[i + 1]] as int
}

proof fn lemma_key(a: Seq<char>, b: Seq<char>)
    ensures
        merge_key(a, b) == a + seq![' '] + b,
{
    assert(merge_key(a, b) =~= a + seq![' '] + b);
}

/// Merging starts with the pair that ranks lowest, and with the first of those that rank alike: the
/// two texts become one, and merging goes on with what that gives.
pub proof fn law_lowest_rank_merges(syms: Seq<Seq<char>>, ranks: Map<Seq<char>, i32>, i: int)
    requires
        listed(syms, ranks, i),
        pair_rank(syms, ranks, i) < i32::MAX,
        forall|j: int|
            #[trigger] listed(syms, ranks, j) && j != i ==> pair_rank(syms, ranks, i) < pair_rank(
                syms,
                ranks,
                j,
            ) || pair_rank(syms, ranks, i) == pair_rank(syms, ranks, j) && i < j,
    ensures
        merge_all(syms, ranks) == merge_all(
            syms.take(i) + seq![syms[i] + syms[i + 1]] + syms.skip(i + 2),
            ranks,
        ),
{
    let r = ranks[merge_key(syms[i], syms[i + 1])];
    lemma_key(syms[i], syms[i + 1]);
    assert(mergeable(syms, ranks, i, r));
    assert forall|j: int, q: i32| #[trigger] mergeable(syms, ranks, j, q) implies (r < q || r == q && i
        <= j) by {
        lemma_key(syms[j], syms[j + 1]);
        assert(listed(syms, ranks, j));
    }
    assert(next_merge(syms, ranks, i));
    let k = choose|k: int| #[trigger] next_merge(syms, ranks, k);
    lemma_next_merge_unique(syms, ranks, i, k);
    assert(merged(syms, i) =~= syms.take(i) + seq![syms[i] + syms[i + 1]] + syms.skip(i + 2));
}

/// A list of texts of which no two neighbours are listed is left as it is.
pub proof fn law_unlisted_stay(syms: Seq<Seq<char>>, ranks: Map<Seq<char>, i32>)
    requires
        forall|j: int| !#[trigger] listed(syms, ranks, j),
    ensures
        merge_all(syms, ranks) == syms,
{
    assert forall|i: int| !#[trigger] next_merge(syms, ranks, i) by {
        if next_merge(syms, ranks, i) {
            let r = choose|r: i32|
                {
                    &&& #[trigger] mergeable(syms, ranks, i, r)
                    &&& forall|j: int, q: i32| #[trigger]
                        mergeable(syms, ranks, j, q) ==> (r < q || r == q && i <= j)
                };
            assert(mergeable(syms, ranks, i, r));
            lemma_key(syms[i], syms[i + 1]);
            assert(listed(syms, ranks, i));
        }
    }
}

/// The pair among those below `n` that ranks lowest, the first of equal ones.
proof fn lemma_lowest(syms: Seq<Seq<char>>, ranks: Map<Seq<char>, i32>, n: int) -> (k: int)
    requires
        0 <= n <= syms.len() - 1,
        exists|i: int, r: i32| i < n && #[trigger] mergeable(syms, ranks, i, r),
    ensures
        0 <= k < n,
        mergeable(syms, ranks, k, ranks[merge_key(syms[k], syms[k + 1])]),
        forall|j: int, q: i32|
            j < n && #[trigger] mergeable(syms, ranks, j, q) ==> (ranks[merge_key(
                syms[k],
                syms[k + 1],
            )] < q || ranks[merge_key(syms[k], syms[k + 1])] == q && k <= j),
    decreases n,
{
    let m = n - 1;
    let own = ranks[merge_key(syms[m], syms[m + 1])];
    if exists|i: int, r: i32| i < m && #[trigger] mergeable(syms, ranks, i, r) {
        let k = lemma_lowest(syms, ranks, m);
        let r = ranks[merge_key(syms[k], syms[k + 1])];
        if mergeable(syms, ranks, m, own) && own < r {
            m
        } else {
            k
        }
    } else {
        let (i, r) = choose|i: int, r: i32| i < n && #[trigger] mergeable(syms, ranks, i, r);
        assert(i == m);
        m
    }
}

/// Merging ends where nothing is left to merge: no two neighbours of what it gives are listed, with
/// a rank that counts.
pub proof fn law_merging_ends(syms: Seq<Seq<char>>, ranks: Map<Seq<char>, i32>, i: int)
    ensures
        !(listed(merge_all(syms, ranks), ranks, i) && pair_rank(merge_all(syms, ranks), ranks, i)
            < i32::MAX),
    decreases syms.len(),
{
    if exists|k: int| #[trigger] next_merge(syms, ranks, k) {
        let k = choose|k: int| #[trigger] next_merge(syms, ranks, k);
        let r = choose|r: i32|
            {
                &&& #[trigger] mergeable(syms, ranks, k, r)
                &&& forall|j: int, q: i32| #[trigger]
                    mergeable(syms, ranks, j, q) ==> (r < q || r == q && k <= j)
            };
        assert(mergeable(syms, ranks, k, r));
        law_merging_ends(merged(syms, k), ranks, i);
    } else {
        if listed(syms, ranks, i) && pair_rank(syms, ranks, i) < i32::MAX {
            lemma_key(syms[i], syms[i + 1]);
            let own = ranks[merge_key(syms[i], syms[i + 1])];
            assert(mergeable(syms, ranks, i, own));
            let k = lemma_lowest(syms, ranks, syms.len() - 1);
            assert(next_merge(syms, ranks, k));
        }
    }
}

/// Tokens of symbols, of pieces and of unknown symbols' bytes stand one behind the other.
pub proof fn law_ids_concat(
    a: Seq<Seq<char>>,
    b: Seq<Seq<char>>,
    ids: Map<Seq<char>, i32>,
)
    ensures
        symbols_ids(a + b, ids) == symbols_ids(a, ids) + symbols_ids(b, ids),
    decreases b.len(),
{
    if b.len() == 0 {
        assert(a + b =~= a);
        assert(symbols_ids(a, ids) + symbols_ids(b, ids) =~= symbols_ids(a, ids));
    } else {
        assert((a + b).drop_last() =~= a + b.drop_last());
        law_ids_concat(a, b.drop_last(), ids);
        assert(symbols_ids(a + b, ids) =~= symbols_ids(a, ids) + symbols_ids(b, ids));
    }
}

/// The tokens of pieces are those of each piece, in order: what one piece becomes does not depend on
/// the others.
pub proof fn law_pieces_concat(
    a: Seq<Seq<u8>>,
    b: Seq<Seq<u8>>,
    ids: Map<Seq<char>, i32>,
    ranks: Map<Seq<char>, i32>,
)
    ensures
        pieces_ids(a + b, ids, ranks) == pieces_ids(a, ids, ranks) + pieces_ids(b, ids, ranks),
    decreases b.len(),
{
    if b.len() == 0 {
        assert(a + b =~= a);
        assert(pieces_ids(a, ids, ranks) + pieces_ids(b, ids, ranks) =~= pieces_ids(a, ids, ranks));
    } else {
        assert((a + b).drop_last() =~= a + b.drop_last());
        law_pieces_concat(a, b.drop_last(), ids, ranks);
        assert(pieces_ids(a + b, ids, ranks) =~= pieces_ids(a, ids, ranks) + pieces_ids(
            b,
            ids,
            ranks,
        ));
    }
}

/// A symbol that is a token becomes that token alone. One that is not falls back to the bytes of its
/// text, each of which becomes the token of the character with its number, if there is one.
pub proof fn law_symbol_ids(sym: Seq<char>, ids: Map<Seq<char>, i32>, a: Seq<u8>, x: u8)
    ensures
        ids.contains_key(sym) ==> symbol_ids(sym, ids) == seq![ids[sym]],
        !ids.contains_key(sym) && encode_utf8(sym) == a.push(x) ==> symbol_ids(sym, ids) == byte_ids(
            a,
            ids,
        ) + if ids.contains_key(seq![x as char]) {
            seq![ids[seq![x as char]]]
        } else {
            seq![]
        },
        byte_ids(Seq::<u8>::empty(), ids) == Seq::<i32>::empty(),
        byte_ids(a.push(x), ids) == byte_ids(a, ids) + byte_ids(seq![x], ids),
        ids.contains_key(seq![x as char]) ==> byte_ids(seq![x], ids) == seq![ids[seq![x as char]]],
        !ids.contains_key(seq![x as char]) ==> byte_ids(seq![x], ids).len() == 0,
{
    reveal_with_fuel(byte_ids, 2);
    assert(a.push(x).drop_last() =~= a);
    assert(seq![x].drop_last() =~= seq![]);
    let one = byte_ids(seq![x], ids);
    assert(seq![x].last() == x && a.push(x).last() == x);
    if ids.contains_key(seq![x as char]) {
        assert(one =~= seq![ids[seq![x as char]]]);
    } else {
        assert(one =~= seq![]);
    }
    assert(byte_ids(a.push(x), ids) =~= byte_ids(a, ids) + one);
}

/// A piece without merges becomes the tokens of its bytes' characters, one by one.
pub proof fn law_unmerged_piece(piece: Seq<u8>, ids: Map<Seq<char>, i32>)
    ensures
        piece_ids(piece, ids, Map::empty()) == symbols_ids(split(byte_text(piece)), ids),
        split(byte_text(piece)).len() == piece.len(),
        forall|i: int|
            0 <= i < piece.len() ==> #[trigger] split(byte_text(piece))[i]
                == seq![crate::tokenizer::byte_char(piece[i])],
{
    let none = Map::<Seq<char>, i32>::empty();
    law_unlisted_stay(split(byte_text(piece)), none);
}

/// A token in the vocabulary is its text, and a number outside it has no text.
pub proof fn law_token_text(texts: Seq<Seq<char>>, id: i32)
    requires
        texts.len() <= i32::MAX,
    ensures
        0 <= id < texts.len() ==> ids_text(texts, seq![id]) == texts[id as int],
        id < 0 || texts.len() <= id ==> ids_text(texts, seq![id]).len() == 0,
{
    reveal_with_fuel(ids_text, 2);
    assert(seq![id].drop_last() =~= seq![]);
    assert(seq![id].last() == id);
    assert(ids_text(texts, seq![id]) =~= id_text(texts, id));
}

} // verus!

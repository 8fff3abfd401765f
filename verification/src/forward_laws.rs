//! What the caches promise: where a token stands in its window, when a window closes, what is pooled
//! of it, and what a compressed row leaves unchanged.
use crate::Dims;
use crate::compress_ratio;
use crate::compressor::{
    closes_window, freed, fresh_scores, lanes, lemma_row_bounds, lemma_row_frame, lemma_window_size,
    pooled, rounded_row, row, shifted, window_len, window_row, window_rows, window_width, with_row,
};
use crate::forward::{
    comp_capacity, due_at, fresh_layer, law_push_raw_slides, plan_at, raw_capacity, Attention, Due,
    LayerView, TokenRows,
};
use crate::half::{half_rounded, NEG_INF_BITS};
use vstd::prelude::*;

verus! {

/// A window is filled row by row: the token behind another one stands in the next row, until the
/// last row closes the window, and then in the first row that is filled. So a window closes once in
/// as many tokens as it compresses. At ratio 4 it has twice as many rows, and the last half is
/// filled.
pub proof fn law_window_fills(ratio: u32, pos: usize)
    requires
        ratio > 0,
        pos < usize::MAX,
    ensures
        0 <= window_row(ratio, pos) < window_rows(ratio),
        closes_window(ratio, pos) <==> window_row(ratio, pos) == window_rows(ratio) - 1,
        !closes_window(ratio, pos) ==> window_row(ratio, (pos + 1) as usize) == window_row(ratio, pos)
            + 1,
        closes_window(ratio, pos) ==> window_row(ratio, (pos + 1) as usize) == window_rows(ratio)
            - ratio,
        window_row(ratio, 0) == window_rows(ratio) - ratio,
        window_rows(ratio) == if ratio == 4 {
            8
        } else {
            ratio as int
        },
{
    let r = ratio as int;
    let p = pos as int;
    let m = p % r;
    vstd::arithmetic::div_mod::lemma_mod_bound(p, r);
    vstd::arithmetic::div_mod::lemma_fundamental_div_mod(p, r);
    let q = p / r;
    if m + 1 < r {
        assert(p + 1 == q * r + (m + 1)) by (nonlinear_arith)
            requires
                p == r * q + m,
        ;
        vstd::arithmetic::div_mod::lemma_fundamental_div_mod_converse(p + 1, r, q, m + 1);
    } else {
        assert(p + 1 == (q + 1) * r + 0) by (nonlinear_arith)
            requires
                p == r * q + m,
                m + 1 == r,
        ;
        vstd::arithmetic::div_mod::lemma_fundamental_div_mod_converse(p + 1, r, q + 1, 0);
    }
    vstd::arithmetic::div_mod::lemma_small_mod(0, ratio as nat);
}

/// At ratio 4 a token counts twice for dimension `j`: with the second lane of its row when its own
/// window is pooled, and with the first lane when the next one is, after the window has moved on.
pub proof fn law_token_is_pooled_twice(
    data: Seq<u32>,
    head_dim: u32,
    pos: usize,
    src: Seq<u32>,
    v: u32,
    j: int,
)
    requires
        data.len() == window_len(head_dim, 4),
        src.len() == 2 * head_dim,
        0 <= j < head_dim,
    ensures
        ({
            let m = pos as int % 4;
            let stored = with_row(data, 2 * head_dim, window_row(4, pos), src);
            &&& stored[pooled(head_dim, 4, j, 2 * m + 1)] == src[head_dim + j]
            &&& shifted(stored, v)[pooled(head_dim, 4, j, 2 * m)] == src[j]
        }),
{
    lemma_window_size(head_dim, 4);
    let m = pos as int % 4;
    let w = 2 * head_dim as int;
    assert(window_width(head_dim, 4) == w);
    assert((2 * m + 1) / 2 == m && (2 * m + 1) % 2 == 1 && (2 * m) / 2 == m && (2 * m) % 2 == 0);
    assert((4 + m) * w == 4 * w + m * w) by (nonlinear_arith);
    lemma_row_bounds(m, w, 4);
    lemma_row_bounds(4 + m, w, 8);
    let stored = with_row(data, w, window_row(4, pos), src);
    assert(stored.len() == 8 * w);
    assert(pooled(head_dim, 4, j, 2 * m + 1) == (4 + m) * w + head_dim + j);
    assert(pooled(head_dim, 4, j, 2 * m) == m * w + j);
    assert(shifted(stored, v)[m * w + j] == stored[m * w + j + 4 * w]);
}

/// At every other ratio a token counts once for each dimension, with the row where it stands.
pub proof fn law_token_is_pooled_once(
    data: Seq<u32>,
    head_dim: u32,
    ratio: u32,
    pos: usize,
    src: Seq<u32>,
    j: int,
)
    requires
        ratio > 0,
        ratio != 4,
        data.len() == window_len(head_dim, ratio),
        src.len() == head_dim,
        0 <= j < head_dim,
    ensures
        with_row(data, head_dim as int, window_row(ratio, pos), src)[pooled(
            head_dim,
            ratio,
            j,
            pos as int % ratio as int,
        )] == src[j],
{
    lemma_window_size(head_dim, ratio);
    vstd::arithmetic::div_mod::lemma_mod_bound(pos as int, ratio as int);
    let m = pos as int % ratio as int;
    let w = head_dim as int;
    assert(lanes(ratio) * head_dim == w) by (nonlinear_arith)
        requires
            lanes(ratio) == 1,
            w == head_dim as int,
    ;
    lemma_row_bounds(m, w, ratio as int);
}

/// A fresh window of ratio 4 has the score zero in the first lanes of the window before, which are
/// pooled at even places, and the least score wherever a token is yet to come.
pub proof fn law_fresh_window(head_dim: u32, m: int, j: int)
    requires
        0 <= m < 4,
        0 <= j < head_dim,
    ensures
        fresh_scores(head_dim, 4).len() == 16 * head_dim,
        fresh_scores(head_dim, 4)[pooled(head_dim, 4, j, 2 * m)] == 0,
        fresh_scores(head_dim, 4)[pooled(head_dim, 4, j, 2 * m + 1)] == NEG_INF_BITS,
        fresh_scores(head_dim, 4)[m * (2 * head_dim) + head_dim + j] == NEG_INF_BITS,
        fresh_scores(head_dim, 4)[(4 + m) * (2 * head_dim) + j] == NEG_INF_BITS,
{
    lemma_window_size(head_dim, 4);
    let w = 2 * head_dim as int;
    assert(window_width(head_dim, 4) == w);
    assert((2 * m + 1) / 2 == m && (2 * m + 1) % 2 == 1 && (2 * m) / 2 == m && (2 * m) % 2 == 0);
    lemma_row_bounds(m, w, 8);
    lemma_row_bounds(4 + m, w, 8);
    let h = head_dim as int;
    vstd::arithmetic::div_mod::lemma_fundamental_div_mod_converse(m * w + j, w, m, j);
    vstd::arithmetic::div_mod::lemma_fundamental_div_mod_converse(m * w + h + j, w, m, h + j);
    vstd::arithmetic::div_mod::lemma_fundamental_div_mod_converse((4 + m) * w + j, w, 4 + m, j);
    vstd::arithmetic::div_mod::lemma_fundamental_div_mod_converse(
        (4 + m) * w + h + j,
        w,
        4 + m,
        h + j,
    );
}

/// At every other ratio a fresh window has the least score everywhere.
pub proof fn law_fresh_window_elsewhere(head_dim: u32, ratio: u32, i: int)
    requires
        ratio != 4,
        0 <= i < window_len(head_dim, ratio),
    ensures
        fresh_scores(head_dim, ratio)[i] == NEG_INF_BITS,
{
}

/// A compressed row is due when a window closes, and stands for the tokens of that window: it is
/// placed at the first of them.
pub proof fn law_due(ratio: u32, pos: usize)
    requires
        ratio > 0,
        pos < usize::MAX,
    ensures
        due_at(ratio, pos).attn is Some <==> (pos + 1) % ratio as int == 0,
        due_at(ratio, pos).attn matches Some(p) ==> p + ratio == pos + 1 && p as int % ratio as int
            == 0,
        due_at(ratio, pos).index == if ratio == 4 {
            due_at(ratio, pos).attn
        } else {
            None
        },
        due_at(0, pos).attn is None && due_at(0, pos).index is None,
{
    if closes_window(ratio, pos) {
        let r = ratio as int;
        let n = pos + 1;
        vstd::arithmetic::div_mod::lemma_fundamental_div_mod(n, r);
        let q = n / r;
        assert(q >= 1) by (nonlinear_arith)
            requires
                n == r * q,
                n >= 1,
                r >= 1,
        ;
        assert(n - r == (q - 1) * r + 0 && n >= r) by (nonlinear_arith)
            requires
                n == r * q,
                q >= 1,
                r >= 1,
        ;
        vstd::arithmetic::div_mod::lemma_fundamental_div_mod_converse(n - r, r, q - 1, 0);
    }
}

/// What a token needs in a layer: without compression nothing but the recent rows; with ratio 4 a
/// row of twice the head's width for attention and one for the index, which chooses among the
/// compressed rows; otherwise one row of the head's width. Its place is how far into the window it
/// stands.
pub proof fn law_plan(d: Dims, ratio: u32, pos: usize)
    requires
        ratio > 0,
        2 * d.n_head_dim <= usize::MAX,
        2 * d.n_indexer_head_dim <= usize::MAX,
    ensures
        plan_at(d, 0, pos).attn is None && plan_at(d, 0, pos).index is None && plan_at(
            d,
            0,
            pos,
        ).attention == Attention::Recent,
        plan_at(d, ratio, pos).attn matches Some(p) && p.width == if ratio == 4 {
            2 * d.n_head_dim
        } else {
            d.n_head_dim as int
        } && p.place == window_row(ratio, pos) - window_row(ratio, 0),
        ratio == 4 ==> (plan_at(d, ratio, pos).index matches Some(p) && p.width == 2
            * d.n_indexer_head_dim && p.place == pos as int % 4),
        ratio != 4 ==> plan_at(d, ratio, pos).index is None,
        plan_at(d, ratio, pos).attention == if ratio == 4 {
            Attention::Chosen
        } else {
            Attention::Compressed
        },
{
    lemma_window_size(d.n_head_dim, ratio);
    lemma_window_size(d.n_indexer_head_dim, 4);
    vstd::arithmetic::div_mod::lemma_mod_bound(pos as int, ratio as int);
    vstd::arithmetic::div_mod::lemma_small_mod(0, ratio as nat);
    let h = d.n_head_dim as int;
    assert(window_width(d.n_head_dim, ratio) == if ratio == 4 {
        2 * h
    } else {
        h
    }) by {
        if ratio != 4 {
            assert(lanes(ratio) * h == h) by (nonlinear_arith)
                requires
                    lanes(ratio) == 1,
            ;
        }
    }
    let m = pos as int % ratio as int;
    assert(m < ratio);
}

/// The raw window holds as many rows as the sliding window or the context has, whichever is less,
/// but at least one. Compressed rows have room for one in four tokens, and two more.
pub proof fn law_capacities(d: Dims, ctx_size: usize)
    ensures
        1 <= raw_capacity(d, ctx_size),
        raw_capacity(d, ctx_size) == 1 || raw_capacity(d, ctx_size) <= d.n_swa,
        raw_capacity(d, ctx_size) == 1 || raw_capacity(d, ctx_size) <= ctx_size,
        raw_capacity(d, ctx_size) >= d.n_swa || raw_capacity(d, ctx_size) >= ctx_size,
        4 * (comp_capacity(ctx_size) - 2) <= ctx_size < 4 * (comp_capacity(ctx_size) - 1),
{
}

/// A fresh layer holds nothing: no row is counted and every number is zero, but for the scores. It
/// has room for compressed rows from the third layer on, and for an index in every second one.
pub proof fn law_fresh_layer(d: Dims, ctx_size: usize, il: u32, i: int)
    requires
        raw_capacity(d, ctx_size) <= u32::MAX,
        comp_capacity(ctx_size) <= u32::MAX,
    ensures
        ({
            let l = fresh_layer(d, ctx_size, il);
            &&& l.n_raw == 0 && l.n_comp == 0 && l.n_index_comp == 0
            &&& l.compress_ratio == compress_ratio(il)
            &&& l.cap_raw == raw_capacity(d, ctx_size)
            &&& l.comp_cap == comp_capacity(ctx_size)
            &&& l.raw_kv.len() == l.cap_raw * d.n_head_dim
            &&& l.attn_comp_kv.len() == if il < 2 {
                0
            } else {
                l.comp_cap * d.n_head_dim
            }
            &&& l.index_comp_kv.len() == if il < 2 || il % 2 == 1 {
                0
            } else {
                l.comp_cap * d.n_indexer_head_dim
            }
            &&& 0 <= i < l.raw_kv.len() ==> l.raw_kv[i] == 0
            &&& 0 <= i < l.attn_comp_kv.len() ==> l.attn_comp_kv[i] == 0
            &&& 0 <= i < l.index_comp_kv.len() ==> l.index_comp_kv[i] == 0
            &&& 0 <= i < l.attn_state_kv.len() ==> l.attn_state_kv[i] == 0
            &&& 0 <= i < l.index_state_kv.len() ==> l.index_state_kv[i] == 0
        }),
{
    let a = lemma_rows_len(raw_capacity(d, ctx_size), d.n_head_dim as int);
    let b = lemma_rows_len(comp_capacity(ctx_size), d.n_head_dim as int);
    let c = lemma_rows_len(comp_capacity(ctx_size), d.n_indexer_head_dim as int);
    if compress_ratio(il) != 0 {
        lemma_window_size(d.n_head_dim, compress_ratio(il));
    }
    lemma_window_size(d.n_indexer_head_dim, 4);
}

/// The length of rows is no less than nothing.
proof fn lemma_rows_len(n: int, w: int) -> (r: int)
    requires
        0 <= n,
        0 <= w,
    ensures
        r == n * w,
        r >= 0,
{
    assert(n * w >= 0) by (nonlinear_arith)
        requires
            0 <= n,
            0 <= w,
    ;
    n * w
}

/// A compressed row is appended, rounded to halves, behind those that are there, which stay; the raw
/// rows and everything of the index stay too.
pub proof fn law_compressed_row_is_appended(l: LayerView, d: Dims, comp: Seq<u32>, k: int)
    requires
        l.wf(d),
        l.compress_ratio != 0,
        l.n_comp < l.comp_cap,
        d.n_head_dim <= comp.len(),
        0 <= k < l.n_comp,
    ensures
        ({
            let w = d.n_head_dim as int;
            let after = l.with_attn_comp(d, comp);
            &&& after.n_comp == l.n_comp + 1
            &&& row(after.attn_comp_kv, w, l.n_comp as int) == Seq::new(
                w as nat,
                |i: int| half_rounded(comp[i]),
            )
            &&& row(after.attn_comp_kv, w, k) == row(l.attn_comp_kv, w, k)
            &&& after.raw_kv == l.raw_kv && after.n_raw == l.n_raw
            &&& after.index_comp_kv == l.index_comp_kv && after.n_index_comp == l.n_index_comp
            &&& after.index_state_kv == l.index_state_kv && after.index_state_score
                == l.index_state_score
            &&& l.compress_ratio != 4 ==> after.attn_state_kv == l.attn_state_kv
                && after.attn_state_score == l.attn_state_score
        }),
{
    let w = d.n_head_dim as int;
    let n = l.n_comp as int;
    let after = l.with_attn_comp(d, comp);
    lemma_row_bounds(n, w, l.comp_cap as int);
    assert(row(after.attn_comp_kv, w, n) =~= rounded_row(comp, w));
    lemma_row_frame(after.attn_comp_kv, l.attn_comp_kv, w, n, l.comp_cap as int, k);
}

/// An index row is appended in the same way, and everything else stays.
pub proof fn law_index_row_is_appended(l: LayerView, d: Dims, comp: Seq<u32>, k: int)
    requires
        l.wf(d),
        l.compress_ratio == 4,
        l.n_index_comp < l.comp_cap,
        d.n_indexer_head_dim <= comp.len(),
        0 <= k < l.n_index_comp,
    ensures
        ({
            let w = d.n_indexer_head_dim as int;
            let after = l.with_index_comp(d, comp);
            &&& after.n_index_comp == l.n_index_comp + 1
            &&& row(after.index_comp_kv, w, l.n_index_comp as int) == Seq::new(
                w as nat,
                |i: int| half_rounded(comp[i]),
            )
            &&& row(after.index_comp_kv, w, k) == row(l.index_comp_kv, w, k)
            &&& after.raw_kv == l.raw_kv && after.n_raw == l.n_raw
            &&& after.attn_comp_kv == l.attn_comp_kv && after.n_comp == l.n_comp
            &&& after.attn_state_kv == l.attn_state_kv && after.attn_state_score
                == l.attn_state_score
        }),
{
    let w = d.n_indexer_head_dim as int;
    let n = l.n_index_comp as int;
    let after = l.with_index_comp(d, comp);
    lemma_row_bounds(n, w, l.comp_cap as int);
    assert(row(after.index_comp_kv, w, n) =~= rounded_row(comp, w));
    lemma_row_frame(after.index_comp_kv, l.index_comp_kv, w, n, l.comp_cap as int, k);
}

/// When a window of ratio 4 has been pooled, its second half moves to the first, row by row, and the
/// second half is as in a window that has seen nothing.
pub proof fn law_window_moves_on(data: Seq<u32>, head_dim: u32, v: u32, r: int)
    requires
        data.len() == window_len(head_dim, 4),
        0 <= r < 4,
    ensures
        ({
            let w = 2 * head_dim as int;
            &&& row(shifted(data, v), w, r) == row(data, w, 4 + r)
            &&& row(shifted(data, v), w, 4 + r) == Seq::new(w as nat, |i: int| v)
        }),
{
    lemma_window_size(head_dim, 4);
    let w = 2 * head_dim as int;
    lemma_row_bounds(r, w, 4);
    lemma_row_bounds(4 + r, w, 8);
    assert((4 + r) * w == 4 * w + r * w) by (nonlinear_arith);
    assert(row(shifted(data, v), w, r) =~= row(data, w, 4 + r));
    assert(row(shifted(data, v), w, 4 + r) =~= Seq::new(w as nat, |i: int| v));
}

/// A token's rows go into the windows at its own row, keys and scores each into their own, and leave
/// the compressed rows and the other rows of the windows as they are.
pub proof fn law_token_enters_window(
    l: LayerView,
    d: Dims,
    pos: usize,
    kv: Seq<u32>,
    sc: Seq<u32>,
    r: int,
)
    requires
        l.wf(d),
        l.compress_ratio != 0,
        kv.len() == window_width(d.n_head_dim, l.compress_ratio),
        sc.len() == window_width(d.n_head_dim, l.compress_ratio),
        0 <= r < window_rows(l.compress_ratio),
    ensures
        ({
            let w = window_width(d.n_head_dim, l.compress_ratio);
            let after = l.with_attn_token(d, pos, kv, sc);
            &&& row(after.attn_state_kv, w, r) == if r == window_row(l.compress_ratio, pos) {
                kv
            } else {
                row(l.attn_state_kv, w, r)
            }
            &&& row(after.attn_state_score, w, r) == if r == window_row(l.compress_ratio, pos) {
                sc
            } else {
                row(l.attn_state_score, w, r)
            }
            &&& after.raw_kv == l.raw_kv && after.attn_comp_kv == l.attn_comp_kv
                && after.index_comp_kv == l.index_comp_kv && after.index_state_kv
                == l.index_state_kv && after.index_state_score == l.index_state_score
        }),
{
    let ratio = l.compress_ratio;
    let w = window_width(d.n_head_dim, ratio);
    let n = window_rows(ratio);
    lemma_window_size(d.n_head_dim, ratio);
    vstd::arithmetic::div_mod::lemma_mod_bound(pos as int, ratio as int);
    let at = window_row(ratio, pos);
    let after = l.with_attn_token(d, pos, kv, sc);
    lemma_row_bounds(r, w, n);
    lemma_row_bounds(at, w, n);
    if r == at {
        assert(row(after.attn_state_kv, w, r) =~= kv);
        assert(row(after.attn_state_score, w, r) =~= sc);
    } else {
        lemma_row_frame(after.attn_state_kv, l.attn_state_kv, w, at, n, r);
        lemma_row_frame(after.attn_state_score, l.attn_state_score, w, at, n, r);
    }
}

/// The same of the index's windows.
pub proof fn law_token_enters_index(
    l: LayerView,
    d: Dims,
    pos: usize,
    kv: Seq<u32>,
    sc: Seq<u32>,
    r: int,
)
    requires
        l.wf(d),
        l.compress_ratio == 4,
        kv.len() == 2 * d.n_indexer_head_dim,
        sc.len() == 2 * d.n_indexer_head_dim,
        0 <= r < 8,
    ensures
        ({
            let w = 2 * d.n_indexer_head_dim as int;
            let after = l.with_index_token(d, pos, kv, sc);
            &&& row(after.index_state_kv, w, r) == if r == 4 + pos as int % 4 {
                kv
            } else {
                row(l.index_state_kv, w, r)
            }
            &&& row(after.index_state_score, w, r) == if r == 4 + pos as int % 4 {
                sc
            } else {
                row(l.index_state_score, w, r)
            }
            &&& after.raw_kv == l.raw_kv && after.attn_comp_kv == l.attn_comp_kv
                && after.index_comp_kv == l.index_comp_kv && after.attn_state_kv
                == l.attn_state_kv && after.attn_state_score == l.attn_state_score
        }),
{
    let w = 2 * d.n_indexer_head_dim as int;
    lemma_window_size(d.n_indexer_head_dim, 4);
    let at = 4 + pos as int % 4;
    let after = l.with_index_token(d, pos, kv, sc);
    lemma_row_bounds(r, w, 8);
    lemma_row_bounds(at, w, 8);
    if r == at {
        assert(row(after.index_state_kv, w, r) =~= kv);
        assert(row(after.index_state_score, w, r) =~= sc);
    } else {
        lemma_row_frame(after.index_state_kv, l.index_state_kv, w, at, 8, r);
        lemma_row_frame(after.index_state_score, l.index_state_score, w, at, 8, r);
    }
}

/// A token that is fed leaves its rows where they belong: its key, rounded to halves, behind the raw
/// rows, and its window rows in the windows of the layer, keys among keys and scores among scores. The
/// compressed rows stay as they are.
pub proof fn law_token_is_fed(l: LayerView, d: Dims, pos: usize, t: TokenRows)
    requires
        l.wf(d),
        t.fits(d, l.compress_ratio),
    ensures
        ({
            let after = l.fed(d, pos, t);
            let ratio = l.compress_ratio;
            let w = window_width(d.n_head_dim, ratio);
            let iw = 2 * d.n_indexer_head_dim as int;
            &&& after.raw_kv == l.with_raw(d, t.kv@).raw_kv && after.n_raw == l.with_raw(
                d,
                t.kv@,
            ).n_raw
            &&& ratio != 0 ==> row(after.attn_state_kv, w, window_row(ratio, pos)) == t.attn_kv@
                && row(after.attn_state_score, w, window_row(ratio, pos)) == t.attn_score@
            &&& ratio == 0 ==> after.attn_state_kv == l.attn_state_kv && after.attn_state_score
                == l.attn_state_score
            &&& ratio == 4 ==> row(after.index_state_kv, iw, 4 + pos as int % 4) == t.index_kv@
                && row(after.index_state_score, iw, 4 + pos as int % 4) == t.index_score@
            &&& ratio != 4 ==> after.index_state_kv == l.index_state_kv && after.index_state_score
                == l.index_state_score
            &&& after.attn_comp_kv == l.attn_comp_kv && after.n_comp == l.n_comp
            &&& after.index_comp_kv == l.index_comp_kv && after.n_index_comp == l.n_index_comp
        }),
{
    let ratio = l.compress_ratio;
    let a = l.with_raw(d, t.kv@);
    law_push_raw_slides(l, d, t.kv@);
    lemma_window_size(d.n_indexer_head_dim, 4);
    if ratio != 0 {
        law_window_fills(ratio, 0);
        vstd::arithmetic::div_mod::lemma_mod_bound(pos as int, ratio as int);
        law_token_enters_window(
            a,
            d,
            pos,
            t.attn_kv@,
            t.attn_score@,
            window_row(ratio, pos),
        );
        if ratio == 4 {
            let b = a.with_attn_token(d, pos, t.attn_kv@, t.attn_score@);
            assert(b.index_state_kv.len() == window_len(d.n_indexer_head_dim, 4));
            assert(b.wf(d));
            law_token_enters_index(
                b,
                d,
                pos,
                t.index_kv@,
                t.index_score@,
                4 + pos as int % 4,
            );
        }
    }
}

/// Rows that are due are taken each into its own list, and one that is not due changes nothing.
pub proof fn law_due_rows_are_taken(
    l: LayerView,
    d: Dims,
    due: Due,
    attn_row: Seq<u32>,
    index_row: Seq<u32>,
)
    requires
        l.wf(d),
        l.has_room(due),
        due.attn is Some ==> d.n_head_dim <= attn_row.len(),
        due.index is Some ==> d.n_indexer_head_dim <= index_row.len(),
    ensures
        ({
            let after = l.taken(d, due, attn_row, index_row);
            let w = d.n_head_dim as int;
            let iw = d.n_indexer_head_dim as int;
            &&& due.attn is Some ==> after.n_comp == l.n_comp + 1 && row(
                after.attn_comp_kv,
                w,
                l.n_comp as int,
            ) == Seq::new(w as nat, |i: int| half_rounded(attn_row[i]))
            &&& due.attn is None ==> after.n_comp == l.n_comp && after.attn_comp_kv
                == l.attn_comp_kv && after.attn_state_kv == l.attn_state_kv
                && after.attn_state_score == l.attn_state_score
            &&& due.index is Some ==> after.n_index_comp == l.n_index_comp + 1 && row(
                after.index_comp_kv,
                iw,
                l.n_index_comp as int,
            ) == Seq::new(iw as nat, |i: int| half_rounded(index_row[i]))
            &&& due.index is None ==> after.n_index_comp == l.n_index_comp && after.index_comp_kv
                == l.index_comp_kv && after.index_state_kv == l.index_state_kv
                && after.index_state_score == l.index_state_score
            &&& after.raw_kv == l.raw_kv && after.n_raw == l.n_raw
        }),
{
    let w = d.n_head_dim as int;
    let iw = d.n_indexer_head_dim as int;
    let after = l.taken(d, due, attn_row, index_row);
    if due.attn is Some {
        lemma_row_bounds(l.n_comp as int, w, l.comp_cap as int);
        assert(row(after.attn_comp_kv, w, l.n_comp as int) =~= rounded_row(attn_row, w));
    }
    if due.index is Some {
        lemma_row_bounds(l.n_index_comp as int, iw, l.comp_cap as int);
        assert(row(after.index_comp_kv, iw, l.n_index_comp as int) =~= rounded_row(index_row, iw));
    }
}

/// Finishing a prompt clears a window from the row on where the next token will stand: keys become
/// zero and scores the least. Rows before that stay, and so does everything outside the windows.
pub proof fn law_finished_layer(l: LayerView, d: Dims, n_tokens: usize, i: int)
    requires
        l.wf(d),
        0 <= i,
    ensures
        ({
            let after = l.finished(d, n_tokens);
            let ratio = l.compress_ratio;
            let from = window_row(ratio, n_tokens) * window_width(d.n_head_dim, ratio);
            let index_from = (4 + n_tokens as int % 4) * (2 * d.n_indexer_head_dim);
            &&& after.raw_kv == l.raw_kv && after.n_raw == l.n_raw
            &&& after.attn_comp_kv == l.attn_comp_kv && after.n_comp == l.n_comp
            &&& after.index_comp_kv == l.index_comp_kv && after.n_index_comp == l.n_index_comp
            &&& ratio == 0 ==> after == l
            &&& ratio != 0 && i < l.attn_state_kv.len() ==> after.attn_state_kv[i] == if i < from {
                l.attn_state_kv[i]
            } else {
                0
            } && after.attn_state_score[i] == if i < from {
                l.attn_state_score[i]
            } else {
                NEG_INF_BITS
            }
            &&& ratio == 4 && i < l.index_state_kv.len() ==> after.index_state_kv[i] == if i
                < index_from {
                l.index_state_kv[i]
            } else {
                0
            } && after.index_state_score[i] == if i < index_from {
                l.index_state_score[i]
            } else {
                NEG_INF_BITS
            }
            &&& ratio != 4 ==> after.index_state_kv == l.index_state_kv && after.index_state_score
                == l.index_state_score
        }),
{
    lemma_window_size(d.n_indexer_head_dim, 4);
    if l.compress_ratio != 0 {
        lemma_window_size(d.n_head_dim, l.compress_ratio);
    }
}

/// Clearing a window on its own does the same, and leaves what lies behind the window.
pub proof fn law_freed(data: Seq<u32>, head_dim: u32, ratio: u32, n_tokens: usize, v: u32, i: int)
    requires
        ratio > 0,
        0 <= i < data.len(),
    ensures
        freed(data, head_dim, ratio, n_tokens, v).len() == data.len(),
        freed(data, head_dim, ratio, n_tokens, v)[i] == if window_row(ratio, n_tokens)
            * window_width(head_dim, ratio) <= i < window_len(head_dim, ratio) {
            v
        } else {
            data[i]
        },
        window_len(head_dim, ratio) == window_rows(ratio) * window_width(head_dim, ratio),
        window_width(head_dim, ratio) == if ratio == 4 {
            2 * head_dim
        } else {
            head_dim as int
        },
{
    lemma_window_size(head_dim, ratio);
    let h = head_dim as int;
    if ratio != 4 {
        assert(lanes(ratio) * h == h) by (nonlinear_arith)
            requires
                lanes(ratio) == 1,
        ;
    }
}

} // verus!

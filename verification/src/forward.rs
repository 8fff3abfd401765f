//! Caches of the forward pass, and the choices that the forward pass makes.
//!
//! All floats are bit patterns. A cache holds rows of a fixed width one behind the other.
use crate::compressor::{
    clear_start, clearable, cleared, closes_window, fill, filled, freed, fresh_scores, lemma_freed,
    lemma_row_bounds, lemma_row_frame, lemma_window_size, make_scores, rounded_row, row, rows,
    shifted, window_len, window_row, window_width, with_row, write_rounded,
};
pub use crate::compressor::{
    compressor_finish_prefill_state, compressor_shift, compressor_step, compressor_store,
    pool_slots, CompressorStep,
};
use crate::constants::Dims;
use crate::half::NEG_INF_BITS;
pub use crate::routing::{
    allowed_indices, embed_token_f16, expert_block, hc_from_plain_embedding, indexer_allowed,
    layer_hash_selected_experts, layer_routing, layer_topk_selected_experts, Routing,
};
use crate::{compress_ratio, layer_compress_ratio};
use vstd::prelude::*;
use vstd::slice::slice_subrange;

verus! {

/// What a layer's cache holds.
#[verifier::ext_equal]
pub ghost struct LayerView {
    /// Rows of recent tokens.
    pub raw_kv: Seq<u32>,
    /// How many rows of recent tokens there are.
    pub n_raw: u32,
    /// How many rows of recent tokens fit.
    pub cap_raw: u32,
    /// How many tokens one compressed row stands for; zero where nothing is compressed.
    pub compress_ratio: u32,
    /// Compressed rows.
    pub attn_comp_kv: Seq<u32>,
    /// How many compressed rows there are.
    pub n_comp: u32,
    /// How many compressed rows fit.
    pub comp_cap: u32,
    /// The window of the compressor.
    pub attn_state_kv: Seq<u32>,
    /// The scores in the window.
    pub attn_state_score: Seq<u32>,
    /// Compressed rows of the indexer.
    pub index_comp_kv: Seq<u32>,
    /// How many compressed rows of the indexer there are.
    pub n_index_comp: u32,
    /// The window of the indexer's compressor.
    pub index_state_kv: Seq<u32>,
    /// The scores in the indexer's window.
    pub index_state_score: Seq<u32>,
}

/// The cache of one layer.
#[derive(Debug)]
pub struct LayerCache {
    /// Rows of recent tokens, rounded to half precision.
    pub raw_kv: Vec<u32>,
    /// How many rows of recent tokens there are.
    pub n_raw: u32,
    /// How many rows of recent tokens fit.
    pub cap_raw: u32,
    /// How many tokens one compressed row stands for; zero where nothing is compressed.
    pub compress_ratio: u32,
    /// Compressed rows, rounded to half precision.
    pub attn_comp_kv: Vec<u32>,
    /// How many compressed rows there are.
    pub n_comp: u32,
    /// How many compressed rows fit.
    pub comp_cap: u32,
    /// The window of the compressor.
    pub attn_state_kv: Vec<u32>,
    /// The scores in the window.
    pub attn_state_score: Vec<u32>,
    /// Compressed rows of the indexer, rounded to half precision.
    pub index_comp_kv: Vec<u32>,
    /// How many compressed rows of the indexer there are.
    pub n_index_comp: u32,
    /// The window of the indexer's compressor.
    pub index_state_kv: Vec<u32>,
    /// The scores in the indexer's window.
    pub index_state_score: Vec<u32>,
}

impl View for LayerCache {
    type V = LayerView;

    open spec fn view(&self) -> LayerView {
        LayerView {
            raw_kv: self.raw_kv@,
            n_raw: self.n_raw,
            cap_raw: self.cap_raw,
            compress_ratio: self.compress_ratio,
            attn_comp_kv: self.attn_comp_kv@,
            n_comp: self.n_comp,
            comp_cap: self.comp_cap,
            attn_state_kv: self.attn_state_kv@,
            attn_state_score: self.attn_state_score@,
            index_comp_kv: self.index_comp_kv@,
            n_index_comp: self.n_index_comp,
            index_state_kv: self.index_state_kv@,
            index_state_score: self.index_state_score@,
        }
    }
}

/// How many rows of recent tokens a cache keeps: the window, or less in a short context, but at
/// least one.
pub open spec fn raw_capacity(d: Dims, ctx_size: usize) -> int {
    let m = if d.n_swa <= ctx_size {
        d.n_swa as int
    } else {
        ctx_size as int
    };
    if m < 1 {
        1
    } else {
        m
    }
}

/// How many compressed rows a context asks for.
pub open spec fn comp_capacity(ctx_size: usize) -> int {
    ctx_size as int / 4 + 2
}

/// The sizes of a model and a context whose caches can be allocated.
pub open spec fn cacheable(d: Dims, ctx_size: usize) -> bool {
    &&& raw_capacity(d, ctx_size) * d.n_head_dim <= usize::MAX
    &&& comp_capacity(ctx_size) * d.n_head_dim <= usize::MAX
    &&& comp_capacity(ctx_size) * d.n_indexer_head_dim <= usize::MAX
    &&& window_len(d.n_head_dim, 4) <= usize::MAX
    &&& window_len(d.n_head_dim, 128) <= usize::MAX
    &&& window_len(d.n_indexer_head_dim, 4) <= usize::MAX
}

/// The cache of a layer before the first token.
pub open spec fn fresh_layer(d: Dims, ctx_size: usize, il: u32) -> LayerView {
    let ratio = compress_ratio(il);
    let comp_cap = comp_capacity(ctx_size);
    LayerView {
        raw_kv: filled((raw_capacity(d, ctx_size) * d.n_head_dim) as nat, 0),
        n_raw: 0,
        cap_raw: raw_capacity(d, ctx_size) as u32,
        compress_ratio: ratio,
        attn_comp_kv: if ratio != 0 {
            filled((comp_cap * d.n_head_dim) as nat, 0)
        } else {
            Seq::empty()
        },
        n_comp: 0,
        comp_cap: comp_cap as u32,
        attn_state_kv: filled(window_len(d.n_head_dim, ratio) as nat, 0),
        attn_state_score: if ratio != 0 {
            fresh_scores(d.n_head_dim, ratio)
        } else {
            Seq::empty()
        },
        index_comp_kv: if ratio == 4 {
            filled((comp_cap * d.n_indexer_head_dim) as nat, 0)
        } else {
            Seq::empty()
        },
        n_index_comp: 0,
        index_state_kv: if ratio == 4 {
            filled(window_len(d.n_indexer_head_dim, 4) as nat, 0)
        } else {
            Seq::empty()
        },
        index_state_score: if ratio == 4 {
            fresh_scores(d.n_indexer_head_dim, 4)
        } else {
            Seq::empty()
        },
    }
}

/// What the projections of a token are, by what they are for. Projections that a layer does not use
/// are not read.
#[derive(Debug)]
pub struct TokenRows {
    /// The row to attend to.
    pub kv: Vec<u32>,
    /// The values for the window.
    pub attn_kv: Vec<u32>,
    /// The scores for the window.
    pub attn_score: Vec<u32>,
    /// The values for the indexer's window.
    pub index_kv: Vec<u32>,
    /// The scores for the indexer's window.
    pub index_score: Vec<u32>,
}

impl TokenRows {
    /// The projections that a layer uses have the right widths.
    pub open spec fn fits(&self, d: Dims, ratio: u32) -> bool {
        &&& d.n_head_dim <= self.kv@.len()
        &&& ratio != 0 ==> {
            &&& self.attn_kv@.len() == window_width(d.n_head_dim, ratio)
            &&& self.attn_score@.len() == window_width(d.n_head_dim, ratio)
        }
        &&& ratio == 4 ==> {
            &&& self.index_kv@.len() == window_width(d.n_indexer_head_dim, 4)
            &&& self.index_score@.len() == window_width(d.n_indexer_head_dim, 4)
        }
    }
}

/// A projection of a token into a window: its width, and the place of the token among those that
/// share a compressed row.
#[derive(Debug, Clone, Copy, PartialEq, Eq, Structural)]
pub struct Projection {
    pub width: usize,
    pub place: usize,
}

/// What a token attends to besides the rows of recent tokens.
#[derive(Debug, Clone, Copy, PartialEq, Eq, Structural)]
pub enum Attention {
    /// Nothing.
    Recent,
    /// All compressed rows.
    Compressed,
    /// The compressed rows that the indexer chooses.
    Chosen,
}

/// What a layer needs of a token, and what the token attends to.
#[derive(Debug, Clone, Copy, PartialEq, Eq, Structural)]
pub struct TokenPlan {
    /// The projection into the window.
    pub attn: Option<Projection>,
    /// The projection into the indexer's window.
    pub index: Option<Projection>,
    /// What the token attends to.
    pub attention: Attention,
}

/// The projection of the token at a position.
pub open spec fn projection_at(head_dim: u32, ratio: u32, pos: usize) -> Projection {
    Projection {
        width: window_width(head_dim, ratio) as usize,
        place: (pos as int % ratio as int) as usize,
    }
}

/// The plan for the token at a position: a layer that compresses by 4 has an indexer, and one that
/// compresses by more attends to all its compressed rows.
pub open spec fn plan_at(d: Dims, ratio: u32, pos: usize) -> TokenPlan {
    if ratio == 0 {
        TokenPlan { attn: None, index: None, attention: Attention::Recent }
    } else if ratio == 4 {
        TokenPlan {
            attn: Some(projection_at(d.n_head_dim, 4, pos)),
            index: Some(projection_at(d.n_indexer_head_dim, 4, pos)),
            attention: Attention::Chosen,
        }
    } else {
        TokenPlan {
            attn: Some(projection_at(d.n_head_dim, ratio, pos)),
            index: None,
            attention: Attention::Compressed,
        }
    }
}

/// Projections of the planned widths can be fed.
pub proof fn law_planned_rows_fit(l: LayerView, d: Dims, pos: usize, t: TokenRows)
    requires
        l.wf(d),
        l.attn_state_kv.len() <= usize::MAX,
        l.index_state_kv.len() <= usize::MAX,
        t.kv@.len() == d.n_head_dim,
        plan_at(d, l.compress_ratio, pos).attn matches Some(p) ==> t.attn_kv@.len() == p.width
            && t.attn_score@.len() == p.width,
        plan_at(d, l.compress_ratio, pos).index matches Some(p) ==> t.index_kv@.len() == p.width
            && t.index_score@.len() == p.width,
    ensures
        t.fits(d, l.compress_ratio),
{
    let ratio = l.compress_ratio;
    if ratio != 0 {
        lemma_window_size(d.n_head_dim, ratio);
    }
    if ratio == 4 {
        lemma_window_size(d.n_indexer_head_dim, 4);
    }
}

/// Which compressed rows are due, and the positions that they stand for.
#[derive(Debug, Clone, Copy, PartialEq, Eq, Structural)]
pub struct Due {
    /// The compressed row.
    pub attn: Option<usize>,
    /// The compressed row of the indexer.
    pub index: Option<usize>,
}

/// What is due after the token at a position.
pub open spec fn due_at(ratio: u32, pos: usize) -> Due {
    let first = if ratio != 0 && closes_window(ratio, pos) {
        Some((pos + 1 - ratio) as usize)
    } else {
        None
    };
    Due {
        attn: first,
        index: if ratio == 4 {
            first
        } else {
            None
        },
    }
}

impl LayerView {
    /// The cache fits the sizes of a model.
    pub open spec fn wf(self, d: Dims) -> bool {
        let hd = d.n_head_dim;
        let ihd = d.n_indexer_head_dim;
        let ratio = self.compress_ratio;
        &&& ratio == 0 || ratio == 4 || ratio == 128
        &&& self.raw_kv.len() == self.cap_raw * hd
        &&& self.raw_kv.len() <= usize::MAX
        &&& 1 <= self.cap_raw
        &&& self.n_raw <= self.cap_raw
        &&& self.n_comp <= self.comp_cap
        &&& self.n_index_comp <= self.comp_cap
        &&& self.attn_state_kv.len() == window_len(hd, ratio)
        &&& self.attn_state_score.len() == window_len(hd, ratio)
        &&& ratio != 0 ==> self.attn_comp_kv.len() >= self.comp_cap * hd
        &&& ratio == 4 ==> {
            &&& self.index_comp_kv.len() >= self.comp_cap * ihd
            &&& self.index_state_kv.len() == window_len(ihd, 4)
            &&& self.index_state_score.len() == window_len(ihd, 4)
        }
    }

    /// The rows of recent tokens.
    pub open spec fn raw_rows(self, d: Dims) -> Seq<Seq<u32>> {
        rows(self.raw_kv, d.n_head_dim as int, self.n_raw as int)
    }

    /// The cache with one more row of a recent token: behind the others while there is room, and
    /// pushing out the oldest row when there is none.
    pub open spec fn with_raw(self, d: Dims, kv: Seq<u32>) -> LayerView {
        let w = d.n_head_dim as int;
        if self.n_raw < self.cap_raw {
            LayerView {
                raw_kv: with_row(self.raw_kv, w, self.n_raw as int, rounded_row(kv, w)),
                n_raw: (self.n_raw + 1) as u32,
                ..self
            }
        } else {
            LayerView { raw_kv: self.raw_kv.skip(w) + rounded_row(kv, w), ..self }
        }
    }

    /// The cache with a row in the place of a position, counted round the window.
    pub open spec fn with_raw_at(self, d: Dims, slot: int, kv: Seq<u32>) -> LayerView {
        let w = d.n_head_dim as int;
        LayerView { raw_kv: with_row(self.raw_kv, w, slot, rounded_row(kv, w)), ..self }
    }

    /// The cache with the projections of a token in the window.
    pub open spec fn with_attn_token(
        self,
        d: Dims,
        pos: usize,
        kv: Seq<u32>,
        sc: Seq<u32>,
    ) -> LayerView {
        let w = window_width(d.n_head_dim, self.compress_ratio);
        let r = window_row(self.compress_ratio, pos);
        LayerView {
            attn_state_kv: with_row(self.attn_state_kv, w, r, kv),
            attn_state_score: with_row(self.attn_state_score, w, r, sc),
            ..self
        }
    }

    /// The cache with the projections of a token in the indexer's window.
    pub open spec fn with_index_token(
        self,
        d: Dims,
        pos: usize,
        kv: Seq<u32>,
        sc: Seq<u32>,
    ) -> LayerView {
        let w = window_width(d.n_indexer_head_dim, 4);
        let r = window_row(4, pos);
        LayerView {
            index_state_kv: with_row(self.index_state_kv, w, r, kv),
            index_state_score: with_row(self.index_state_score, w, r, sc),
            ..self
        }
    }

    /// The cache with one more compressed row. At ratio 4 the window moves on.
    pub open spec fn with_attn_comp(self, d: Dims, comp: Seq<u32>) -> LayerView {
        let w = d.n_head_dim as int;
        LayerView {
            attn_comp_kv: with_row(self.attn_comp_kv, w, self.n_comp as int, rounded_row(comp, w)),
            n_comp: (self.n_comp + 1) as u32,
            attn_state_kv: if self.compress_ratio == 4 {
                shifted(self.attn_state_kv, 0)
            } else {
                self.attn_state_kv
            },
            attn_state_score: if self.compress_ratio == 4 {
                shifted(self.attn_state_score, NEG_INF_BITS)
            } else {
                self.attn_state_score
            },
            ..self
        }
    }

    /// The cache with one more compressed row of the indexer. The window moves on.
    pub open spec fn with_index_comp(self, d: Dims, comp: Seq<u32>) -> LayerView {
        let w = d.n_indexer_head_dim as int;
        LayerView {
            index_comp_kv: with_row(
                self.index_comp_kv,
                w,
                self.n_index_comp as int,
                rounded_row(comp, w),
            ),
            n_index_comp: (self.n_index_comp + 1) as u32,
            index_state_kv: shifted(self.index_state_kv, 0),
            index_state_score: shifted(self.index_state_score, NEG_INF_BITS),
            ..self
        }
    }

    /// The cache with a token taken in.
    pub open spec fn fed(self, d: Dims, pos: usize, t: TokenRows) -> LayerView {
        let a = self.with_raw(d, t.kv@);
        let b = if self.compress_ratio != 0 {
            a.with_attn_token(d, pos, t.attn_kv@, t.attn_score@)
        } else {
            a
        };
        if self.compress_ratio == 4 {
            b.with_index_token(d, pos, t.index_kv@, t.index_score@)
        } else {
            b
        }
    }

    /// The compressed rows that are due fit.
    pub open spec fn has_room(self, due: Due) -> bool {
        &&& due.attn is Some ==> self.compress_ratio != 0 && self.n_comp < self.comp_cap
        &&& due.index is Some ==> self.compress_ratio == 4 && self.n_index_comp < self.comp_cap
    }

    /// The cache with the compressed rows that were due.
    pub open spec fn taken(
        self,
        d: Dims,
        due: Due,
        attn_row: Seq<u32>,
        index_row: Seq<u32>,
    ) -> LayerView {
        let a = if due.attn is Some {
            self.with_attn_comp(d, attn_row)
        } else {
            self
        };
        if due.index is Some {
            a.with_index_comp(d, index_row)
        } else {
            a
        }
    }

    /// The cache has seen `n` tokens: it holds a row for each of the last ones, and a compressed row
    /// for each window that was closed.
    pub open spec fn has_seen(self, n: nat) -> bool {
        let ratio = self.compress_ratio as int;
        &&& self.n_raw == if n < self.cap_raw {
            n as int
        } else {
            self.cap_raw as int
        }
        &&& ratio != 0 ==> self.n_comp == n as int / ratio
        &&& ratio == 4 ==> self.n_index_comp == n as int / 4
    }

    /// The cache after a prompt of `n_tokens`.
    pub open spec fn finished(self, d: Dims, n_tokens: usize) -> LayerView {
        let ratio = self.compress_ratio;
        let w = window_width(d.n_head_dim, ratio);
        let iw = window_width(d.n_indexer_head_dim, ratio);
        let from = clear_start(ratio, n_tokens);
        if ratio == 0 {
            self
        } else if ratio == 4 {
            LayerView {
                attn_state_kv: cleared(self.attn_state_kv, w, from, 0),
                attn_state_score: cleared(self.attn_state_score, w, from, NEG_INF_BITS),
                index_state_kv: cleared(self.index_state_kv, iw, from, 0),
                index_state_score: cleared(self.index_state_score, iw, from, NEG_INF_BITS),
                ..self
            }
        } else {
            LayerView {
                attn_state_kv: cleared(self.attn_state_kv, w, from, 0),
                attn_state_score: cleared(self.attn_state_score, w, from, NEG_INF_BITS),
                ..self
            }
        }
    }
}

/// The windows of a layer after a prompt, with and without something to clear.
proof fn lemma_finished(c: LayerCache, d: Dims, n_tokens: usize)
    requires
        c@.wf(d),
        c.compress_ratio != 0,
    ensures
        ({
            let v = c@.finished(d, n_tokens);
            let ratio = c.compress_ratio;
            let kv = c.attn_state_kv@;
            let score = c.attn_state_score@;
            if clearable(kv, score, d.n_head_dim, ratio) {
                &&& v.attn_state_kv == freed(kv, d.n_head_dim, ratio, n_tokens, 0)
                &&& v.attn_state_score == freed(score, d.n_head_dim, ratio, n_tokens, NEG_INF_BITS)
            } else {
                v.attn_state_kv == kv && v.attn_state_score == score
            }
        }),
        c.compress_ratio == 4 ==> ({
            let v = c@.finished(d, n_tokens);
            let kv = c.index_state_kv@;
            let score = c.index_state_score@;
            if clearable(kv, score, d.n_indexer_head_dim, 4) {
                &&& v.index_state_kv == freed(kv, d.n_indexer_head_dim, 4, n_tokens, 0)
                &&& v.index_state_score == freed(
                    score,
                    d.n_indexer_head_dim,
                    4,
                    n_tokens,
                    NEG_INF_BITS,
                )
            } else {
                v.index_state_kv == kv && v.index_state_score == score
            }
        }),
{
    let v = c@.finished(d, n_tokens);
    lemma_freed(c.attn_state_kv@, d.n_head_dim, c.compress_ratio, n_tokens, 0);
    lemma_freed(c.attn_state_score@, d.n_head_dim, c.compress_ratio, n_tokens, NEG_INF_BITS);
    if !clearable(c.attn_state_kv@, c.attn_state_score@, d.n_head_dim, c.compress_ratio) {
        assert(v.attn_state_kv =~= c.attn_state_kv@);
        assert(v.attn_state_score =~= c.attn_state_score@);
    }
    if c.compress_ratio == 4 {
        lemma_freed(c.index_state_kv@, d.n_indexer_head_dim, 4, n_tokens, 0);
        lemma_freed(c.index_state_score@, d.n_indexer_head_dim, 4, n_tokens, NEG_INF_BITS);
        if !clearable(c.index_state_kv@, c.index_state_score@, d.n_indexer_head_dim, 4) {
            assert(v.index_state_kv =~= c.index_state_kv@);
            assert(v.index_state_score =~= c.index_state_score@);
        }
    }
}

/// Data whose row `r` was written, and nothing else, is the data with that row.
proof fn lemma_with_row(a: Seq<u32>, b: Seq<u32>, w: int, r: int, src: Seq<u32>)
    requires
        a.len() == b.len(),
        0 <= r * w,
        0 <= w,
        r * w + w <= a.len(),
        b.subrange(r * w, r * w + w) == src,
        forall|i: int| 0 <= i < a.len() && !(r * w <= i < r * w + w) ==> b[i] == a[i],
    ensures
        b == with_row(a, w, r, src),
{
    assert forall|i: int| 0 <= i < b.len() implies #[trigger] b[i] == with_row(a, w, r, src)[i] by {
        if r * w <= i < r * w + w {
            assert(b.subrange(r * w, r * w + w)[i - r * w] == b[i]);
        }
    }
    assert(b =~= with_row(a, w, r, src));
}

/// Push a row at the end of a list of at most `cap` rows; a full list loses its first row.
pub open spec fn slid(list: Seq<Seq<u32>>, cap: int, r: Seq<u32>) -> Seq<Seq<u32>> {
    if list.len() < cap {
        list.push(r)
    } else {
        list.skip(1).push(r)
    }
}

/// Push many rows, one after the other.
pub open spec fn slid_all(list: Seq<Seq<u32>>, cap: int, new: Seq<Seq<u32>>) -> Seq<Seq<u32>>
    decreases new.len(),
{
    if new.len() == 0 {
        list
    } else {
        slid(slid_all(list, cap, new.drop_last()), cap, new.last())
    }
}

/// Pushing a row slides the window of recent rows.
pub proof fn law_push_raw_slides(l: LayerView, d: Dims, kv: Seq<u32>)
    requires
        l.wf(d),
        d.n_head_dim <= kv.len(),
    ensures
        l.with_raw(d, kv).raw_rows(d) == slid(
            l.raw_rows(d),
            l.cap_raw as int,
            rounded_row(kv, d.n_head_dim as int),
        ),
        l.with_raw(d, kv).wf(d),
{
    let w = d.n_head_dim as int;
    let cap = l.cap_raw as int;
    let n = l.n_raw as int;
    let t = l.with_raw(d, kv);
    let r = rounded_row(kv, w);
    let goal = slid(l.raw_rows(d), cap, r);
    if n < cap {
        lemma_row_bounds(n, w, cap);
        assert forall|k: int| 0 <= k < n + 1 implies row(t.raw_kv, w, k) == #[trigger] goal[k] by {
            if k == n {
                assert(row(t.raw_kv, w, k) =~= r);
            } else {
                lemma_row_frame(t.raw_kv, l.raw_kv, w, n, cap, k);
            }
        }
        assert(t.raw_rows(d) =~= goal);
    } else {
        lemma_row_bounds(0, w, cap);
        lemma_row_bounds(cap - 1, w, cap);
        assert(t.raw_kv.len() == l.raw_kv.len());
        assert forall|k: int| 0 <= k < cap implies row(t.raw_kv, w, k) == #[trigger] goal[k] by {
            lemma_row_bounds(k, w, cap);
            if k == cap - 1 {
                assert(row(t.raw_kv, w, k) =~= r);
            } else {
                lemma_row_bounds(k + 1, w, cap);
                lemma_row_bounds(k, w, cap - 1);
                assert(row(t.raw_kv, w, k) =~= row(l.raw_kv, w, k + 1));
                assert(l.raw_rows(d).skip(1)[k] == l.raw_rows(d)[k + 1]);
            }
        }
        assert(t.raw_rows(d) =~= goal);
    }
}

/// The window holds the last rows that were pushed, in their order, as many as fit.
pub proof fn law_window_holds_last(cap: int, new: Seq<Seq<u32>>)
    requires
        cap >= 1,
    ensures
        slid_all(Seq::empty(), cap, new) == if new.len() <= cap {
            new
        } else {
            new.skip(new.len() - cap)
        },
    decreases new.len(),
{
    if new.len() > 0 {
        law_window_holds_last(cap, new.drop_last());
        let before = slid_all(Seq::empty(), cap, new.drop_last());
        if new.len() <= cap {
            assert(before.push(new.last()) =~= new);
        } else if new.len() - 1 == cap {
            assert(before =~= new.drop_last());
            assert(before.skip(1).push(new.last()) =~= new.skip(1));
        } else {
            assert(before.skip(1).push(new.last()) =~= new.skip(new.len() - cap));
        }
    } else {
        assert(slid_all(Seq::empty(), cap, new) =~= new);
    }
}

impl LayerCache {
    /// Make the cache of a layer.
    pub fn new(d: &Dims, ctx_size: usize, il: u32) -> (r: LayerCache)
        requires
            cacheable(*d, ctx_size),
        ensures
            r@ == fresh_layer(*d, ctx_size, il),
            r@.wf(*d),
    {
        let mut raw_cap: usize = d.n_swa as usize;
        if ctx_size < raw_cap {
            raw_cap = ctx_size;
        }
        if raw_cap < 1 {
            raw_cap = 1;
        }
        let ratio: u32 = layer_compress_ratio(il);
        let comp_cap: usize = ctx_size / 4 + 2;
        let head_dim: usize = d.n_head_dim as usize;
        let index_dim: usize = d.n_indexer_head_dim as usize;
        proof {
            assert((comp_cap as u32) as usize <= comp_cap) by (bit_vector);
            lemma_window_size(d.n_head_dim, 4);
            lemma_window_size(d.n_head_dim, 128);
            lemma_window_size(d.n_indexer_head_dim, 4);
            assert(comp_cap as u32 * d.n_head_dim <= comp_cap * d.n_head_dim)
                by (nonlinear_arith)
                requires
                    (comp_cap as u32) <= comp_cap,
            ;
            assert(comp_cap as u32 * d.n_indexer_head_dim <= comp_cap * d.n_indexer_head_dim)
                by (nonlinear_arith)
                requires
                    (comp_cap as u32) <= comp_cap,
            ;
        }
        let attn_comp_kv: Vec<u32> = if ratio != 0 {
            fill(comp_cap * head_dim, 0)
        } else {
            Vec::new()
        };
        let attn_state_score: Vec<u32> = if ratio != 0 {
            make_scores(d.n_head_dim, ratio)
        } else {
            Vec::new()
        };
        let attn_state_kv: Vec<u32> = fill(attn_state_score.len(), 0);
        let index_comp_kv: Vec<u32> = if ratio == 4 {
            fill(comp_cap * index_dim, 0)
        } else {
            Vec::new()
        };
        let index_state_score: Vec<u32> = if ratio == 4 {
            make_scores(d.n_indexer_head_dim, ratio)
        } else {
            Vec::new()
        };
        let index_state_kv: Vec<u32> = fill(index_state_score.len(), 0);
        let r = LayerCache {
            raw_kv: fill(raw_cap * head_dim, 0),
            n_raw: 0,
            cap_raw: raw_cap as u32,
            compress_ratio: ratio,
            attn_comp_kv,
            n_comp: 0,
            comp_cap: comp_cap as u32,
            attn_state_kv,
            attn_state_score,
            index_comp_kv,
            n_index_comp: 0,
            index_state_kv,
            index_state_score,
        };
        assert(r@ =~= fresh_layer(*d, ctx_size, il));
        r
    }

    /// Push the row of a token.
    pub fn push_raw(&mut self, d: &Dims, kv: &[u32])
        requires
            old(self)@.wf(*d),
            d.n_head_dim <= kv@.len(),
        ensures
            final(self)@ == old(self)@.with_raw(*d, kv@),
            final(self)@.wf(*d),
    {
        let w: usize = d.n_head_dim as usize;
        proof {
            law_push_raw_slides(self@, *d, kv@);
        }
        if self.n_raw < self.cap_raw {
            proof {
                lemma_row_bounds(self.n_raw as int, w as int, self.cap_raw as int);
            }
            let at: usize = self.n_raw as usize * w;
            write_rounded(&mut self.raw_kv, at, kv, w);
            self.n_raw = self.n_raw + 1;
            proof {
                lemma_with_row(
                    old(self).raw_kv@,
                    self.raw_kv@,
                    w as int,
                    old(self).n_raw as int,
                    rounded_row(kv@, w as int),
                );
            }
        } else {
            proof {
                lemma_row_bounds(self.cap_raw - 1, w as int, self.cap_raw as int);
            }
            let at: usize = (self.cap_raw as usize - 1) * w;
            let mut i: usize = 0;
            while i < at
                invariant
                    i <= at,
                    self.raw_kv@.len() == at + w,
                    at + w <= usize::MAX,
                    self.raw_kv@.len() == old(self).raw_kv@.len(),
                    forall|k: int| 0 <= k < i ==> self.raw_kv@[k] == old(self).raw_kv@[k + w],
                    forall|k: int| i <= k < at + w ==> self.raw_kv@[k] == old(self).raw_kv@[k],
                    self@ =~= (LayerView { raw_kv: self.raw_kv@, ..old(self)@ }),
                decreases at - i,
            {
                let v: u32 = self.raw_kv[i + w];
                self.raw_kv.set(i, v);
                i = i + 1;
            }
            write_rounded(&mut self.raw_kv, at, kv, w);
            proof {
                let r = rounded_row(kv@, w as int);
                let goal = old(self).raw_kv@.skip(w as int) + r;
                assert forall|k: int| 0 <= k < self.raw_kv@.len() implies #[trigger] self.raw_kv@[k]
                    == goal[k] by {
                    if at <= k {
                        assert(self.raw_kv@.subrange(at as int, at + w)[k - at] == r[k - at]);
                    }
                }
                assert(self.raw_kv@ =~= goal);
            }
        }
        assert(self@ =~= old(self)@.with_raw(*d, kv@));
    }

    /// Put the row of a token in its slot.
    pub fn store_raw(&mut self, d: &Dims, slot: usize, kv: &[u32])
        requires
            old(self)@.wf(*d),
            slot < old(self).cap_raw,
            d.n_head_dim <= kv@.len(),
        ensures
            final(self)@ == old(self)@.with_raw_at(*d, slot as int, kv@),
            final(self)@.wf(*d),
    {
        let w: usize = d.n_head_dim as usize;
        proof {
            lemma_row_bounds(slot as int, w as int, self.cap_raw as int);
        }
        let at: usize = slot * w;
        write_rounded(&mut self.raw_kv, at, kv, w);
        proof {
            lemma_with_row(
                old(self).raw_kv@,
                self.raw_kv@,
                w as int,
                slot as int,
                rounded_row(kv@, w as int),
            );
        }
        assert(self@ =~= old(self)@.with_raw_at(*d, slot as int, kv@));
    }

    /// Clear the windows that the prompt left partly filled.
    pub fn finish_prefill_states(&mut self, d: &Dims, n_tokens: usize)
        requires
            old(self)@.wf(*d),
        ensures
            final(self)@ == old(self)@.finished(*d, n_tokens),
            final(self)@.wf(*d),
    {
        let ratio: u32 = self.compress_ratio;
        if ratio == 0 {
            return;
        }
        proof {
            lemma_finished(*old(self), *d, n_tokens);
        }
        compressor_finish_prefill_state(
            &mut self.attn_state_kv,
            &mut self.attn_state_score,
            d.n_head_dim,
            ratio,
            n_tokens,
        );
        if ratio == 4 {
            compressor_finish_prefill_state(
                &mut self.index_state_kv,
                &mut self.index_state_score,
                d.n_indexer_head_dim,
                ratio,
                n_tokens,
            );
        }
        assert(self@ =~= old(self)@.finished(*d, n_tokens));
    }

    /// Hand the compressor the projections of a token. The step that comes back says whether a
    /// compressed row is due.
    pub fn feed_attn(&mut self, d: &Dims, pos: usize, kv_cur: &[u32], sc_cur: &[u32]) -> (s:
        CompressorStep)
        requires
            old(self)@.wf(*d),
            old(self).compress_ratio != 0,
            pos < usize::MAX,
            kv_cur@.len() == window_width(d.n_head_dim, old(self).compress_ratio),
            sc_cur@.len() == window_width(d.n_head_dim, old(self).compress_ratio),
        ensures
            final(self)@ == old(self)@.with_attn_token(*d, pos, kv_cur@, sc_cur@),
            final(self)@.wf(*d),
            s.emit == closes_window(old(self).compress_ratio, pos),
            s.emit ==> s.comp_pos == pos + 1 - old(self).compress_ratio,
            s.row == window_row(old(self).compress_ratio, pos),
    {
        let ratio: u32 = self.compress_ratio;
        compressor_store(
            &mut self.attn_state_kv,
            &mut self.attn_state_score,
            kv_cur,
            sc_cur,
            d.n_head_dim,
            ratio,
            pos,
        );
        assert(self@ =~= old(self)@.with_attn_token(*d, pos, kv_cur@, sc_cur@));
        compressor_step(ratio, pos)
    }

    /// Hand the indexer's compressor the projections of a token.
    pub fn feed_index(&mut self, d: &Dims, pos: usize, kv_cur: &[u32], sc_cur: &[u32]) -> (s:
        CompressorStep)
        requires
            old(self)@.wf(*d),
            old(self).compress_ratio == 4,
            pos < usize::MAX,
            kv_cur@.len() == window_width(d.n_indexer_head_dim, 4),
            sc_cur@.len() == window_width(d.n_indexer_head_dim, 4),
        ensures
            final(self)@ == old(self)@.with_index_token(*d, pos, kv_cur@, sc_cur@),
            final(self)@.wf(*d),
            s.emit == closes_window(4, pos),
            s.emit ==> s.comp_pos == pos + 1 - 4,
            s.row == window_row(4, pos),
    {
        compressor_store(
            &mut self.index_state_kv,
            &mut self.index_state_score,
            kv_cur,
            sc_cur,
            d.n_indexer_head_dim,
            4,
            pos,
        );
        assert(self@ =~= old(self)@.with_index_token(*d, pos, kv_cur@, sc_cur@));
        compressor_step(4, pos)
    }

    /// Take the compressed row of a window that was closed, and start the next window.
    pub fn emit_attn(&mut self, d: &Dims, comp: &[u32])
        requires
            old(self)@.wf(*d),
            old(self).compress_ratio != 0,
            old(self).n_comp < old(self).comp_cap,
            d.n_head_dim <= comp@.len(),
        ensures
            final(self)@ == old(self)@.with_attn_comp(*d, comp@),
            final(self)@.wf(*d),
    {
        proof {
            lemma_row_bounds(self.n_comp as int, d.n_head_dim as int, self.comp_cap as int);
        }
        let cap: u32 = self.comp_cap;
        KvCache::push_comp(
            &mut self.attn_comp_kv,
            &mut self.n_comp,
            cap,
            d.n_head_dim as usize,
            comp,
        );
        if self.compress_ratio == 4 {
            compressor_shift(&mut self.attn_state_kv, &mut self.attn_state_score, d.n_head_dim);
        }
        assert(self@ =~= old(self)@.with_attn_comp(*d, comp@));
    }

    /// Take the compressed row of the indexer for a window that was closed, and start the next
    /// window.
    pub fn emit_index(&mut self, d: &Dims, comp: &[u32])
        requires
            old(self)@.wf(*d),
            old(self).compress_ratio == 4,
            old(self).n_index_comp < old(self).comp_cap,
            d.n_indexer_head_dim <= comp@.len(),
        ensures
            final(self)@ == old(self)@.with_index_comp(*d, comp@),
            final(self)@.wf(*d),
    {
        proof {
            lemma_row_bounds(
                self.n_index_comp as int,
                d.n_indexer_head_dim as int,
                self.comp_cap as int,
            );
        }
        let cap: u32 = self.comp_cap;
        KvCache::push_comp(
            &mut self.index_comp_kv,
            &mut self.n_index_comp,
            cap,
            d.n_indexer_head_dim as usize,
            comp,
        );
        compressor_shift(
            &mut self.index_state_kv,
            &mut self.index_state_score,
            d.n_indexer_head_dim,
        );
        assert(self@ =~= old(self)@.with_index_comp(*d, comp@));
    }

    /// Plan what the layer needs of the token at a position.
    pub fn plan_token(&self, d: &Dims, pos: usize) -> (r: TokenPlan)
        requires
            self@.wf(*d),
        ensures
            r == plan_at(*d, self.compress_ratio, pos),
    {
        let ratio: u32 = self.compress_ratio;
        if ratio == 0 {
            return TokenPlan { attn: None, index: None, attention: Attention::Recent };
        }
        assert(self.attn_state_kv.len() <= usize::MAX && self.index_state_kv.len() <= usize::MAX);
        let place: usize = pos % ratio as usize;
        proof {
            lemma_window_size(d.n_head_dim, ratio);
        }
        if ratio == 4 {
            proof {
                lemma_window_size(d.n_indexer_head_dim, 4);
            }
            let width: usize = 2 * d.n_head_dim as usize;
            let index_width: usize = 2 * d.n_indexer_head_dim as usize;
            return TokenPlan {
                attn: Some(Projection { width, place }),
                index: Some(Projection { width: index_width, place }),
                attention: Attention::Chosen,
            };
        }
        TokenPlan {
            attn: Some(Projection { width: d.n_head_dim as usize, place }),
            index: None,
            attention: Attention::Compressed,
        }
    }

    /// Take in a token: its row goes to the recent rows, and its projections to the windows. What
    /// comes back says which compressed rows are due.
    pub fn feed_token(&mut self, d: &Dims, pos: usize, t: &TokenRows) -> (due: Due)
        requires
            old(self)@.wf(*d),
            pos < usize::MAX,
            t.fits(*d, old(self).compress_ratio),
        ensures
            final(self)@ == old(self)@.fed(*d, pos, *t),
            final(self)@.wf(*d),
            due == due_at(old(self).compress_ratio, pos),
    {
        let ratio: u32 = self.compress_ratio;
        self.push_raw(d, t.kv.as_slice());
        if ratio == 0 {
            return Due { attn: None, index: None };
        }
        let s = self.feed_attn(d, pos, t.attn_kv.as_slice(), t.attn_score.as_slice());
        let attn: Option<usize> = if s.emit {
            Some(s.comp_pos)
        } else {
            None
        };
        if ratio != 4 {
            return Due { attn, index: None };
        }
        let s = self.feed_index(d, pos, t.index_kv.as_slice(), t.index_score.as_slice());
        let index: Option<usize> = if s.emit {
            Some(s.comp_pos)
        } else {
            None
        };
        Due { attn, index }
    }

    /// Take in the compressed rows that were due.
    pub fn take_rows(&mut self, d: &Dims, due: &Due, attn_row: &[u32], index_row: &[u32])
        requires
            old(self)@.wf(*d),
            old(self)@.has_room(*due),
            due.attn is Some ==> d.n_head_dim <= attn_row@.len(),
            due.index is Some ==> d.n_indexer_head_dim <= index_row@.len(),
        ensures
            final(self)@ == old(self)@.taken(*d, *due, attn_row@, index_row@),
            final(self)@.wf(*d),
    {
        if due.attn.is_some() {
            self.emit_attn(d, attn_row);
        }
        if due.index.is_some() {
            self.emit_index(d, index_row);
        }
    }

    /// Copy the cache.
    pub fn duplicate(&self) -> (r: LayerCache)
        ensures
            r@ == self@,
    {
        let r = LayerCache {
            raw_kv: self.raw_kv.clone(),
            n_raw: self.n_raw,
            cap_raw: self.cap_raw,
            compress_ratio: self.compress_ratio,
            attn_comp_kv: self.attn_comp_kv.clone(),
            n_comp: self.n_comp,
            comp_cap: self.comp_cap,
            attn_state_kv: self.attn_state_kv.clone(),
            attn_state_score: self.attn_state_score.clone(),
            index_comp_kv: self.index_comp_kv.clone(),
            n_index_comp: self.n_index_comp,
            index_state_kv: self.index_state_kv.clone(),
            index_state_score: self.index_state_score.clone(),
        };
        assert(r@ =~= self@);
        r
    }
}

/// The caches of all layers.
#[derive(Debug)]
pub struct KvCache {
    /// One cache per layer.
    pub layers: Vec<LayerCache>,
    /// The context that the caches were made for.
    pub ctx_size: usize,
    /// How many rows of recent tokens each layer keeps.
    pub raw_cap: usize,
    /// The sizes of the model.
    pub dims: Dims,
}

/// The caches of all layers before the first token.
pub open spec fn fresh_layers(d: Dims, ctx_size: usize) -> Seq<LayerView> {
    Seq::new(d.n_layer as nat, |il: int| fresh_layer(d, ctx_size, il as u32))
}

impl KvCache {
    /// What the layers hold.
    pub open spec fn views(&self) -> Seq<LayerView> {
        Seq::new(self.layers@.len(), |i: int| self.layers@[i]@)
    }

    /// Every layer is there and fits the sizes of the model.
    pub open spec fn wf(&self) -> bool {
        &&& cacheable(self.dims, self.ctx_size)
        &&& self.raw_cap == raw_capacity(self.dims, self.ctx_size)
        &&& self.layers@.len() == self.dims.n_layer
        &&& forall|i: int|
            0 <= i < self.layers@.len() ==> (#[trigger] self.layers@[i])@.wf(self.dims)
                && self.layers@[i].cap_raw == self.raw_cap
    }

    /// The two caches were made for the same model and context.
    pub open spec fn same_frame(&self, other: &KvCache) -> bool {
        &&& self.ctx_size == other.ctx_size
        &&& self.raw_cap == other.raw_cap
        &&& self.dims == other.dims
    }

    /// Make the caches of all layers.
    pub fn new(d: &Dims, ctx_size: usize) -> (r: KvCache)
        requires
            cacheable(*d, ctx_size),
        ensures
            r.wf(),
            r.dims == *d,
            r.ctx_size == ctx_size,
            r.views() == fresh_layers(*d, ctx_size),
    {
        let mut raw_cap: usize = d.n_swa as usize;
        if ctx_size < raw_cap {
            raw_cap = ctx_size;
        }
        if raw_cap < 1 {
            raw_cap = 1;
        }
        let mut layers: Vec<LayerCache> = Vec::new();
        let mut il: u32 = 0;
        while il < d.n_layer
            invariant
                il <= d.n_layer,
                layers@.len() == il,
                cacheable(*d, ctx_size),
                raw_cap == raw_capacity(*d, ctx_size),
                forall|i: int|
                    0 <= i < il ==> (#[trigger] layers@[i])@ == fresh_layer(
                        *d,
                        ctx_size,
                        i as u32,
                    ) && layers@[i]@.wf(*d),
            decreases d.n_layer - il,
        {
            let l = LayerCache::new(d, ctx_size, il);
            layers.push(l);
            il = il + 1;
        }
        let r = KvCache { layers, ctx_size, raw_cap, dims: *d };
        assert(r.views() =~= fresh_layers(*d, ctx_size));
        r
    }

    /// Push the row of a token to the recent rows of a layer.
    pub fn push_raw(&mut self, il: usize, kv: &[u32])
        requires
            old(self).wf(),
            il < old(self).layers@.len(),
            old(self).dims.n_head_dim <= kv@.len(),
        ensures
            final(self).wf(),
            final(self).same_frame(old(self)),
            final(self).views() == old(self).views().update(
                il as int,
                old(self).views()[il as int].with_raw(old(self).dims, kv@),
            ),
    {
        let d: Dims = self.dims;
        self.layers[il].push_raw(&d, kv);
        assert(self.views() =~= old(self).views().update(
            il as int,
            old(self).views()[il as int].with_raw(old(self).dims, kv@),
        ));
    }

    /// Push a compressed row behind the others.
    pub fn push_comp(
        rows: &mut Vec<u32>,
        n_rows: &mut u32,
        cap_rows: u32,
        row_dim: usize,
        kv: &[u32],
    )
        requires
            *old(n_rows) < cap_rows,
            cap_rows * row_dim <= old(rows)@.len(),
            row_dim <= kv@.len(),
        ensures
            *final(n_rows) == *old(n_rows) + 1,
            final(rows)@ == with_row(
                old(rows)@,
                row_dim as int,
                *old(n_rows) as int,
                rounded_row(kv@, row_dim as int),
            ),
    {
        assert(rows.len() <= usize::MAX);
        let ghost n = *n_rows as int;
        proof {
            lemma_row_bounds(n, row_dim as int, cap_rows as int);
        }
        let at: usize = *n_rows as usize * row_dim;
        write_rounded(rows, at, kv, row_dim);
        *n_rows = *n_rows + 1;
        proof {
            lemma_with_row(
                old(rows)@,
                rows@,
                row_dim as int,
                n,
                rounded_row(kv@, row_dim as int),
            );
        }
    }

    /// Put the row of a position in its slot of a layer. Positions share slots round the window.
    pub fn store_raw_kv(&mut self, il: usize, pos: usize, kv: &[u32])
        requires
            old(self).wf(),
            il < old(self).layers@.len(),
            old(self).dims.n_head_dim <= kv@.len(),
        ensures
            final(self).wf(),
            final(self).same_frame(old(self)),
            final(self).views() == old(self).views().update(
                il as int,
                old(self).views()[il as int].with_raw_at(
                    old(self).dims,
                    pos as int % old(self).raw_cap as int,
                    kv@,
                ),
            ),
    {
        let d: Dims = self.dims;
        let slot: usize = pos % self.raw_cap;
        self.layers[il].store_raw(&d, slot, kv);
        assert(self.views() =~= old(self).views().update(
            il as int,
            old(self).views()[il as int].with_raw_at(old(self).dims, slot as int, kv@),
        ));
    }

    /// Read the row in the slot of a position.
    pub fn read_raw_kv(&self, il: usize, pos: usize) -> (r: &[u32])
        requires
            self.wf(),
            il < self.layers@.len(),
        ensures
            r@ == row(
                self.views()[il as int].raw_kv,
                self.dims.n_head_dim as int,
                pos as int % self.raw_cap as int,
            ),
    {
        let w: usize = self.dims.n_head_dim as usize;
        let slot: usize = pos % self.raw_cap;
        let layer = &self.layers[il];
        proof {
            lemma_row_bounds(slot as int, w as int, layer.cap_raw as int);
        }
        slice_subrange(layer.raw_kv.as_slice(), slot * w, slot * w + w)
    }

    /// Clear the windows that a prompt left partly filled, in every layer.
    pub fn finish_prefill_states(&mut self, n_tokens: usize)
        requires
            old(self).wf(),
        ensures
            final(self).wf(),
            final(self).same_frame(old(self)),
            final(self).views() == Seq::new(
                old(self).views().len(),
                |i: int| old(self).views()[i].finished(old(self).dims, n_tokens),
            ),
    {
        let d: Dims = self.dims;
        let n: usize = self.layers.len();
        let mut il: usize = 0;
        while il < n
            invariant
                il <= n,
                n == self.layers@.len(),
                d == self.dims,
                old(self).wf(),
                self.wf(),
                self.same_frame(old(self)),
                self.layers@.len() == old(self).layers@.len(),
                forall|i: int|
                    0 <= i < il ==> (#[trigger] self.layers@[i])@ == old(self).layers@[i]@.finished(
                        d,
                        n_tokens,
                    ),
                forall|i: int| il <= i < n ==> (#[trigger] self.layers@[i]) == old(self).layers@[i],
            decreases n - il,
        {
            self.layers[il].finish_prefill_states(&d, n_tokens);
            il = il + 1;
        }
        assert(self.views() =~= Seq::new(
            old(self).views().len(),
            |i: int| old(self).views()[i].finished(old(self).dims, n_tokens),
        ));
    }

    /// Copy the caches of the first layers.
    pub fn checkpoint_layers(&self, n: usize) -> (r: Vec<LayerCache>)
        requires
            self.wf(),
        ensures
            layer_views(r@) == first_layers(self.views(), n),
            r@.len() <= self.layers@.len(),
    {
        let mut r: Vec<LayerCache> = Vec::new();
        let mut i: usize = 0;
        while i < n && i < self.layers.len()
            invariant
                i <= n,
                i <= self.layers@.len(),
                r@.len() == i,
                forall|k: int| 0 <= k < i ==> (#[trigger] r@[k])@ == self.layers@[k]@,
            decreases n - i,
        {
            r.push(self.layers[i].duplicate());
            i = i + 1;
        }
        assert(layer_views(r@) =~= first_layers(self.views(), n));
        r
    }

    /// Put back the caches that a checkpoint holds.
    pub fn restore_layers(&mut self, ckpt: &Vec<LayerCache>)
        requires
            old(self).wf(),
            ckpt@.len() <= old(self).layers@.len(),
            forall|i: int|
                0 <= i < ckpt@.len() ==> (#[trigger] ckpt@[i])@.wf(old(self).dims)
                    && ckpt@[i].cap_raw == old(self).raw_cap,
        ensures
            final(self).wf(),
            final(self).same_frame(old(self)),
            final(self).views() == put_back(old(self).views(), layer_views(ckpt@)),
    {
        let mut i: usize = 0;
        while i < ckpt.len()
            invariant
                i <= ckpt@.len() <= self.layers@.len(),
                self.wf(),
                self.same_frame(old(self)),
                self.layers@.len() == old(self).layers@.len(),
                forall|k: int|
                    0 <= k < ckpt@.len() ==> (#[trigger] ckpt@[k])@.wf(self.dims)
                        && ckpt@[k].cap_raw == self.raw_cap,
                forall|k: int| 0 <= k < i ==> (#[trigger] self.layers@[k])@ == ckpt@[k]@,
                forall|k: int|
                    i <= k < self.layers@.len() ==> (#[trigger] self.layers@[k]) == old(
                        self,
                    ).layers@[k],
            decreases ckpt@.len() - i,
        {
            let l = ckpt[i].duplicate();
            assert(l@ == ckpt@[i as int]@);
            assert(l.cap_raw == l@.cap_raw);
            self.layers.set(i, l);
            i = i + 1;
        }
        assert(self.views() =~= put_back(old(self).views(), layer_views(ckpt@)));
    }
}

/// The first `n` layers, or all of them.
pub open spec fn first_layers(layers: Seq<LayerView>, n: usize) -> Seq<LayerView> {
    if n <= layers.len() {
        layers.take(n as int)
    } else {
        layers
    }
}

/// Layers with the first ones replaced by those of a checkpoint.
pub open spec fn put_back(layers: Seq<LayerView>, ckpt: Seq<LayerView>) -> Seq<LayerView> {
    Seq::new(
        layers.len(),
        |i: int|
            if i < ckpt.len() {
                ckpt[i]
            } else {
                layers[i]
            },
    )
}

/// The views of the caches of a checkpoint.
pub open spec fn layer_views(layers: Seq<LayerCache>) -> Seq<LayerView> {
    Seq::new(layers.len(), |i: int| layers[i]@)
}

/// Putting back a checkpoint of the first `n` layers undoes whatever happened to them since: if the
/// other layers did not change, every cache is as it was.
pub proof fn law_restore_undoes(before: Seq<LayerView>, changed: Seq<LayerView>, n: usize)
    requires
        changed.len() == before.len(),
        forall|i: int| n <= i < before.len() ==> changed[i] == before[i],
    ensures
        put_back(changed, first_layers(before, n)) == before,
{
    assert(put_back(changed, first_layers(before, n)) =~= before);
}

/// What is stored for a position is read back, rounded to half precision, and so it is at every
/// position that shares the slot; the other slots keep their rows.
pub proof fn law_store_then_read(l: LayerView, d: Dims, slot: int, other: int, kv: Seq<u32>)
    requires
        l.wf(d),
        0 <= slot < l.cap_raw,
        0 <= other < l.cap_raw,
        d.n_head_dim <= kv.len(),
    ensures
        ({
            let w = d.n_head_dim as int;
            let t = l.with_raw_at(d, slot, kv);
            &&& row(t.raw_kv, w, slot) == rounded_row(kv, w)
            &&& other != slot ==> row(t.raw_kv, w, other) == row(l.raw_kv, w, other)
        }),
{
    let w = d.n_head_dim as int;
    let t = l.with_raw_at(d, slot, kv);
    lemma_row_bounds(slot, w, l.cap_raw as int);
    assert(row(t.raw_kv, w, slot) =~= rounded_row(kv, w));
    if other != slot {
        lemma_row_frame(t.raw_kv, l.raw_kv, w, slot, l.cap_raw as int, other);
    }
}

/// A context never asks for more compressed rows than fit: while the positions stay within it, the
/// row that closes a window finds room.
pub proof fn law_compressed_rows_fit(ratio: u32, ctx_size: usize, pos: usize)
    requires
        ratio == 4 || ratio == 128,
        pos < ctx_size,
    ensures
        pos as int / ratio as int + 1 <= comp_capacity(ctx_size),
        (pos + 1) / ratio as int == pos as int / ratio as int + if closes_window(ratio, pos) {
            1int
        } else {
            0int
        },
{
}

/// Feeding the tokens of a context in order never overflows a cache: a fresh cache has seen no
/// token, and each token finds room for the compressed rows that it makes due and leaves the cache
/// with one token more seen.
pub proof fn law_tokens_are_counted(
    l: LayerView,
    d: Dims,
    ctx_size: usize,
    il: u32,
    pos: usize,
    t: TokenRows,
    attn_row: Seq<u32>,
    index_row: Seq<u32>,
)
    requires
        cacheable(d, ctx_size),
        comp_capacity(ctx_size) <= u32::MAX,
        pos < ctx_size,
        l.wf(d),
        l.compress_ratio == compress_ratio(il),
        l.comp_cap == comp_capacity(ctx_size),
        l.has_seen(pos as nat),
        t.fits(d, l.compress_ratio),
        d.n_head_dim <= attn_row.len(),
        d.n_indexer_head_dim <= index_row.len(),
    ensures
        fresh_layer(d, ctx_size, il).has_seen(0),
        fresh_layer(d, ctx_size, il).comp_cap == comp_capacity(ctx_size),
        ({
            let due = due_at(l.compress_ratio, pos);
            let after = l.fed(d, pos, t).taken(d, due, attn_row, index_row);
            &&& l.fed(d, pos, t).has_room(due)
            &&& after.has_seen((pos + 1) as nat)
            &&& after.compress_ratio == l.compress_ratio
            &&& after.comp_cap == l.comp_cap
        }),
{
    let ratio = l.compress_ratio;
    if ratio != 0 {
        law_compressed_rows_fit(ratio, ctx_size, pos);
    }
}

} // verus!

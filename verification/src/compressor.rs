//! The streaming compressor: a window of rows that is filled token by token, pooled when it is full,
//! and started over.
//!
//! All floats are bit patterns. Rows of a fixed width stand one behind the other.
use crate::half::{f16_to_f32, f32_to_f16, half_rounded, NEG_INF_BITS};
use vstd::arithmetic::div_mod::lemma_fundamental_div_mod_converse;
use vstd::prelude::*;

verus! {

// Rows

/// Row `r` of rows of width `w`.
pub open spec fn row(data: Seq<u32>, w: int, r: int) -> Seq<u32> {
    data.subrange(r * w, r * w + w)
}

/// The first `n` rows of width `w`.
pub open spec fn rows(data: Seq<u32>, w: int, n: int) -> Seq<Seq<u32>> {
    Seq::new(n as nat, |r: int| row(data, w, r))
}

/// A row rounded to half precision.
pub open spec fn rounded_row(kv: Seq<u32>, w: int) -> Seq<u32> {
    Seq::new(w as nat, |i: int| half_rounded(kv[i]))
}

pub(crate) proof fn lemma_row_bounds(r: int, w: int, n: int)
    requires
        0 <= r < n,
        0 <= w,
    ensures
        0 <= r * w,
        r * w + w <= n * w,
        (r + 1) * w == r * w + w,
{
    assert(0 <= r * w) by (nonlinear_arith)
        requires
            0 <= r,
            0 <= w,
    ;
    assert(r * w + w <= n * w) by (nonlinear_arith)
        requires
            r < n,
            0 <= w,
    ;
    assert((r + 1) * w == r * w + w) by (nonlinear_arith);
}

/// Rows do not overlap: what is written in row `r` leaves the others alone.
pub(crate) proof fn lemma_row_frame(a: Seq<u32>, b: Seq<u32>, w: int, r: int, n: int, k: int)
    requires
        0 <= w,
        0 <= r < n,
        0 <= k < n,
        k != r,
        a.len() == b.len(),
        n * w <= a.len(),
        forall|i: int| 0 <= i < a.len() && !(r * w <= i < r * w + w) ==> a[i] == b[i],
    ensures
        row(a, w, k) == row(b, w, k),
{
    lemma_row_bounds(r, w, n);
    lemma_row_bounds(k, w, n);
    if k < r {
        lemma_row_bounds(k, w, r);
    } else {
        lemma_row_bounds(r, w, k);
    }
    assert(row(a, w, k) =~= row(b, w, k));
}

/// Copy a row, rounded to half precision, to `at`.
pub(crate) fn write_rounded(data: &mut Vec<u32>, at: usize, kv: &[u32], w: usize)
    requires
        at + w <= old(data)@.len(),
        w <= kv@.len(),
    ensures
        final(data)@.len() == old(data)@.len(),
        final(data)@.subrange(at as int, at + w) == rounded_row(kv@, w as int),
        forall|i: int|
            0 <= i < old(data)@.len() && !(at <= i < at + w) ==> final(data)@[i] == old(data)@[i],
{
    assert(data.len() <= usize::MAX);
    let mut i: usize = 0;
    while i < w
        invariant
            i <= w,
            at + w <= data@.len(),
            at + w <= usize::MAX,
            w <= kv@.len(),
            data@.len() == old(data)@.len(),
            forall|k: int| 0 <= k < i ==> data@[at + k] == half_rounded(kv@[k]),
            forall|k: int|
                0 <= k < data@.len() && !(at <= k < at + i) ==> data@[k] == old(data)@[k],
        decreases w - i,
    {
        let v: u32 = f16_to_f32(f32_to_f16(kv[i]));
        let p: usize = at + i;
        data.set(p, v);
        i = i + 1;
    }
    assert(data@.subrange(at as int, at + w) =~= rounded_row(kv@, w as int));
}

/// Copy a row to `at`.
pub(crate) fn write_row(data: &mut Vec<u32>, at: usize, src: &[u32], w: usize)
    requires
        at + w <= old(data)@.len(),
        w <= src@.len(),
    ensures
        final(data)@.len() == old(data)@.len(),
        final(data)@.subrange(at as int, at + w) == src@.take(w as int),
        forall|i: int|
            0 <= i < old(data)@.len() && !(at <= i < at + w) ==> final(data)@[i] == old(data)@[i],
{
    assert(data.len() <= usize::MAX);
    let mut i: usize = 0;
    while i < w
        invariant
            i <= w,
            at + w <= data@.len(),
            at + w <= usize::MAX,
            w <= src@.len(),
            data@.len() == old(data)@.len(),
            forall|k: int| 0 <= k < i ==> data@[at + k] == src@[k],
            forall|k: int|
                0 <= k < data@.len() && !(at <= k < at + i) ==> data@[k] == old(data)@[k],
        decreases w - i,
    {
        let p: usize = at + i;
        data.set(p, src[i]);
        i = i + 1;
    }
    assert(data@.subrange(at as int, at + w) =~= src@.take(w as int));
}

/// `n` copies of a value.
pub open spec fn filled(n: nat, v: u32) -> Seq<u32> {
    Seq::new(n, |i: int| v)
}

pub(crate) fn fill(n: usize, v: u32) -> (r: Vec<u32>)
    ensures
        r@ == filled(n as nat, v),
{
    let mut r: Vec<u32> = Vec::new();
    let mut i: usize = 0;
    while i < n
        invariant
            i <= n,
            r@ =~= filled(i as nat, v),
        decreases n - i,
    {
        r.push(v);
        i = i + 1;
    }
    r
}

/// Set `data[from..to]` to a value.
fn fill_range(data: &mut Vec<u32>, from: usize, to: usize, v: u32)
    requires
        from <= to <= old(data)@.len(),
    ensures
        final(data)@ == Seq::new(
            old(data)@.len(),
            |i: int|
                if from <= i < to {
                    v
                } else {
                    old(data)@[i]
                },
        ),
{
    let mut i: usize = from;
    while i < to
        invariant
            from <= i <= to <= data@.len(),
            data@.len() == old(data)@.len(),
            forall|k: int| from <= k < i ==> data@[k] == v,
            forall|k: int|
                0 <= k < data@.len() && !(from <= k < i) ==> data@[k] == old(data)@[k],
        decreases to - i,
    {
        data.set(i, v);
        i = i + 1;
    }
    assert(data@ =~= Seq::new(
        old(data)@.len(),
        |i: int|
            if from <= i < to {
                v
            } else {
                old(data)@[i]
            },
    ));
}

// The compressor's window

/// How many heads wide a row of the window is: two lanes at ratio 4, one otherwise.
pub open spec fn lanes(ratio: u32) -> int {
    if ratio == 4 {
        2
    } else {
        1
    }
}

/// The rows of the window: at ratio 4 the window before and the current one.
pub open spec fn window_rows(ratio: u32) -> int {
    if ratio == 4 {
        8
    } else {
        ratio as int
    }
}

/// The width of a row of the window.
pub open spec fn window_width(head_dim: u32, ratio: u32) -> int {
    lanes(ratio) * head_dim
}

/// The size of the window.
pub open spec fn window_len(head_dim: u32, ratio: u32) -> int {
    if ratio == 0 {
        0
    } else {
        window_rows(ratio) * window_width(head_dim, ratio)
    }
}

/// The scores of a window before the first token: nothing counts, but at ratio 4 the first lane of
/// the rows that stand for the window before starts at zero.
pub open spec fn fresh_scores(head_dim: u32, ratio: u32) -> Seq<u32> {
    let w = window_width(head_dim, ratio);
    Seq::new(
        window_len(head_dim, ratio) as nat,
        |i: int|
            if ratio == 4 && i / w < 4 && i % w < head_dim {
                0u32
            } else {
                NEG_INF_BITS
            },
    )
}

pub(crate) proof fn lemma_window_size(head_dim: u32, ratio: u32)
    requires
        ratio > 0,
    ensures
        0 <= window_width(head_dim, ratio) <= window_len(head_dim, ratio),
        window_len(head_dim, ratio) == window_rows(ratio) * window_width(head_dim, ratio),
        ratio == 4 ==> window_width(head_dim, ratio) == 2 * head_dim && window_len(head_dim, ratio)
            == 16 * head_dim,
{
    let w = window_width(head_dim, ratio);
    let n = window_rows(ratio);
    assert(w == if ratio == 4 {
        2 * head_dim as int
    } else {
        head_dim as int
    }) by {
        assert(lanes(ratio) * head_dim == if lanes(ratio) == 2 {
            2 * head_dim as int
        } else {
            head_dim as int
        }) by (nonlinear_arith)
            requires
                lanes(ratio) == 2 || lanes(ratio) == 1,
        ;
    }
    assert(w <= n * w) by (nonlinear_arith)
        requires
            n >= 1,
            w >= 0,
    ;
    assert(n == 8 ==> n * w == 8 * w) by (nonlinear_arith);
}

pub(crate) fn make_scores(head_dim: u32, ratio: u32) -> (r: Vec<u32>)
    requires
        ratio > 0,
        window_len(head_dim, ratio) <= usize::MAX,
        window_width(head_dim, ratio) <= usize::MAX,
    ensures
        r@ == fresh_scores(head_dim, ratio),
{
    let coff: usize = if ratio == 4 {
        2
    } else {
        1
    };
    let hd: usize = head_dim as usize;
    let width: usize = coff * hd;
    let n_rows: usize = if ratio == 4 {
        8
    } else {
        ratio as usize
    };
    let ghost w: int = window_width(head_dim, ratio);
    let mut s: Vec<u32> = Vec::new();
    let mut r: usize = 0;
    assert(0 * w == 0) by (nonlinear_arith);
    assert(s@ =~= fresh_scores(head_dim, ratio).take(0));
    while r < n_rows
        invariant
            r <= n_rows,
            n_rows == window_rows(ratio),
            width == w,
            w == window_width(head_dim, ratio),
            hd == head_dim,
            ratio > 0,
            window_len(head_dim, ratio) == n_rows * w,
            s@.len() == r * w,
            r * w <= window_len(head_dim, ratio),
            s@ =~= fresh_scores(head_dim, ratio).take(r * w),
        decreases n_rows - r,
    {
        proof {
            lemma_row_bounds(r as int, w, n_rows as int);
        }
        let mut c: usize = 0;
        while c < width
            invariant
                c <= width,
                r < n_rows,
                n_rows == window_rows(ratio),
                width == w,
                w == window_width(head_dim, ratio),
                hd == head_dim,
                ratio > 0,
                window_len(head_dim, ratio) == n_rows * w,
                0 <= r * w,
                r * w + w <= n_rows * w,
                s@.len() == r * w + c,
                s@ =~= fresh_scores(head_dim, ratio).take(r * w + c),
            decreases width - c,
        {
            let v: u32 = if ratio == 4 && r < 4 && c < hd {
                0
            } else {
                NEG_INF_BITS
            };
            proof {
                let i: int = r * w + c;
                lemma_fundamental_div_mod_converse(i, w, r as int, c as int);
                assert(fresh_scores(head_dim, ratio)[i] == v);
            }
            s.push(v);
            c = c + 1;
        }
        r = r + 1;
    }
    assert(fresh_scores(head_dim, ratio).take(n_rows * w) =~= fresh_scores(head_dim, ratio));
    s
}

/// The window holds nothing from row `from` on.
pub open spec fn clear_from(state_kv: Seq<u32>, state_score: Seq<u32>, w: int, from: int) -> bool {
    forall|i: int|
        from * w <= i < state_kv.len() ==> #[trigger] state_kv[i] == 0 && state_score[i]
            == NEG_INF_BITS
}

/// The first row to clear after a prompt of `n_tokens`: the row behind the tokens of the window that
/// is not full yet.
pub open spec fn clear_start(ratio: u32, n_tokens: usize) -> int {
    let rem = n_tokens as int % ratio as int;
    if ratio == 4 {
        4 + rem
    } else {
        rem
    }
}

/// Values with the rows from `from` on set to `v`.
pub open spec fn cleared(data: Seq<u32>, w: int, from: int, v: u32) -> Seq<u32> {
    Seq::new(
        data.len(),
        |i: int|
            if from * w <= i {
                v
            } else {
                data[i]
            },
    )
}

/// There is a window with something to clear.
pub open spec fn clearable(
    state_kv: Seq<u32>,
    state_score: Seq<u32>,
    head_dim: u32,
    ratio: u32,
) -> bool {
    state_kv.len() > 0 && state_score.len() > 0 && head_dim > 0 && ratio > 0
}

/// Values with the rows of the window that a prompt of `n_tokens` left free set to `v`. What stands
/// behind the window stays.
pub open spec fn freed(
    data: Seq<u32>,
    head_dim: u32,
    ratio: u32,
    n_tokens: usize,
    v: u32,
) -> Seq<u32> {
    let w = window_width(head_dim, ratio);
    Seq::new(
        data.len(),
        |i: int|
            if clear_start(ratio, n_tokens) * w <= i < window_len(head_dim, ratio) {
                v
            } else {
                data[i]
            },
    )
}

/// Where the values are just the window, all rows behind the tokens are cleared.
pub(crate) proof fn lemma_freed(
    data: Seq<u32>,
    head_dim: u32,
    ratio: u32,
    n_tokens: usize,
    v: u32,
)
    requires
        data.len() == window_len(head_dim, ratio),
    ensures
        freed(data, head_dim, ratio, n_tokens, v) == cleared(
            data,
            window_width(head_dim, ratio),
            clear_start(ratio, n_tokens),
            v,
        ),
{
    assert(freed(data, head_dim, ratio, n_tokens, v) =~= cleared(
        data,
        window_width(head_dim, ratio),
        clear_start(ratio, n_tokens),
        v,
    ));
}

/// Clear the rows of a window that is not full, so that decoding starts from the state that feeding
/// one token after the other would have left. Without a window nothing happens.
pub fn compressor_finish_prefill_state(
    state_kv: &mut Vec<u32>,
    state_score: &mut Vec<u32>,
    head_dim: u32,
    ratio: u32,
    n_tokens: usize,
)
    requires
        clearable(old(state_kv)@, old(state_score)@, head_dim, ratio) ==> {
            &&& window_len(head_dim, ratio) <= old(state_kv)@.len()
            &&& window_len(head_dim, ratio) <= old(state_score)@.len()
        },
    ensures
        final(state_kv)@ == (if clearable(old(state_kv)@, old(state_score)@, head_dim, ratio) {
            freed(old(state_kv)@, head_dim, ratio, n_tokens, 0)
        } else {
            old(state_kv)@
        }),
        final(state_score)@ == (if clearable(old(state_kv)@, old(state_score)@, head_dim, ratio) {
            freed(old(state_score)@, head_dim, ratio, n_tokens, NEG_INF_BITS)
        } else {
            old(state_score)@
        }),
{
    if state_kv.len() == 0 || state_score.len() == 0 || head_dim == 0 || ratio == 0 {
        return;
    }
    let ghost w: int = window_width(head_dim, ratio);
    let ghost to: int = window_rows(ratio);
    proof {
        lemma_window_size(head_dim, ratio);
    }
    let rem: usize = n_tokens % ratio as usize;
    let start_row: usize = if ratio == 4 {
        4 + rem
    } else {
        rem
    };
    proof {
        lemma_row_bounds(start_row as int, w, to);
        lemma_row_bounds(to - 1, w, to);
    }
    let coff: usize = if ratio == 4 {
        2
    } else {
        1
    };
    let n_rows: usize = if ratio == 4 {
        8
    } else {
        ratio as usize
    };
    let width: usize = coff * head_dim as usize;
    let at: usize = start_row * width;
    let end: usize = n_rows * width;
    fill_range(state_kv, at, end, 0);
    fill_range(state_score, at, end, NEG_INF_BITS);
    assert(state_kv@ =~= freed(old(state_kv)@, head_dim, ratio, n_tokens, 0));
    assert(state_score@ =~= freed(old(state_score)@, head_dim, ratio, n_tokens, NEG_INF_BITS));
}

/// Where a token goes in the window.
pub open spec fn window_row(ratio: u32, pos: usize) -> int {
    let m = pos as int % ratio as int;
    if ratio == 4 {
        4 + m
    } else {
        m
    }
}

/// A token closes its window.
pub open spec fn closes_window(ratio: u32, pos: usize) -> bool {
    (pos + 1) % ratio as int == 0
}

/// What the compressor does with the token at a position.
pub struct CompressorStep {
    /// The row of the window that the token fills.
    pub row: usize,
    /// Whether the token closes the window, so that a compressed row comes out.
    pub emit: bool,
    /// The position that the compressed row stands for: that of the window's first token.
    pub comp_pos: usize,
}

/// Decide what the compressor does with the token at a position.
pub fn compressor_step(ratio: u32, pos: usize) -> (s: CompressorStep)
    requires
        ratio > 0,
        pos < usize::MAX,
    ensures
        s.row == window_row(ratio, pos),
        s.emit == closes_window(ratio, pos),
        s.emit ==> s.comp_pos == pos + 1 - ratio,
        !s.emit ==> s.comp_pos == 0,
{
    let m: usize = pos % ratio as usize;
    let row: usize = if ratio == 4 {
        4 + m
    } else {
        m
    };
    let emit: bool = (pos + 1) % ratio as usize == 0;
    let comp_pos: usize = if emit {
        proof {
            if pos + 1 < ratio {
                vstd::arithmetic::div_mod::lemma_small_mod((pos + 1) as nat, ratio as nat);
            }
        }
        pos + 1 - ratio as usize
    } else {
        0
    };
    CompressorStep { row, emit, comp_pos }
}

/// Values with row `r` replaced.
pub open spec fn with_row(data: Seq<u32>, w: int, r: int, src: Seq<u32>) -> Seq<u32> {
    Seq::new(
        data.len(),
        |i: int|
            if r * w <= i < r * w + w {
                src[i - r * w]
            } else {
                data[i]
            },
    )
}

/// Store the values and the scores of a token in its row of the window.
pub fn compressor_store(
    state_kv: &mut Vec<u32>,
    state_score: &mut Vec<u32>,
    kv_cur: &[u32],
    sc_cur: &[u32],
    head_dim: u32,
    ratio: u32,
    pos: usize,
)
    requires
        ratio > 0,
        pos < usize::MAX,
        old(state_kv)@.len() == window_len(head_dim, ratio),
        old(state_score)@.len() == window_len(head_dim, ratio),
        kv_cur@.len() == window_width(head_dim, ratio),
        sc_cur@.len() == window_width(head_dim, ratio),
    ensures
        final(state_kv)@ == with_row(
            old(state_kv)@,
            window_width(head_dim, ratio),
            window_row(ratio, pos),
            kv_cur@,
        ),
        final(state_score)@ == with_row(
            old(state_score)@,
            window_width(head_dim, ratio),
            window_row(ratio, pos),
            sc_cur@,
        ),
{
    let ghost w: int = window_width(head_dim, ratio);
    let width: usize = kv_cur.len();
    let step = compressor_step(ratio, pos);
    let ghost len = state_kv.len();
    proof {
        lemma_row_bounds(step.row as int, w, window_rows(ratio));
        assert(len == window_rows(ratio) * w);
    }
    let at: usize = step.row * width;
    write_row(state_kv, at, kv_cur, width);
    write_row(state_score, at, sc_cur, width);
    proof {
        let s = state_kv@.subrange(at as int, at + w);
        let t = state_score@.subrange(at as int, at + w);
        assert forall|i: int| 0 <= i < state_kv@.len() implies #[trigger] state_kv@[i]
            == with_row(old(state_kv)@, w, step.row as int, kv_cur@)[i] by {
            if at <= i < at + w {
                assert(s[i - at] == state_kv@[i]);
                assert(kv_cur@.take(w)[i - at] == kv_cur@[i - at]);
            }
        }
        assert forall|i: int| 0 <= i < state_score@.len() implies #[trigger] state_score@[i]
            == with_row(old(state_score)@, w, step.row as int, sc_cur@)[i] by {
            if at <= i < at + w {
                assert(t[i - at] == state_score@[i]);
                assert(sc_cur@.take(w)[i - at] == sc_cur@[i - at]);
            }
        }
        assert(state_kv@ =~= with_row(old(state_kv)@, w, step.row as int, kv_cur@));
        assert(state_score@ =~= with_row(old(state_score)@, w, step.row as int, sc_cur@));
    }
}

/// A window at ratio 4 after it was closed: its rows become the window before, and the current
/// window is clear.
pub open spec fn shifted(data: Seq<u32>, v: u32) -> Seq<u32> {
    let half = data.len() as int / 2;
    Seq::new(
        data.len(),
        |i: int|
            if i < half {
                data[i + half]
            } else {
                v
            },
    )
}

fn shift_lane(data: &mut Vec<u32>, half: usize, v: u32)
    requires
        old(data)@.len() == 2 * half,
    ensures
        final(data)@ == Seq::new(
            old(data)@.len(),
            |i: int|
                if i < half {
                    old(data)@[i + half]
                } else {
                    v
                },
        ),
{
    let mut i: usize = 0;
    let ghost len = data.len();
    while i < half
        invariant
            i <= half,
            data@.len() == 2 * half,
            data@.len() == old(data)@.len(),
            2 * half <= usize::MAX,
            forall|k: int| 0 <= k < i ==> data@[k] == old(data)@[k + half],
            forall|k: int| i <= k < data@.len() && k < half ==> data@[k] == old(data)@[k],
            forall|k: int| half <= k < half + i ==> data@[k] == v,
            forall|k: int| half + i <= k < data@.len() ==> data@[k] == old(data)@[k],
        decreases half - i,
    {
        let x: u32 = data[half + i];
        data.set(i, x);
        data.set(half + i, v);
        i = i + 1;
    }
    assert(data@ =~= Seq::new(
        old(data)@.len(),
        |i: int|
            if i < half {
                old(data)@[i + half]
            } else {
                v
            },
    ));
}

/// Move the current window of ratio 4 to the window before, and clear it.
pub fn compressor_shift(state_kv: &mut Vec<u32>, state_score: &mut Vec<u32>, head_dim: u32)
    requires
        old(state_kv)@.len() == window_len(head_dim, 4),
        old(state_score)@.len() == window_len(head_dim, 4),
    ensures
        final(state_kv)@ == shifted(old(state_kv)@, 0),
        final(state_score)@ == shifted(old(state_score)@, NEG_INF_BITS),
{
    let half: usize = state_kv.len() / 2;
    proof {
        lemma_window_size(head_dim, 4);
    }
    shift_lane(state_kv, half, 0);
    shift_lane(state_score, half, NEG_INF_BITS);
    assert(state_kv@ =~= shifted(old(state_kv)@, 0));
    assert(state_score@ =~= shifted(old(state_score)@, NEG_INF_BITS));
}

/// Feeding tokens one after the other keeps the rows behind the current token clear at ratio 4: a
/// fresh window is clear, storing the next token uses up one row, and closing the window clears it.
pub proof fn law_window_stays_clear(
    state_kv: Seq<u32>,
    state_score: Seq<u32>,
    head_dim: u32,
    pos: usize,
    kv_cur: Seq<u32>,
    sc_cur: Seq<u32>,
)
    requires
        state_kv.len() == window_len(head_dim, 4),
        state_score.len() == window_len(head_dim, 4),
        clear_from(state_kv, state_score, window_width(head_dim, 4), window_row(4, pos)),
    ensures
        ({
            let w = window_width(head_dim, 4);
            let kv = with_row(state_kv, w, window_row(4, pos), kv_cur);
            let sc = with_row(state_score, w, window_row(4, pos), sc_cur);
            &&& clear_from(kv, sc, w, window_row(4, pos) + 1)
            &&& clear_from(shifted(kv, 0), shifted(sc, NEG_INF_BITS), w, 4)
        }),
        clear_from(
            filled(window_len(head_dim, 4) as nat, 0),
            fresh_scores(head_dim, 4),
            window_width(head_dim, 4),
            4,
        ),
{
    let w = window_width(head_dim, 4);
    let r = window_row(4, pos);
    lemma_window_size(head_dim, 4);
    lemma_row_bounds(r, w, 8);
    let kv = with_row(state_kv, w, r, kv_cur);
    let sc = with_row(state_score, w, r, sc_cur);
    assert forall|i: int| (r + 1) * w <= i < kv.len() implies #[trigger] kv[i] == 0 && sc[i]
        == NEG_INF_BITS by {
        assert(state_kv[i] == 0);
    }
    let four: int = 4;
    assert(four * w == 8 * head_dim) by (nonlinear_arith)
        requires
            four == 4,
            w == 2 * head_dim,
    ;
    let skv = shifted(kv, 0);
    let ssc = shifted(sc, NEG_INF_BITS);
    assert forall|i: int| four * w <= i < skv.len() implies #[trigger] skv[i] == 0 && ssc[i]
        == NEG_INF_BITS by {}
    let f = fresh_scores(head_dim, 4);
    let z = filled(window_len(head_dim, 4) as nat, 0);
    assert forall|i: int| four * w <= i < z.len() implies #[trigger] z[i] == 0 && f[i]
        == NEG_INF_BITS by {
        assert(i / w >= 4) by (nonlinear_arith)
            requires
                i >= four * w,
                four == 4,
                w > 0,
        ;
    }
}

/// Finishing a prompt changes nothing in a window of ratio 4 that was fed token by token.
pub proof fn law_finish_keeps_streamed_window(
    state_kv: Seq<u32>,
    state_score: Seq<u32>,
    head_dim: u32,
    n_tokens: usize,
)
    requires
        state_kv.len() == window_len(head_dim, 4),
        state_score.len() == window_len(head_dim, 4),
        clear_from(state_kv, state_score, window_width(head_dim, 4), window_row(4, n_tokens)),
    ensures
        cleared(state_kv, window_width(head_dim, 4), clear_start(4, n_tokens), 0) == state_kv,
        cleared(
            state_score,
            window_width(head_dim, 4),
            clear_start(4, n_tokens),
            NEG_INF_BITS,
        ) == state_score,
{
    let w = window_width(head_dim, 4);
    let from = clear_start(4, n_tokens);
    assert(cleared(state_kv, w, from, 0) =~= state_kv);
    assert forall|i: int| 0 <= i < state_score.len() implies #[trigger] cleared(
        state_score,
        w,
        from,
        NEG_INF_BITS,
    )[i] == state_score[i] by {
        assert(from * w <= i ==> state_kv[i] == 0);
    }
    assert(cleared(state_score, w, from, NEG_INF_BITS) =~= state_score);
}

/// Values after the rows from `from` on were replaced, one after the other.
pub open spec fn with_rows(data: Seq<u32>, w: int, from: int, rows: Seq<Seq<u32>>) -> Seq<u32>
    decreases rows.len(),
{
    if rows.len() == 0 {
        data
    } else {
        with_row(
            with_rows(data, w, from, rows.drop_last()),
            w,
            from + rows.len() - 1,
            rows.last(),
        )
    }
}

/// Two windows with the same rows below `from` differ no more in the rows that are replaced.
proof fn lemma_with_rows(a: Seq<u32>, b: Seq<u32>, w: int, from: int, rows: Seq<Seq<u32>>)
    requires
        w >= 0,
        from >= 0,
        a.len() == b.len(),
        forall|i: int| 0 <= i < a.len() && i < from * w ==> a[i] == b[i],
    ensures
        with_rows(a, w, from, rows).len() == a.len(),
        with_rows(b, w, from, rows).len() == a.len(),
        forall|i: int|
            0 <= i < a.len() && i < (from + rows.len()) * w ==> #[trigger] with_rows(
                a,
                w,
                from,
                rows,
            )[i] == with_rows(b, w, from, rows)[i],
    decreases rows.len(),
{
    if rows.len() > 0 {
        lemma_with_rows(a, b, w, from, rows.drop_last());
        let r = from + rows.len() - 1;
        assert((r + 1) * w == r * w + w) by (nonlinear_arith);
        let x = with_rows(a, w, from, rows.drop_last());
        let y = with_rows(b, w, from, rows.drop_last());
        assert forall|i: int| 0 <= i < a.len() && i < (r + 1) * w implies #[trigger] with_rows(
            a,
            w,
            from,
            rows,
        )[i] == with_rows(b, w, from, rows)[i] by {
            if i < r * w {
                assert(x[i] == y[i]);
            }
        }
    }
}

/// Outside ratio 4 a window that was fed token by token still holds the rows of the window before.
/// Finishing a prompt clears them, and nothing comes of it: once the tokens that are missing have
/// filled the window, it is the same with and without.
pub proof fn law_finish_is_overwritten(
    data: Seq<u32>,
    head_dim: u32,
    ratio: u32,
    n_tokens: usize,
    rows: Seq<Seq<u32>>,
    v: u32,
)
    requires
        ratio > 0,
        ratio != 4,
        data.len() == window_len(head_dim, ratio),
        rows.len() == ratio - n_tokens as int % ratio as int,
    ensures
        ({
            let w = window_width(head_dim, ratio);
            let from = window_row(ratio, n_tokens);
            with_rows(cleared(data, w, clear_start(ratio, n_tokens), v), w, from, rows)
                == with_rows(data, w, from, rows)
        }),
{
    let w = window_width(head_dim, ratio);
    let from = window_row(ratio, n_tokens);
    let c = cleared(data, w, clear_start(ratio, n_tokens), v);
    lemma_window_size(head_dim, ratio);
    lemma_with_rows(c, data, w, from, rows);
    assert(from + rows.len() == window_rows(ratio));
    assert(with_rows(c, w, from, rows) =~= with_rows(data, w, from, rows));
}

/// The entries of a window that are pooled for dimension `j`: its own in every row, at ratio 4 from
/// the first lane of the window before and from the second lane of the current one, in turn.
pub open spec fn pooled(head_dim: u32, ratio: u32, j: int, k: int) -> int {
    let w = window_width(head_dim, ratio);
    if ratio == 4 {
        if k % 2 == 0 {
            k / 2 * w + j
        } else {
            (4 + k / 2) * w + head_dim + j
        }
    } else {
        k * w + j
    }
}

/// List the entries of a window that are pooled for dimension `j`.
pub fn pool_slots(head_dim: u32, ratio: u32, j: usize) -> (r: Vec<usize>)
    requires
        ratio > 0,
        j < head_dim,
        window_len(head_dim, ratio) <= usize::MAX,
    ensures
        r@.len() == window_rows(ratio),
        forall|k: int|
            0 <= k < r@.len() ==> (#[trigger] r@[k]) == pooled(head_dim, ratio, j as int, k),
        forall|k: int| 0 <= k < r@.len() ==> (#[trigger] r@[k]) < window_len(head_dim, ratio),
{
    let ghost w: int = window_width(head_dim, ratio);
    let hd: usize = head_dim as usize;
    let coff: usize = if ratio == 4 {
        2
    } else {
        1
    };
    let n: usize = if ratio == 4 {
        8
    } else {
        ratio as usize
    };
    proof {
        assert(w <= n * w) by (nonlinear_arith)
            requires
                n >= 1,
                w >= 0,
        ;
    }
    let width: usize = coff * hd;
    let mut r: Vec<usize> = Vec::new();
    let mut k: usize = 0;
    while k < n
        invariant
            k <= n,
            r@.len() == k,
            n == window_rows(ratio),
            w == window_width(head_dim, ratio),
            width == w,
            hd == head_dim,
            j < hd,
            n * w == window_len(head_dim, ratio),
            window_len(head_dim, ratio) <= usize::MAX,
            forall|i: int|
                0 <= i < k ==> (#[trigger] r@[i]) == pooled(head_dim, ratio, j as int, i),
            forall|i: int| 0 <= i < k ==> (#[trigger] r@[i]) < window_len(head_dim, ratio),
        decreases n - k,
    {
        if ratio == 4 {
            let at: usize = if k % 2 == 0 {
                proof {
                    lemma_row_bounds(k as int / 2, w, 8);
                }
                k / 2 * width + j
            } else {
                proof {
                    lemma_row_bounds(4 + k as int / 2, w, 8);
                }
                (4 + k / 2) * width + hd + j
            };
            r.push(at);
        } else {
            proof {
                lemma_row_bounds(k as int, w, n as int);
            }
            r.push(k * width + j);
        }
        k = k + 1;
    }
    r
}

} // verus!

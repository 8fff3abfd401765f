//! Where a token's numbers come from and where they go: its embedding, the streams that start from
//! it, the experts that it is sent to, and the compressed rows that it may attend to.
use crate::constants::Dims;
use crate::half::{f16_to_f32, widened};
use crate::model::{number, numbers, LayerWeights, ModelWeights};
use crate::model_laws::law_numbers;
use crate::rank::{rank_descending, ranking, take_greatest, taken_after};
use crate::{hash_routed_expert, mixed_hash};
use vstd::arithmetic::div_mod::lemma_fundamental_div_mod_converse;
use vstd::prelude::*;

verus! {

/// Element `i` of the embedding of a token.
pub open spec fn embedding(weights: &ModelWeights, d: Dims, token: i32, i: int) -> u32 {
    widened(numbers(weights.token_embd.content(), 2)[token * d.n_embd + i] as u16)
}

/// Look up the embedding of a token.
pub fn embed_token_f16(weights: &ModelWeights, d: &Dims, token: i32, out: &mut Vec<u32>)
    requires
        token >= 0,
        (token + 1) * d.n_embd <= weights.token_embd.content().len() / 2,
        d.n_embd <= old(out)@.len(),
    ensures
        final(out)@ == Seq::new(
            old(out)@.len(),
            |i: int|
                if i < d.n_embd {
                    embedding(weights, *d, token, i)
                } else {
                    old(out)@[i]
                },
        ),
        forall|i: int|
            0 <= i < d.n_embd ==> #[trigger] final(out)@[i] == widened(
                (weights.token_embd.content()[2 * (token * d.n_embd + i)] + 0x100
                    * weights.token_embd.content()[2 * (token * d.n_embd + i) + 1]) as u16,
            ),
{
    let b = weights.token_embd.as_bytes();
    let n: usize = d.n_embd as usize;
    let ghost len = b.len();
    assert((token + 1) * d.n_embd == token * d.n_embd + d.n_embd) by (nonlinear_arith);
    assert(0 <= token * d.n_embd) by (nonlinear_arith)
        requires
            token >= 0,
    ;
    let offset: usize = token as usize * n;
    let mut i: usize = 0;
    while i < n
        invariant
            i <= n,
            n == d.n_embd,
            n <= out@.len(),
            out@.len() == old(out)@.len(),
            b@ == weights.token_embd.content(),
            offset == token * d.n_embd,
            offset + n <= b@.len() / 2,
            b@.len() <= usize::MAX,
            forall|k: int| 0 <= k < i ==> out@[k] == embedding(weights, *d, token, k),
            forall|k: int| i <= k < out@.len() ==> out@[k] == old(out)@[k],
        decreases n - i,
    {
        let h: u16 = number(b, 2, offset + i) as u16;
        out.set(i, f16_to_f32(h));
        i = i + 1;
    }
    assert(out@ =~= Seq::new(
        old(out)@.len(),
        |i: int|
            if i < d.n_embd {
                embedding(weights, *d, token, i)
            } else {
                old(out)@[i]
            },
    ));
    assert forall|i: int| 0 <= i < d.n_embd implies #[trigger] out@[i] == widened(
        (weights.token_embd.content()[2 * (token * d.n_embd + i)] + 0x100
            * weights.token_embd.content()[2 * (token * d.n_embd + i) + 1]) as u16,
    ) by {
        law_numbers(weights.token_embd.content(), token * d.n_embd + i);
    }
}

/// Start every stream from the embedding.
pub fn hc_from_plain_embedding(d: &Dims, cur: &mut Vec<u32>, plain: &[u32])
    requires
        plain@.len() == d.n_embd,
        d.n_hc * d.n_embd <= old(cur)@.len(),
    ensures
        final(cur)@ == Seq::new(
            old(cur)@.len(),
            |i: int|
                if i < d.n_hc * d.n_embd {
                    plain@[i % d.n_embd as int]
                } else {
                    old(cur)@[i]
                },
        ),
{
    let w: usize = d.n_embd as usize;
    let n: usize = d.n_hc as usize;
    let ghost len = cur.len();
    assert(0 * w == 0) by (nonlinear_arith);
    let mut h: usize = 0;
    while h < n
        invariant
            h <= n,
            n == d.n_hc,
            w == d.n_embd,
            plain@.len() == w,
            cur@.len() == old(cur)@.len(),
            cur@.len() <= usize::MAX,
            n * w <= cur@.len(),
            0 <= h * w <= n * w,
            forall|k: int| 0 <= k < h * w ==> cur@[k] == plain@[k % w as int],
            forall|k: int| h * w <= k < cur@.len() ==> cur@[k] == old(cur)@[k],
        decreases n - h,
    {
        assert((h + 1) * w == h * w + w) by (nonlinear_arith);
        assert((h + 1) * w <= n * w) by (nonlinear_arith)
            requires
                h + 1 <= n,
        ;
        let at: usize = h * w;
        let mut j: usize = 0;
        while j < w
            invariant
                j <= w,
                h < n,
                at == h * w,
                at + w <= cur@.len(),
                cur@.len() <= usize::MAX,
                plain@.len() == w,
                cur@.len() == old(cur)@.len(),
                forall|k: int| 0 <= k < at + j ==> cur@[k] == plain@[k % w as int],
                forall|k: int| at + j <= k < cur@.len() ==> cur@[k] == old(cur)@[k],
            decreases w - j,
        {
            proof {
                lemma_fundamental_div_mod_converse(at + j, w as int, h as int, j as int);
            }
            cur.set(at + j, plain[j]);
            j = j + 1;
        }
        h = h + 1;
    }
    assert(cur@ =~= Seq::new(
        old(cur)@.len(),
        |i: int|
            if i < d.n_hc * d.n_embd {
                plain@[i % d.n_embd as int]
            } else {
                old(cur)@[i]
            },
    ));
}

/// How a layer chooses the experts of a token.
#[derive(Debug, Clone, Copy, PartialEq, Eq, Structural)]
pub enum Routing {
    /// By its table of tokens.
    Table,
    /// By the scores of the router.
    Scores,
}

/// A layer that has a table is routed by it, and every other one by scores.
pub open spec fn routing(layer: &LayerWeights) -> Routing {
    if layer.ffn_gate_tid2eid.present() {
        Routing::Table
    } else {
        Routing::Scores
    }
}

/// Decide how a layer chooses the experts of a token.
pub fn layer_routing(layer: &LayerWeights) -> (r: Routing)
    ensures
        r == routing(layer),
{
    if layer.ffn_gate_tid2eid.has_data() {
        Routing::Table
    } else {
        Routing::Scores
    }
}

/// The experts of a token by hashing.
pub open spec fn hashed_experts(d: Dims, token: i32) -> Seq<usize> {
    Seq::new(
        d.n_expert_used as nat,
        |i: int| (mixed_hash(token, i as u32) % d.n_expert as u64) as usize,
    )
}

/// Entry `i` of a routing table.
pub open spec fn table_entry(layer: &LayerWeights, i: int) -> usize {
    (numbers(layer.ffn_gate_tid2eid.content(), 4)[i] as u32 as i32) as usize
}

/// The routing table of a layer has a row for a token.
pub open spec fn in_table(layer: &LayerWeights, d: Dims, token: i32) -> bool {
    token >= 0 && token * d.n_expert_used < layer.ffn_gate_tid2eid.content().len() / 4
}

/// Look up the experts of a token in the routing table of a layer. A token outside the table is
/// routed by hashing.
pub fn layer_hash_selected_experts(layer: &LayerWeights, d: &Dims, token: i32) -> (r: Vec<usize>)
    requires
        d.n_expert > 0,
        in_table(layer, *d, token) ==> (token + 1) * d.n_expert_used
            <= layer.ffn_gate_tid2eid.content().len() / 4,
    ensures
        r@ == if in_table(layer, *d, token) {
            Seq::new(
                d.n_expert_used as nat,
                |i: int| table_entry(layer, token * d.n_expert_used + i),
            )
        } else {
            hashed_experts(*d, token)
        },
        r@.len() == d.n_expert_used,
        !in_table(layer, *d, token) ==> forall|i: int|
            0 <= i < r@.len() ==> #[trigger] r@[i] < d.n_expert,
{
    let b = layer.ffn_gate_tid2eid.as_bytes();
    let n: u32 = d.n_expert_used;
    let entries: usize = b.len() / 4;
    let mut r: Vec<usize> = Vec::new();
    let mut i: u32 = 0;
    proof {
        assert(0 <= token * n < 0x8000_0000_0000_0000 || token < 0) by (nonlinear_arith)
            requires
                -0x8000_0000 <= token < 0x8000_0000,
        ;
        assert((token + 1) * n == token * n + n) by (nonlinear_arith);
    }
    if token < 0 || token as u64 * n as u64 >= entries as u64 {
        while i < n
            invariant
                i <= n,
                n == d.n_expert_used,
                d.n_expert > 0,
                r@ =~= hashed_experts(*d, token).take(i as int),
            decreases n - i,
        {
            r.push(hash_routed_expert(token, i, d.n_expert) as usize);
            i = i + 1;
        }
        assert(r@ =~= hashed_experts(*d, token));
        return r;
    }
    let offset: usize = (token as u64 * n as u64) as usize;
    while i < n
        invariant
            i <= n,
            n == d.n_expert_used,
            offset == token * d.n_expert_used,
            offset + n <= entries,
            entries == b@.len() / 4,
            b@ == layer.ffn_gate_tid2eid.content(),
            r@ =~= Seq::new(i as nat, |k: int| table_entry(layer, token * d.n_expert_used + k)),
        decreases n - i,
    {
        let eid: i32 = number(b, 4, offset + i as usize) as u32 as i32;
        r.push(eid as usize);
        i = i + 1;
    }
    r
}

/// Choose the experts with the greatest router values, the first of equal ones first.
pub fn layer_topk_selected_experts(probs: &[u32], n_used: usize) -> (r: Vec<usize>)
    requires
        n_used <= probs@.len(),
    ensures
        r@ == ranking(probs@).take(n_used as int),
{
    let mut r = rank_descending(probs);
    r.truncate(n_used);
    r
}

/// The compressed rows that a token may attend to: all of them while there are no more than
/// `top_k`, and those with the greatest scores otherwise.
pub open spec fn allowed_rows(scores: Seq<u32>, top_k: nat) -> Seq<bool> {
    if scores.len() <= top_k {
        Seq::new(scores.len(), |i: int| true)
    } else {
        taken_after(scores, top_k)
    }
}

/// Decide which compressed rows a token may attend to. The scores are not read where there are no
/// more than `top_k` rows.
pub fn indexer_allowed(scores: &[u32], top_k: usize) -> (r: Vec<bool>)
    ensures
        r@ == allowed_rows(scores@, top_k as nat),
        r@.len() == scores@.len(),
{
    let n: usize = scores.len();
    if n > top_k {
        return take_greatest(scores, top_k);
    }
    let mut r: Vec<bool> = Vec::new();
    let mut i: usize = 0;
    while i < n
        invariant
            i <= n,
            r@ =~= Seq::new(i as nat, |k: int| true),
        decreases n - i,
    {
        r.push(true);
        i = i + 1;
    }
    r
}

/// The places that are allowed, in order.
pub open spec fn allowed_places(allowed: Seq<bool>) -> Seq<int>
    decreases allowed.len(),
{
    if allowed.len() == 0 {
        seq![]
    } else if allowed.last() {
        allowed_places(allowed.drop_last()).push(allowed.len() - 1)
    } else {
        allowed_places(allowed.drop_last())
    }
}

/// List the places that are allowed.
pub fn allowed_indices(allowed: &[bool]) -> (r: Vec<usize>)
    ensures
        Seq::new(r@.len(), |i: int| r@[i] as int) == allowed_places(allowed@),
{
    let mut r: Vec<usize> = Vec::new();
    let mut i: usize = 0;
    assert(allowed@.take(0) =~= seq![]);
    assert(Seq::new(r@.len(), |k: int| r@[k] as int) =~= seq![]);
    while i < allowed.len()
        invariant
            i <= allowed@.len(),
            Seq::new(r@.len(), |k: int| r@[k] as int) == allowed_places(allowed@.take(i as int)),
        decreases allowed@.len() - i,
    {
        let ghost before = Seq::new(r@.len(), |k: int| r@[k] as int);
        assert(allowed@.take(i + 1).drop_last() =~= allowed@.take(i as int));
        if allowed[i] {
            r.push(i);
            assert(Seq::new(r@.len(), |k: int| r@[k] as int) =~= before.push(i as int));
        }
        i = i + 1;
    }
    assert(allowed@.take(allowed@.len() as int) =~= allowed@);
    r
}

/// The places that are listed are allowed, every allowed place is listed, and they come in order.
pub proof fn law_allowed_places(allowed: Seq<bool>)
    ensures
        forall|k: int|
            0 <= k < allowed_places(allowed).len() ==> 0 <= #[trigger] allowed_places(allowed)[k]
                < allowed.len() && allowed[allowed_places(allowed)[k]],
        forall|c: int|
            0 <= c < allowed.len() && allowed[c] ==> #[trigger] allowed_places(allowed).contains(c),
        forall|a: int, b: int|
            0 <= a < b < allowed_places(allowed).len() ==> #[trigger] allowed_places(allowed)[a]
                < #[trigger] allowed_places(allowed)[b],
    decreases allowed.len(),
{
    if allowed.len() > 0 {
        let front = allowed.drop_last();
        law_allowed_places(front);
        let p = allowed_places(allowed);
        let q = allowed_places(front);
        assert forall|c: int| 0 <= c < allowed.len() && allowed[c] implies #[trigger] p.contains(
            c,
        ) by {
            if c < front.len() {
                assert(front[c]);
                assert(q.contains(c));
                let k = choose|k: int| 0 <= k < q.len() && q[k] == c;
                assert(p[k] == c);
            } else {
                assert(p[p.len() - 1] == c);
            }
        }
    }
}

/// Where block `b` of row `row` of expert `eid` stands among the blocks of all experts.
pub fn expert_block(eid: usize, n_rows: usize, per_row: usize, row: usize, b: usize) -> (r: usize)
    requires
        row < n_rows,
        b < per_row,
        (eid + 1) * n_rows * per_row <= usize::MAX,
    ensures
        r == (eid * n_rows + row) * per_row + b,
        r < (eid + 1) * n_rows * per_row,
{
    proof {
        lemma_expert_block(eid as int, n_rows as int, per_row as int, row as int, b as int);
    }
    (eid * n_rows + row) * per_row + b
}

proof fn lemma_expert_block(eid: int, n_rows: int, per_row: int, row: int, b: int)
    requires
        0 <= eid,
        0 <= row < n_rows,
        0 <= b < per_row,
    ensures
        0 <= eid * n_rows,
        eid * n_rows + row < (eid + 1) * n_rows * per_row,
        0 <= (eid * n_rows + row) * per_row,
        (eid * n_rows + row) * per_row + b < (eid + 1) * n_rows * per_row,
{
    let m = eid * n_rows + row;
    let t = (eid + 1) * n_rows;
    assert(0 <= eid * n_rows) by (nonlinear_arith)
        requires
            0 <= eid,
            0 <= n_rows,
    ;
    assert(t == eid * n_rows + n_rows) by (nonlinear_arith)
        requires
            t == (eid + 1) * n_rows,
    ;
    assert(m * per_row + b < t * per_row && 0 <= m * per_row && t <= t * per_row)
        by (nonlinear_arith)
        requires
            0 <= m,
            m + 1 <= t,
            0 <= b < per_row,
    ;
}

/// Different blocks stand at different places.
pub proof fn law_expert_blocks_apart(
    n_rows: int,
    per_row: int,
    a: (int, int, int),
    b: (int, int, int),
)
    requires
        0 <= a.0,
        0 <= a.1 < n_rows,
        0 <= a.2 < per_row,
        0 <= b.0,
        0 <= b.1 < n_rows,
        0 <= b.2 < per_row,
        (a.0 * n_rows + a.1) * per_row + a.2 == (b.0 * n_rows + b.1) * per_row + b.2,
    ensures
        a == b,
{
    let ma = a.0 * n_rows + a.1;
    let mb = b.0 * n_rows + b.1;
    lemma_fundamental_div_mod_converse(ma * per_row + a.2, per_row, ma, a.2);
    lemma_fundamental_div_mod_converse(mb * per_row + b.2, per_row, mb, b.2);
    lemma_fundamental_div_mod_converse(ma, n_rows, a.0, a.1);
    lemma_fundamental_div_mod_converse(mb, n_rows, b.0, b.1);
}

} // verus!

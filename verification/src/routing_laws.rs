//! What routing promises: the embedding of a token is its own row of the table, and its experts are
//! its own row of the routing table.
use crate::Dims;
use crate::half::{is_half_nan, law_half_round_trip};
use crate::half_laws::{float_value, law_order_is_by_value};
use crate::model::{numbers, LayerWeights, ModelWeights};
use crate::model_laws::law_numbers;
use crate::rank::{counts, law_greatest_are_taken, taken_count};
use crate::routing::{
    allowed_rows, embedding, hashed_experts, in_table, routing, table_entry, Routing,
};
use vstd::prelude::*;

verus! {

/// Two embedding tables agree in the row of a token: in the bytes from `2 * token * n_embd` on, two
/// for each element.
pub open spec fn same_row(a: Seq<u8>, b: Seq<u8>, n_embd: int, token: int) -> bool {
    forall|k: int|
        2 * (token * n_embd) <= k < 2 * (token * n_embd) + 2 * n_embd ==> #[trigger] a[k] == b[k]
}

/// The embedding of a token depends on its own row of the table and on nothing else, and every byte
/// of that row counts: tables that agree in the row give the token the same embedding, and tables
/// that give it the same embedding agree in the row, if the row holds numbers.
pub proof fn law_embedding_is_own_row(a: &ModelWeights, b: &ModelWeights, d: Dims, token: i32)
    requires
        token >= 0,
        a.token_embd.content().len() == b.token_embd.content().len(),
        (token + 1) * d.n_embd <= a.token_embd.content().len() / 2,
    ensures
        same_row(a.token_embd.content(), b.token_embd.content(), d.n_embd as int, token as int)
            ==> forall|i: int|
            0 <= i < d.n_embd ==> #[trigger] embedding(a, d, token, i) == embedding(b, d, token, i),
        (forall|i: int|
            0 <= i < d.n_embd ==> #[trigger] embedding(a, d, token, i) == embedding(b, d, token, i)
                && !is_half_nan(numbers(a.token_embd.content(), 2)[token * d.n_embd + i] as u16)
                && !is_half_nan(numbers(b.token_embd.content(), 2)[token * d.n_embd + i] as u16))
            ==> same_row(
            a.token_embd.content(),
            b.token_embd.content(),
            d.n_embd as int,
            token as int,
        ),
{
    let x = a.token_embd.content();
    let y = b.token_embd.content();
    let n = d.n_embd as int;
    let base = token * n;
    assert(0 <= base && (token + 1) * n == base + n) by (nonlinear_arith)
        requires
            token >= 0,
            n >= 0,
            base == token * n,
    ;
    if same_row(x, y, n, token as int) {
        assert forall|i: int| 0 <= i < n implies #[trigger] embedding(a, d, token, i) == embedding(
            b,
            d,
            token,
            i,
        ) by {
            law_numbers(x, base + i);
            law_numbers(y, base + i);
            assert(x[2 * (base + i)] == y[2 * (base + i)]);
            assert(x[2 * (base + i) + 1] == y[2 * (base + i) + 1]);
        }
    }
    if forall|i: int|
        0 <= i < n ==> #[trigger] embedding(a, d, token, i) == embedding(b, d, token, i)
            && !is_half_nan(numbers(x, 2)[base + i] as u16) && !is_half_nan(
            numbers(y, 2)[base + i] as u16,
        ) {
        assert forall|k: int| 2 * base <= k < 2 * base + 2 * n implies #[trigger] x[k] == y[k] by {
            let i = (k - 2 * base) / 2;
            assert(embedding(a, d, token, i) == embedding(b, d, token, i));
            let h = numbers(x, 2)[base + i] as u16;
            let g = numbers(y, 2)[base + i] as u16;
            law_half_round_trip(h);
            law_half_round_trip(g);
            law_numbers(x, base + i);
            law_numbers(y, base + i);
            assert(h == g);
            assert(k == 2 * (base + i) || k == 2 * (base + i) + 1);
        }
    }
}

/// A change inside the row of one token leaves the embedding of every other token as it is.
pub proof fn law_embedding_rows_apart(
    a: &ModelWeights,
    b: &ModelWeights,
    d: Dims,
    changed: i32,
    token: i32,
    i: int,
)
    requires
        token >= 0,
        changed >= 0,
        token != changed,
        a.token_embd.content().len() == b.token_embd.content().len(),
        (token + 1) * d.n_embd <= a.token_embd.content().len() / 2,
        0 <= i < d.n_embd,
        forall|k: int|
            0 <= k < a.token_embd.content().len() && !(2 * (changed * d.n_embd) <= k < 2 * (changed
                * d.n_embd) + 2 * d.n_embd) ==> #[trigger] a.token_embd.content()[k]
                == b.token_embd.content()[k],
    ensures
        embedding(a, d, token, i) == embedding(b, d, token, i),
{
    let x = a.token_embd.content();
    let y = b.token_embd.content();
    let n = d.n_embd as int;
    let t = token as int;
    let c = changed as int;
    assert(0 <= t * n && (t + 1) * n == t * n + n) by (nonlinear_arith)
        requires
            t >= 0,
            n >= 0,
    ;
    assert(t * n + n <= c * n || c * n + n <= t * n) by (nonlinear_arith)
        requires
            t < c || c < t,
            n >= 0,
    ;
    assert(same_row(x, y, n, t));
    law_embedding_is_own_row(a, b, d, token);
}

/// A layer is routed by its table just where the table has bytes.
pub proof fn law_routing(layer: &LayerWeights)
    ensures
        layer.ffn_gate_tid2eid.content().len() > 0 && layer.ffn_gate_tid2eid.bytes > 0 ==> routing(
            layer,
        ) == Routing::Table,
        layer.ffn_gate_tid2eid.bytes == 0 || layer.ffn_gate_tid2eid.data is Absent ==> routing(layer)
            == Routing::Scores,
{
}

/// An entry of a routing table is the four bytes of its place, the lowest first; a token's row
/// begins at its number times the row's length, and a token has a row where its first entry is in
/// the table.
pub proof fn law_table_rows(layer: &LayerWeights, d: Dims, token: i32, i: int)
    requires
        token >= 0,
        0 <= i < d.n_expert_used,
        (token + 1) * d.n_expert_used <= layer.ffn_gate_tid2eid.content().len() / 4,
    ensures
        in_table(layer, d, token),
        ({
            let b = layer.ffn_gate_tid2eid.content();
            let at = 4 * (token * d.n_expert_used + i);
            &&& b[at + 3] < 0x80 ==> table_entry(layer, token * d.n_expert_used + i) == b[at] + 0x100
                * b[at + 1] + 0x1_0000 * b[at + 2] + 0x100_0000 * b[at + 3]
            &&& b[at + 3] >= 0x80 ==> table_entry(layer, token * d.n_expert_used + i) == (b[at]
                + 0x100 * b[at + 1] + 0x1_0000 * b[at + 2] + 0x100_0000 * b[at + 3]
                - 0x1_0000_0000) as i32 as usize
        }),
{
    let n = d.n_expert_used as int;
    assert(0 <= token * n && (token + 1) * n == token * n + n) by (nonlinear_arith)
        requires
            token >= 0,
            n >= 0,
    ;
    law_numbers(layer.ffn_gate_tid2eid.content(), token * n + i);
    let v = numbers(layer.ffn_gate_tid2eid.content(), 4)[token * n + i] as u32;
    assert((v as i32) as i64 == v as i64 - if v >= 0x8000_0000 {
        0x1_0000_0000i64
    } else {
        0
    }) by (bit_vector);
}

/// A token below zero, or behind the end of the table, is in no table.
pub proof fn law_outside_table(layer: &LayerWeights, d: Dims, token: i32)
    requires
        token < 0 || layer.ffn_gate_tid2eid.content().len() / 4 <= token * d.n_expert_used,
    ensures
        !in_table(layer, d, token),
{
}

/// Hashing sends a token to as many experts as are used, each of them one that there is.
pub proof fn law_hashed_experts(d: Dims, token: i32, i: int)
    requires
        d.n_expert > 0,
        0 <= i < d.n_expert_used,
    ensures
        hashed_experts(d, token).len() == d.n_expert_used,
        0 <= hashed_experts(d, token)[i] < d.n_expert,
        hashed_experts(d, token)[i] == crate::mixed_hash(token, i as u32) % d.n_expert as u64,
{
}

/// While there are no more rows than may be attended to, all are allowed. With more, as many as may
/// be are, and none that is not allowed is greater than one that is.
pub proof fn law_allowed_rows(scores: Seq<u32>, top_k: nat, i: int, j: int)
    requires
        0 <= i < scores.len(),
        0 <= j < scores.len(),
        forall|c: int| 0 <= c < scores.len() ==> counts(#[trigger] scores[c]),
    ensures
        allowed_rows(scores, top_k).len() == scores.len(),
        scores.len() <= top_k ==> allowed_rows(scores, top_k)[i],
        scores.len() > top_k ==> taken_count(allowed_rows(scores, top_k)) == top_k,
        allowed_rows(scores, top_k)[i] && !allowed_rows(scores, top_k)[j] ==> float_value(scores[j])
            <= float_value(scores[i]) && (float_value(scores[j]) == float_value(scores[i]) ==> i < j),
{
    if scores.len() > top_k {
        law_greatest_are_taken(scores, top_k);
        law_order_is_by_value(scores[j], scores[i]);
    }
}

} // verus!

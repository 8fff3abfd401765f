//! What ranking promises: the greatest values come first, by the values that the patterns stand for,
//! and the random numbers and hashes lose nothing of what they are made from.
use crate::{compress_ratio, mixed_hash};
use crate::half::is_nan;
use crate::half_laws::{float_value, law_order_is_by_value};
use crate::rank::{
    counts, is_pick, is_ranking, kept_greatest, law_pick_exists, law_ranking_unique, leader, marked,
    none_taken, pick, picks, ranking, ranks_before, xorshift,
};
use vstd::prelude::*;

verus! {

/// A value takes part where it is a number above minus infinity.
pub proof fn law_counts(v: u32)
    ensures
        counts(v) <==> !is_nan(v) && v != 0xff80_0000,
{
}

/// The leader is the first of the greatest values: no value is greater, and every one before it is
/// less. Without a value above minus infinity it is the first place.
pub proof fn law_leader_is_greatest(values: Seq<u32>, j: int)
    requires
        0 <= j < values.len(),
    ensures
        0 <= leader(values) < values.len(),
        counts(values[j]) ==> counts(values[leader(values)]) && float_value(values[j])
            <= float_value(values[leader(values)]) && (j < leader(values) ==> float_value(values[j])
            < float_value(values[leader(values)])),
        !counts(values[leader(values)]) ==> leader(values) == 0,
{
    let t = none_taken(values.len());
    law_pick_exists(values, t);
    if counts(values[j]) {
        assert(!t[j]);
    }
    match pick(values, t) {
        Some(i) => {
            assert(is_pick(values, t, i));
            law_order_is_by_value(values[j], values[i]);
        },
        None => {},
    }
}

/// The picks descend, and what is not picked is no greater than what is: with equal values the
/// earlier place comes first. Fewer than asked for are picked only where nothing is left.
pub proof fn law_picks_descend(values: Seq<u32>, k: nat)
    ensures
        picks(values, k).len() <= k,
        forall|a: int|
            0 <= a < picks(values, k).len() ==> 0 <= #[trigger] picks(values, k)[a] < values.len()
                && counts(values[picks(values, k)[a]]),
        forall|a: int, j: int|
            #![trigger picks(values, k)[a], values[j]]
            0 <= a < picks(values, k).len() && 0 <= j < values.len() && counts(values[j])
                && !picks(values, k).take(a).contains(j) && j != picks(values, k)[a] ==> {
                let i = picks(values, k)[a];
                float_value(values[i]) > float_value(values[j]) || float_value(values[i])
                    == float_value(values[j]) && i < j
            },
        picks(values, k).len() < k ==> forall|j: int|
            0 <= j < values.len() && counts(#[trigger] values[j]) ==> picks(values, k).contains(j),
    decreases k,
{
    if k > 0 {
        let front = picks(values, (k - 1) as nat);
        law_picks_descend(values, (k - 1) as nat);
        let all = picks(values, k);
        if front.len() == k - 1 {
            let t = marked(values.len(), front);
            law_pick_exists(values, t);
            match pick(values, t) {
                Some(n) => {
                    assert(is_pick(values, t, n));
                    assert(all == front.push(n));
                    assert forall|a: int, j: int|
                        #![trigger all[a], values[j]]
                        0 <= a < all.len() && 0 <= j < values.len() && counts(values[j])
                            && !all.take(a).contains(j) && j != all[a] implies {
                        let i = all[a];
                        float_value(values[i]) > float_value(values[j]) || float_value(values[i])
                            == float_value(values[j]) && i < j
                    } by {
                        if a < front.len() {
                            assert(all.take(a) =~= front.take(a));
                            assert(front[a] == all[a]);
                        } else {
                            assert(all.take(a) =~= front);
                            assert(!t[j]);
                            law_order_is_by_value(values[j], values[n]);
                        }
                    }
                    assert forall|a: int| 0 <= a < all.len() implies 0 <= #[trigger] all[a]
                        < values.len() && counts(values[all[a]]) by {
                        if a < front.len() {
                            assert(front[a] == all[a]);
                        }
                    }
                },
                None => {
                    assert(all == front);
                    assert forall|j: int|
                        0 <= j < values.len() && counts(#[trigger] values[j]) implies all.contains(
                        j,
                    ) by {
                        if !front.contains(j) {
                            assert(!t[j]);
                        }
                    }
                },
            }
        }
    }
}

/// A ranking goes from the greatest value to the least, and what is no number comes last. What is
/// equal keeps its order.
pub proof fn law_ranking_descends(values: Seq<u32>, r: Seq<usize>, i: int, j: int)
    requires
        is_ranking(values, r, 0, values.len() as int),
        0 <= i < j < r.len(),
    ensures
        r.len() == values.len(),
        r[i] < values.len() && r[j] < values.len() && r[i] != r[j],
        is_nan(values[r[i] as int]) ==> is_nan(values[r[j] as int]),
        !is_nan(values[r[j] as int]) ==> float_value(values[r[i] as int]) >= float_value(
            values[r[j] as int],
        ),
        is_nan(values[r[i] as int]) || !is_nan(values[r[j] as int]) && float_value(
            values[r[i] as int],
        ) == float_value(values[r[j] as int]) ==> r[i] < r[j],
{
    let a = r[i] as int;
    let b = r[j] as int;
    assert(ranks_before(values, a, b));
    law_order_is_by_value(values[a], values[b]);
    law_order_is_by_value(values[b], values[a]);
}

/// Keeping the greatest `k` values keeps each of the first `k` of a ranking as it is, and what it
/// drops is less than all of these. What it keeps, it keeps unchanged.
pub proof fn law_greatest_are_kept(values: Seq<u32>, r: Seq<usize>, k: int, i: int)
    requires
        values.len() <= usize::MAX,
        is_ranking(values, r, 0, values.len() as int),
        1 <= k <= values.len(),
        0 <= i < values.len(),
        !is_nan(values[r[k - 1] as int]),
    ensures
        kept_greatest(values, k).len() == values.len(),
        i < k ==> kept_greatest(values, k)[r[i] as int] == values[r[i] as int],
        kept_greatest(values, k)[i] == values[i] || kept_greatest(values, k)[i] == 0xff80_0000
            && !is_nan(values[i]) && float_value(values[i]) < float_value(values[r[k - 1] as int]),
        !is_nan(values[i]) && float_value(values[i]) < float_value(values[r[k - 1] as int])
            ==> kept_greatest(values, k)[i] == 0xff80_0000,
{
    let q = ranking(values);
    assert(is_ranking(values, q, 0, values.len() as int));
    law_ranking_unique(values, q, r);
    let threshold = values[r[k - 1] as int];
    law_order_is_by_value(threshold, values[i]);
    if i < k {
        let v = values[r[i] as int];
        law_order_is_by_value(threshold, v);
        if i < k - 1 {
            law_ranking_descends(values, r, i, k - 1);
        }
    }
}

// Mixing of bits

/// A step of the random number generator can be undone: the state before it is found from the one
/// behind it by undoing a shift by 5 to the left, one by 17 to the right and one by 13 to the left.
pub proof fn law_xorshift_undone(x: u64)
    ensures
        ({
            let y = xorshift(x);
            let b = y ^ (y << 5) ^ (y << 10) ^ (y << 15) ^ (y << 20) ^ (y << 25) ^ (y << 30) ^ (y
                << 35) ^ (y << 40) ^ (y << 45) ^ (y << 50) ^ (y << 55) ^ (y << 60);
            let a = b ^ (b >> 17) ^ (b >> 34) ^ (b >> 51);
            a ^ (a << 13) ^ (a << 26) ^ (a << 39) ^ (a << 52) == x
        }),
{
    assert(({
        let p = x ^ (x << 13);
        let q = p ^ (p >> 17);
        let y = q ^ (q << 5);
        let b = y ^ (y << 5) ^ (y << 10) ^ (y << 15) ^ (y << 20) ^ (y << 25) ^ (y << 30) ^ (y << 35)
            ^ (y << 40) ^ (y << 45) ^ (y << 50) ^ (y << 55) ^ (y << 60);
        let a = b ^ (b >> 17) ^ (b >> 34) ^ (b >> 51);
        a ^ (a << 13) ^ (a << 26) ^ (a << 39) ^ (a << 52) == x
    })) by (bit_vector);
}

/// The hash of a token and a router can be undone, step by step: undoing a shift by 16, dividing by
/// the second multiplier, undoing a shift by 13, dividing by the first, and undoing a shift by 16
/// gives the token's bits, mixed with a constant, plus the router.
pub proof fn law_hash_undone(token: i32, router_idx: u32)
    ensures
        ({
            let h = mixed_hash(token, router_idx);
            let c = h ^ (h >> 16) ^ (h >> 32) ^ (h >> 48);
            let q = (c as int * 0xd16e308e7ed1b41d % 0x1_0000_0000_0000_0000) as u64;
            let b = q ^ (q >> 13) ^ (q >> 26) ^ (q >> 39) ^ (q >> 52);
            let p = (b as int * 0x59ebd4deb6c92f47 % 0x1_0000_0000_0000_0000) as u64;
            let a = p ^ (p >> 16) ^ (p >> 32) ^ (p >> 48);
            a == ((token as u32) ^ 0x9E3779B9u32) + router_idx
        }),
{
    let t = token as u32;
    let a = ((t as u64) ^ 0x9E3779B9u64).wrapping_add(router_idx as u64);
    assert((t as u64) ^ 0x9E3779B9u64 == (t ^ 0x9E3779B9u32) as u64) by (bit_vector);
    assert(a == (t ^ 0x9E3779B9u32) + router_idx);
    let p = a ^ (a >> 16);
    lemma_unshift16(a);
    let b = p.wrapping_mul(0x85EBCA77u64);
    lemma_unmultiply(p, 0x85EBCA77, 0x59ebd4deb6c92f47);
    let q = b ^ (b >> 13);
    assert(({
        let y = b ^ (b >> 13);
        y ^ (y >> 13) ^ (y >> 26) ^ (y >> 39) ^ (y >> 52) == b
    })) by (bit_vector);
    let c = q.wrapping_mul(0xC2B2AE35u64);
    lemma_unmultiply(q, 0xC2B2AE35, 0xd16e308e7ed1b41d);
    lemma_unshift16(c);
    assert(mixed_hash(token, router_idx) == c ^ (c >> 16));
}

proof fn lemma_unshift16(x: u64)
    ensures
        ({
            let y = x ^ (x >> 16);
            y ^ (y >> 16) ^ (y >> 32) ^ (y >> 48) == x
        }),
{
    assert(({
        let y = x ^ (x >> 16);
        y ^ (y >> 16) ^ (y >> 32) ^ (y >> 48) == x
    })) by (bit_vector);
}

/// A factor and its inverse among the numbers of 64 bits.
proof fn lemma_unmultiply(x: u64, k: u64, inverse: int)
    requires
        k as int * inverse % 0x1_0000_0000_0000_0000 == 1,
    ensures
        x.wrapping_mul(k) as int * inverse % 0x1_0000_0000_0000_0000 == x,
{
    let m = 0x1_0000_0000_0000_0000int;
    let y = x.wrapping_mul(k) as int;
    assert(y == x * k % m);
    vstd::arithmetic::div_mod::lemma_mul_mod_noop_left(x * k, inverse, m);
    assert(x * k * inverse == x * (k * inverse)) by (nonlinear_arith);
    vstd::arithmetic::div_mod::lemma_mul_mod_noop_right(x as int, k * inverse, m);
    assert(x * 1 == x);
    vstd::arithmetic::div_mod::lemma_small_mod(x as nat, m as nat);
}

/// Compression begins with the third layer and takes two ratios in turn.
pub proof fn law_compress_ratio(il: u32)
    requires
        il < u32::MAX - 2,
    ensures
        compress_ratio(il) == 0 <==> il < 2,
        il >= 2 ==> compress_ratio((il + 2) as u32) == compress_ratio(il) && compress_ratio(il)
            * compress_ratio((il + 1) as u32) == 4 * 128,
        il >= 2 && il % 2 == 0 ==> compress_ratio(il) < compress_ratio((il + 1) as u32) && 32
            * compress_ratio(il) == compress_ratio((il + 1) as u32),
{
}

} // verus!

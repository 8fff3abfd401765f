//! Picking and ranking by float values that are given as bit patterns.
use crate::half::{float_gt, is_float_gt, is_nan, order_key, NEG_INFINITY_BITS};
use vstd::prelude::*;

verus! {

/// A value that can be picked: greater than negative infinity.
pub open spec fn counts(v: u32) -> bool {
    float_gt(v, NEG_INFINITY_BITS)
}

/// `i` is the pick among what is not taken: the first of the greatest values above negative
/// infinity.
pub open spec fn is_pick(values: Seq<u32>, taken: Seq<bool>, i: int) -> bool {
    &&& 0 <= i < values.len()
    &&& !taken[i]
    &&& counts(values[i])
    &&& forall|j: int|
        0 <= j < values.len() && !taken[j] && counts(#[trigger] values[j]) ==> order_key(values[j])
            < order_key(values[i]) || order_key(values[j]) == order_key(values[i]) && i <= j
}

/// The pick among what is not taken, if there is one.
pub open spec fn pick(values: Seq<u32>, taken: Seq<bool>) -> Option<int> {
    if exists|i: int| is_pick(values, taken, i) {
        Some(choose|i: int| is_pick(values, taken, i))
    } else {
        None
    }
}

proof fn lemma_pick(values: Seq<u32>, taken: Seq<bool>, i: int)
    requires
        is_pick(values, taken, i),
    ensures
        pick(values, taken) == Some(i),
{
    let k = choose|k: int| is_pick(values, taken, k);
    assert(is_pick(values, taken, k));
    assert(counts(values[i]) && counts(values[k]));
}

/// There is a pick exactly if something that is not taken counts.
pub proof fn law_pick_exists(values: Seq<u32>, taken: Seq<bool>)
    requires
        taken.len() == values.len(),
    ensures
        pick(values, taken) is Some <==> exists|i: int|
            0 <= i < values.len() && !taken[i] && counts(#[trigger] values[i]),
        pick(values, taken) matches Some(i) ==> is_pick(values, taken, i),
{
    if exists|i: int| 0 <= i < values.len() && !taken[i] && counts(#[trigger] values[i]) {
        lemma_pick_below(values, taken, values.len());
    }
    if exists|i: int| is_pick(values, taken, i) {
        let i = choose|i: int| is_pick(values, taken, i);
        assert(counts(values[i]));
    }
}

proof fn lemma_pick_below(values: Seq<u32>, taken: Seq<bool>, n: nat)
    requires
        taken.len() == values.len(),
        n <= values.len(),
        exists|i: int| 0 <= i < n && !taken[i] && counts(#[trigger] values[i]),
    ensures
        exists|i: int| #[trigger] is_pick(values.take(n as int), taken.take(n as int), i),
        n == values.len() ==> exists|i: int| is_pick(values, taken, i),
    decreases n,
{
    let v = values.take(n as int);
    let t = taken.take(n as int);
    let m = (n - 1) as nat;
    if exists|i: int| 0 <= i < m && !taken[i] && counts(#[trigger] values[i]) {
        lemma_pick_below(values, taken, m);
        let k = choose|k: int|
            #[trigger] is_pick(values.take(m as int), taken.take(m as int), k);
        let w = values.take(m as int);
        assert(w[k] == values[k] && counts(w[k]));
        assert forall|j: int| 0 <= j < m && !taken[j] && counts(#[trigger] values[j]) implies (
        order_key(values[j]) < order_key(values[k]) || order_key(values[j]) == order_key(
            values[k],
        ) && k <= j) by {
            assert(w[j] == values[j]);
        }
        if !taken[m as int] && counts(values[m as int]) && order_key(values[m as int])
            > order_key(values[k]) {
            assert(is_pick(v, t, m as int));
        } else {
            assert(is_pick(v, t, k));
        }
    } else {
        assert(is_pick(v, t, m as int));
    }
    if n == values.len() {
        assert(v =~= values);
        assert(t =~= taken);
    }
}

/// Find the pick among what is not taken.
pub fn pick_best(values: &[u32], taken: &[bool]) -> (r: Option<usize>)
    requires
        taken@.len() == values@.len(),
    ensures
        r matches Some(i) ==> is_pick(values@, taken@, i as int) && pick(values@, taken@) == Some(
            i as int,
        ),
        r is None ==> pick(values@, taken@) is None,
        r is None ==> forall|j: int|
            0 <= j < values@.len() && !taken@[j] ==> !counts(#[trigger] values@[j]),
{
    let mut best: Option<usize> = None;
    let mut best_val: u32 = NEG_INFINITY_BITS;
    let mut i: usize = 0;
    while i < values.len()
        invariant
            i <= values@.len(),
            taken@.len() == values@.len(),
            best is None ==> best_val == NEG_INFINITY_BITS,
            best is None ==> forall|j: int|
                0 <= j < i && !taken@[j] ==> !counts(#[trigger] values@[j]),
            best matches Some(k) ==> {
                &&& k < i
                &&& !taken@[k as int]
                &&& best_val == values@[k as int]
                &&& counts(values@[k as int])
                &&& forall|j: int|
                    0 <= j < i && !taken@[j] && counts(#[trigger] values@[j]) ==> order_key(
                        values@[j],
                    ) < order_key(best_val) || order_key(values@[j]) == order_key(best_val) && k
                        <= j
            },
        decreases values@.len() - i,
    {
        if !taken[i] && is_float_gt(values[i], best_val) {
            best_val = values[i];
            best = Some(i);
        }
        i = i + 1;
    }
    proof {
        match best {
            Some(k) => {
                assert(is_pick(values@, taken@, k as int));
                lemma_pick(values@, taken@, k as int);
            },
            None => {
                if exists|i: int| is_pick(values@, taken@, i) {
                    let i = choose|i: int| is_pick(values@, taken@, i);
                    assert(counts(values@[i]));
                }
            },
        }
    }
    best
}

/// Nothing taken.
pub open spec fn none_taken(n: nat) -> Seq<bool> {
    Seq::new(n, |i: int| false)
}

/// The index of the first greatest value; 0 if no value is above negative infinity.
pub open spec fn leader(values: Seq<u32>) -> int {
    match pick(values, none_taken(values.len())) {
        Some(i) => i,
        None => 0,
    }
}

fn all_false(n: usize) -> (r: Vec<bool>)
    ensures
        r@ == none_taken(n as nat),
{
    let mut r: Vec<bool> = Vec::new();
    let mut i: usize = 0;
    while i < n
        invariant
            i <= n,
            r@ =~= none_taken(i as nat),
        decreases n - i,
    {
        r.push(false);
        i = i + 1;
    }
    r
}

/// Find the index of the first greatest value.
pub fn find_leader(values: &[u32]) -> (r: usize)
    ensures
        r == leader(values@),
        values@.len() > 0 ==> r < values@.len(),
{
    let taken = all_false(values.len());
    match pick_best(values, taken.as_slice()) {
        Some(i) => i,
        None => 0,
    }
}

/// What is taken after `k` picks. A pick that finds nothing takes index 0.
pub open spec fn taken_after(values: Seq<u32>, k: nat) -> Seq<bool>
    decreases k,
{
    if k == 0 {
        none_taken(values.len())
    } else {
        let t = taken_after(values, (k - 1) as nat);
        t.update(
            match pick(values, t) {
                Some(i) => i,
                None => 0,
            },
            true,
        )
    }
}

/// Take the `k` greatest values, one pick after the other.
pub fn take_greatest(values: &[u32], k: usize) -> (r: Vec<bool>)
    requires
        values@.len() > 0,
    ensures
        r@ == taken_after(values@, k as nat),
        r@.len() == values@.len(),
{
    let mut taken = all_false(values.len());
    let mut n: usize = 0;
    while n < k
        invariant
            n <= k,
            values@.len() > 0,
            taken@.len() == values@.len(),
            taken@ == taken_after(values@, n as nat),
        decreases k - n,
    {
        let i: usize = match pick_best(values, taken.as_slice()) {
            Some(i) => i,
            None => 0,
        };
        taken.set(i, true);
        n = n + 1;
    }
    taken
}

/// How many are taken.
pub open spec fn taken_count(t: Seq<bool>) -> nat
    decreases t.len(),
{
    if t.len() == 0 {
        0
    } else {
        taken_count(t.drop_last()) + if t.last() {
            1nat
        } else {
            0nat
        }
    }
}

proof fn lemma_count_update(t: Seq<bool>, i: int)
    requires
        0 <= i < t.len(),
        !t[i],
    ensures
        taken_count(t.update(i, true)) == taken_count(t) + 1,
    decreases t.len(),
{
    let u = t.update(i, true);
    if i == t.len() - 1 {
        assert(u.drop_last() =~= t.drop_last());
    } else {
        assert(u.drop_last() =~= t.drop_last().update(i, true));
        lemma_count_update(t.drop_last(), i);
    }
}

proof fn lemma_count_none(n: nat)
    ensures
        taken_count(none_taken(n)) == 0,
    decreases n,
{
    if n > 0 {
        assert(none_taken(n).drop_last() =~= none_taken((n - 1) as nat));
        lemma_count_none((n - 1) as nat);
    }
}

proof fn lemma_count_full(t: Seq<bool>)
    requires
        forall|i: int| 0 <= i < t.len() ==> #[trigger] t[i],
    ensures
        taken_count(t) == t.len(),
    decreases t.len(),
{
    if t.len() > 0 {
        assert(t[t.len() - 1]);
        assert forall|i: int| 0 <= i < t.drop_last().len() implies #[trigger] t.drop_last()[i] by {
            assert(t[i]);
        }
        lemma_count_full(t.drop_last());
    }
}

/// If every value counts, `k` picks take exactly `k` of them. None that is left is greater than one
/// that is taken, and of equal values the first ones are taken.
pub proof fn law_greatest_are_taken(values: Seq<u32>, k: nat)
    requires
        k <= values.len(),
        forall|i: int| 0 <= i < values.len() ==> counts(#[trigger] values[i]),
    ensures
        taken_count(taken_after(values, k)) == k,
        taken_after(values, k).len() == values.len(),
        forall|i: int, j: int|
            0 <= i < values.len() && 0 <= j < values.len() && taken_after(values, k)[i]
                && !taken_after(values, k)[j] ==> order_key(#[trigger] values[j]) < order_key(
                #[trigger] values[i],
            ) || order_key(values[j]) == order_key(values[i]) && i < j,
    decreases k,
{
    if k == 0 {
        lemma_count_none(values.len());
    } else {
        let t = taken_after(values, (k - 1) as nat);
        law_greatest_are_taken(values, (k - 1) as nat);
        if forall|i: int| 0 <= i < t.len() ==> #[trigger] t[i] {
            lemma_count_full(t);
        }
        let f = choose|i: int| 0 <= i < t.len() && !#[trigger] t[i];
        assert(counts(values[f]));
        law_pick_exists(values, t);
        let i = pick(values, t)->0;
        assert(is_pick(values, t, i));
        lemma_count_update(t, i);
        let u = taken_after(values, k);
        assert(u == t.update(i, true));
        assert forall|a: int, b: int|
            0 <= a < values.len() && 0 <= b < values.len() && u[a] && !u[b] implies order_key(
            #[trigger] values[b],
        ) < order_key(#[trigger] values[a]) || order_key(values[b]) == order_key(values[a]) && a
            < b by {
            assert(!t[b] && counts(values[b]));
            if a != i {
                assert(t[a]);
            }
        }
    }
}

/// The picks, one after the other, until `k` are made or nothing is left to pick.
pub open spec fn picks(values: Seq<u32>, k: nat) -> Seq<int>
    decreases k,
{
    if k == 0 {
        seq![]
    } else {
        let front = picks(values, (k - 1) as nat);
        if front.len() < k - 1 {
            front
        } else {
            match pick(values, marked(values.len(), front)) {
                Some(i) => front.push(i),
                None => front,
            }
        }
    }
}

/// No more picks than were asked for.
pub(crate) proof fn lemma_picks_len(values: Seq<u32>, k: nat)
    ensures
        picks(values, k).len() <= k,
    decreases k,
{
    if k > 0 {
        lemma_picks_len(values, (k - 1) as nat);
    }
}

/// The indices in a list are taken.
pub open spec fn marked(n: nat, list: Seq<int>) -> Seq<bool> {
    Seq::new(n, |i: int| list.contains(i))
}

/// The first greatest values in order of greatness, at most `k`.
pub fn pick_many(values: &[u32], k: usize) -> (r: Vec<usize>)
    ensures
        Seq::new(r@.len(), |i: int| r@[i] as int) == picks(values@, k as nat),
{
    let mut taken = all_false(values.len());
    let mut r: Vec<usize> = Vec::new();
    let mut n: usize = 0;
    let ghost mut list: Seq<int> = seq![];
    assert(taken@ =~= marked(values@.len(), list));
    assert(Seq::new(r@.len(), |i: int| r@[i] as int) =~= list);
    while n < k
        invariant
            n <= k,
            taken@.len() == values@.len(),
            r@.len() == n,
            list == picks(values@, n as nat),
            list.len() == n,
            list =~= Seq::new(r@.len(), |i: int| r@[i] as int),
            taken@ =~= marked(values@.len(), list),
        decreases k - n,
    {
        match pick_best(values, taken.as_slice()) {
            Some(i) => {
                taken.set(i, true);
                r.push(i);
                proof {
                    let next = list.push(i as int);
                    assert(next == picks(values@, (n + 1) as nat));
                    assert forall|x: int| next.contains(x) <==> list.contains(x) || x == i by {
                        if list.contains(x) {
                            let p = choose|p: int| 0 <= p < list.len() && list[p] == x;
                            assert(next[p] == x);
                        }
                        if x == i {
                            assert(next[next.len() - 1] == x);
                        }
                    }
                    assert(taken@ =~= marked(values@.len(), next));
                    list = next;
                }
            },
            None => {
                proof {
                    lemma_picks_stop(values@, n as nat, k as nat);
                }
                return r;
            },
        }
        n = n + 1;
    }
    r
}

proof fn lemma_picks_stop(values: Seq<u32>, n: nat, k: nat)
    requires
        n < k,
        picks(values, n).len() == n,
        pick(values, marked(values.len(), picks(values, n))) is None,
    ensures
        picks(values, k) == picks(values, n),
    decreases k,
{
    if k > n + 1 {
        lemma_picks_stop(values, n, (k - 1) as nat);
    }
}

// Ranking

/// Where a value ranks; NaN ranks below every number.
pub open spec fn rank_key(v: u32) -> int {
    if is_nan(v) {
        -0x1_0000_0000
    } else {
        order_key(v)
    }
}

/// `a` stands before `b` in a ranking: it has the greater value, or the same and the lower index.
pub open spec fn ranks_before(values: Seq<u32>, a: int, b: int) -> bool {
    rank_key(values[a]) > rank_key(values[b]) || rank_key(values[a]) == rank_key(values[b]) && a < b
}

/// `r` lists the indices `lo..hi` by descending value, equal values in their order.
pub open spec fn is_ranking(values: Seq<u32>, r: Seq<usize>, lo: int, hi: int) -> bool {
    &&& r.len() == hi - lo
    &&& forall|i: int| 0 <= i < r.len() ==> lo <= #[trigger] r[i] < hi
    &&& forall|k: int| lo <= k < hi ==> #[trigger] r.contains(k as usize)
    &&& forall|i: int, j: int|
        0 <= i < j < r.len() ==> ranks_before(
            values,
            (#[trigger] r[i]) as int,
            (#[trigger] r[j]) as int,
        )
}

/// The ranking of values.
pub open spec fn ranking(values: Seq<u32>) -> Seq<usize> {
    choose|r: Seq<usize>| is_ranking(values, r, 0, values.len() as int)
}

fn key_of(v: u32) -> (k: i64)
    ensures
        k == rank_key(v),
{
    if v % 0x8000_0000 > 0x7f80_0000 {
        -0x1_0000_0000
    } else if v < 0x8000_0000 {
        v as i64
    } else {
        0x8000_0000 - v as i64
    }
}

fn rank_range(values: &[u32], lo: usize, hi: usize) -> (r: Vec<usize>)
    requires
        lo <= hi <= values@.len(),
    ensures
        is_ranking(values@, r@, lo as int, hi as int),
    decreases hi - lo,
{
    if hi - lo == 0 {
        return Vec::new();
    }
    if hi - lo == 1 {
        let mut one: Vec<usize> = Vec::new();
        one.push(lo);
        assert(one@[0] == lo);
        assert(one@.contains(lo));
        return one;
    }
    let mid: usize = lo + (hi - lo) / 2;
    let a = rank_range(values, lo, mid);
    let b = rank_range(values, mid, hi);
    merge_rankings(values, &a, &b, lo, mid, hi)
}

fn merge_rankings(
    values: &[u32],
    a: &Vec<usize>,
    b: &Vec<usize>,
    lo: usize,
    mid: usize,
    hi: usize,
) -> (r: Vec<usize>)
    requires
        lo <= mid <= hi <= values@.len(),
        is_ranking(values@, a@, lo as int, mid as int),
        is_ranking(values@, b@, mid as int, hi as int),
    ensures
        is_ranking(values@, r@, lo as int, hi as int),
{
    let mut r: Vec<usize> = Vec::new();
    let mut i: usize = 0;
    let mut j: usize = 0;
    while i < a.len() || j < b.len()
        invariant
            i <= a@.len(),
            j <= b@.len(),
            lo <= mid <= hi <= values@.len(),
            is_ranking(values@, a@, lo as int, mid as int),
            is_ranking(values@, b@, mid as int, hi as int),
            r@.len() == i + j,
            forall|k: int| 0 <= k < r@.len() ==> lo <= #[trigger] r@[k] < hi,
            forall|k: int| 0 <= k < i ==> r@.contains(#[trigger] a@[k]),
            forall|k: int| 0 <= k < j ==> r@.contains(#[trigger] b@[k]),
            forall|x: int, y: int|
                0 <= x < y < r@.len() ==> ranks_before(
                    values@,
                    (#[trigger] r@[x]) as int,
                    (#[trigger] r@[y]) as int,
                ),
            forall|x: int, k: int|
                0 <= x < r@.len() && i <= k < a@.len() ==> ranks_before(
                    values@,
                    (#[trigger] r@[x]) as int,
                    (#[trigger] a@[k]) as int,
                ),
            forall|x: int, k: int|
                0 <= x < r@.len() && j <= k < b@.len() ==> ranks_before(
                    values@,
                    (#[trigger] r@[x]) as int,
                    (#[trigger] b@[k]) as int,
                ),
        decreases a@.len() - i + b@.len() - j,
    {
        let ghost before = r@;
        let from_a: bool = if i == a.len() {
            false
        } else if j == b.len() {
            true
        } else {
            key_of(values[a[i]]) >= key_of(values[b[j]])
        };
        if from_a {
            assert(a@[i as int] < mid);
            assert forall|k: int| j <= k < b@.len() implies ranks_before(
                values@,
                a@[i as int] as int,
                (#[trigger] b@[k]) as int,
            ) by {
                if k > j {
                    assert(ranks_before(values@, b@[j as int] as int, b@[k] as int));
                }
                assert(mid <= b@[k]);
            }
            r.push(a[i]);
            i = i + 1;
            proof {
                lemma_push_contains(before, a@[i - 1]);
            }
        } else {
            assert(mid <= b@[j as int]);
            assert forall|k: int| i <= k < a@.len() implies ranks_before(
                values@,
                b@[j as int] as int,
                (#[trigger] a@[k]) as int,
            ) by {
                if k > i {
                    assert(ranks_before(values@, a@[i as int] as int, a@[k] as int));
                }
            }
            r.push(b[j]);
            j = j + 1;
            proof {
                lemma_push_contains(before, b@[j - 1]);
            }
        }
    }
    proof {
        assert forall|k: int| lo <= k < hi implies #[trigger] r@.contains(k as usize) by {
            if k < mid {
                assert(a@.contains(k as usize));
                let x = choose|x: int| 0 <= x < a@.len() && a@[x] == k as usize;
                assert(r@.contains(a@[x]));
            } else {
                assert(b@.contains(k as usize));
                let x = choose|x: int| 0 <= x < b@.len() && b@[x] == k as usize;
                assert(r@.contains(b@[x]));
            }
        }
    }
    r
}

proof fn lemma_push_contains(s: Seq<usize>, x: usize)
    ensures
        s.push(x).contains(x),
        forall|y: usize| s.contains(y) ==> #[trigger] s.push(x).contains(y),
{
    assert(s.push(x)[s.len() as int] == x);
    assert forall|y: usize| s.contains(y) implies #[trigger] s.push(x).contains(y) by {
        let p = choose|p: int| 0 <= p < s.len() && s[p] == y;
        assert(s.push(x)[p] == y);
    }
}

/// List the indices of values by descending value, equal values in their order.
pub fn rank_descending(values: &[u32]) -> (r: Vec<usize>)
    ensures
        is_ranking(values@, r@, 0, values@.len() as int),
        r@ == ranking(values@),
{
    let r = rank_range(values, 0, values.len());
    proof {
        law_ranking_unique(values@, r@, ranking(values@));
    }
    r
}

/// There is only one ranking.
pub proof fn law_ranking_unique(values: Seq<u32>, a: Seq<usize>, b: Seq<usize>)
    requires
        values.len() <= usize::MAX,
        is_ranking(values, a, 0, values.len() as int),
        is_ranking(values, b, 0, values.len() as int),
    ensures
        a == b,
{
    assert forall|i: int| 0 <= i < a.len() implies a[i] == b[i] by {
        lemma_same_rank(values, a, b, i);
    }
    assert(a =~= b);
}

proof fn lemma_same_rank(values: Seq<u32>, a: Seq<usize>, b: Seq<usize>, i: int)
    requires
        values.len() <= usize::MAX,
        is_ranking(values, a, 0, values.len() as int),
        is_ranking(values, b, 0, values.len() as int),
        0 <= i < a.len(),
    ensures
        a[i] == b[i],
    decreases i,
{
    assert forall|k: int| 0 <= k < i implies a[k] == b[k] by {
        lemma_same_rank(values, a, b, k);
    }
    assert(b.contains(a[i] as int as usize));
    let p = choose|p: int| 0 <= p < b.len() && b[p] == a[i];
    assert(a.contains(b[i] as int as usize));
    let q = choose|q: int| 0 <= q < a.len() && a[q] == b[i];
    if p < i {
        assert(a[p] == b[p]);
        assert(ranks_before(values, a[p] as int, a[i] as int));
    }
    if q < i {
        assert(a[q] == b[q]);
        assert(ranks_before(values, b[q] as int, b[i] as int));
    }
    if p > i && q > i {
        assert(ranks_before(values, b[i] as int, b[p] as int));
        assert(ranks_before(values, a[i] as int, a[q] as int));
    }
}

/// What is left of values after keeping the `k` greatest: whatever is less than the `k`-th in the
/// ranking becomes negative infinity.
pub open spec fn kept_greatest(values: Seq<u32>, k: int) -> Seq<u32> {
    let threshold = values[ranking(values)[k - 1] as int];
    Seq::new(
        values.len(),
        |i: int|
            if float_gt(threshold, values[i]) {
                NEG_INFINITY_BITS
            } else {
                values[i]
            },
    )
}

/// Keep the `k` greatest values and set the others to negative infinity. With `k` 0, or `k` not
/// below the number of values, nothing changes.
pub fn keep_top_k(values: &mut Vec<u32>, k: usize)
    ensures
        (k == 0 || k >= old(values)@.len()) ==> final(values)@ == old(values)@,
        0 < k < old(values)@.len() ==> final(values)@ == kept_greatest(old(values)@, k as int),
{
    let n: usize = values.len();
    if k == 0 || k >= n {
        return;
    }
    let order = rank_descending(values.as_slice());
    let threshold: u32 = values[order[k - 1]];
    let mut i: usize = 0;
    while i < n
        invariant
            i <= n,
            0 < k < n,
            n == old(values)@.len(),
            values@.len() == n,
            threshold == old(values)@[ranking(old(values)@)[k - 1] as int],
            forall|j: int| 0 <= j < i ==> values@[j] == kept_greatest(old(values)@, k as int)[j],
            forall|j: int| i <= j < n ==> values@[j] == old(values)@[j],
        decreases n - i,
    {
        if is_float_gt(threshold, values[i]) {
            values.set(i, NEG_INFINITY_BITS);
        }
        i = i + 1;
    }
    assert(values@ =~= kept_greatest(old(values)@, k as int));
}

/// One step of the xorshift random number generator.
pub open spec fn xorshift(x: u64) -> u64 {
    let a = x ^ (x << 13);
    let b = a ^ (a >> 17);
    b ^ (b << 5)
}

/// Step the random number generator.
pub fn next_random(rng: &mut u64)
    ensures
        *final(rng) == xorshift(*old(rng)),
{
    let a: u64 = *rng ^ (*rng << 13);
    let b: u64 = a ^ (a >> 17);
    *rng = b ^ (b << 5);
}

/// The random number generator maps zero to zero, and nothing else to zero.
pub proof fn law_xorshift_zero(x: u64)
    ensures
        xorshift(x) == 0 <==> x == 0,
{
    assert(({
        let a = x ^ (x << 13);
        let b = a ^ (a >> 17);
        b ^ (b << 5)
    }) == 0 <==> x == 0) by (bit_vector);
}

} // verus!

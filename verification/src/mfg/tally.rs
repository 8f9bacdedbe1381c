//! Counting through a grouping: what the lines of a list add up to.

use vstd::prelude::*;

use super::grouping::{firsts, firsts_upto, insert_stable, occurrences, seen_before, stable_order, tuple_less};

verus! {

/// The value at `i`, or nothing past the end.
pub open spec fn at(h: Seq<nat>, i: int) -> nat {
    if 0 <= i < h.len() {
        h[i]
    } else {
        0
    }
}

/// The weights of the first `n` entries with key `k`, added up.
pub open spec fn weight(ks: Seq<Seq<char>>, w: Seq<nat>, k: Seq<char>, n: int) -> nat
    decreases n,
{
    if n <= 0 {
        0
    } else {
        weight(ks, w, k, n - 1) + if ks[n - 1] == k {
            at(w, n - 1)
        } else {
            0nat
        }
    }
}

/// The first `n` weights, added up.
pub open spec fn total(w: Seq<nat>, n: int) -> nat
    decreases n,
{
    if n <= 0 {
        0
    } else {
        total(w, n - 1) + at(w, n - 1)
    }
}

/// The weights of the groups whose first entries are `fs`, added up.
pub open spec fn group_sum(ks: Seq<Seq<char>>, w: Seq<nat>, fs: Seq<int>, n: int) -> nat
    decreases fs.len(),
{
    if fs.len() == 0 {
        0
    } else {
        group_sum(ks, w, fs.drop_last(), n) + weight(ks, w, ks[fs.last()], n)
    }
}

/// The values at the positions `order`, added up.
pub open spec fn sum_at(order: Seq<int>, h: Seq<nat>) -> nat
    decreases order.len(),
{
    if order.len() == 0 {
        0
    } else {
        sum_at(order.drop_last(), h) + at(h, order.last())
    }
}

/// How many of the groups whose first entries are `fs` have key `k`.
pub open spec fn keyed(ks: Seq<Seq<char>>, fs: Seq<int>, k: Seq<char>) -> nat
    decreases fs.len(),
{
    if fs.len() == 0 {
        0
    } else {
        keyed(ks, fs.drop_last(), k) + if ks[fs.last()] == k {
            1nat
        } else {
            0nat
        }
    }
}

proof fn lemma_weight_absent(ks: Seq<Seq<char>>, w: Seq<nat>, k: Seq<char>, n: int)
    requires
        forall|i: int| 0 <= i < n ==> ks[i] != k,
    ensures
        weight(ks, w, k, n) == 0,
    decreases n,
{
    if n > 0 {
        lemma_weight_absent(ks, w, k, n - 1);
    }
}

proof fn lemma_keyed_once(ks: Seq<Seq<char>>, k: Seq<char>, m: int)
    requires
        0 <= m <= ks.len(),
    ensures
        keyed(ks, firsts_upto(ks, m), k) == if exists|i: int| 0 <= i < m && ks[i] == k {
            1nat
        } else {
            0nat
        },
    decreases m,
{
    if m > 0 {
        lemma_keyed_once(ks, k, m - 1);
        let f = firsts_upto(ks, m - 1);
        if seen_before(ks, m - 1) {
            if ks[m - 1] == k {
                let j = choose|j: int| 0 <= j < m - 1 && #[trigger] ks[j] == ks[m - 1];
                assert(exists|i: int| 0 <= i < m - 1 && ks[i] == k);
            }
            if exists|i: int| 0 <= i < m && ks[i] == k {
                let i = choose|i: int| 0 <= i < m && ks[i] == k;
                if i == m - 1 {
                    let j = choose|j: int| 0 <= j < m - 1 && #[trigger] ks[j] == ks[m - 1];
                    assert(0 <= j < m - 1 && ks[j] == k);
                } else {
                    assert(0 <= i < m - 1 && ks[i] == k);
                }
            }
        } else {
            assert(firsts_upto(ks, m).drop_last() =~= f);
            if ks[m - 1] == k {
                assert(!exists|i: int| 0 <= i < m - 1 && ks[i] == k);
            } else {
                if exists|i: int| 0 <= i < m && ks[i] == k {
                    let i = choose|i: int| 0 <= i < m && ks[i] == k;
                    assert(0 <= i < m - 1 && ks[i] == k);
                }
            }
        }
    }
}

proof fn lemma_group_sum_step(ks: Seq<Seq<char>>, w: Seq<nat>, fs: Seq<int>, n: int)
    requires
        0 < n <= ks.len(),
    ensures
        group_sum(ks, w, fs, n) == group_sum(ks, w, fs, n - 1) + at(w, n - 1) * keyed(ks, fs, ks[n - 1]),
    decreases fs.len(),
{
    if fs.len() > 0 {
        lemma_group_sum_step(ks, w, fs.drop_last(), n);
        let k = ks[fs.last()];
        let a = keyed(ks, fs.drop_last(), ks[n - 1]);
        let x = at(w, n - 1);
        let b: nat = if k == ks[n - 1] {
            1nat
        } else {
            0nat
        };
        assert(keyed(ks, fs, ks[n - 1]) == a + b);
        assert(weight(ks, w, k, n) == weight(ks, w, k, n - 1) + x * b) by {
            assert(x * 1nat == x && x * 0nat == 0) by (nonlinear_arith);
        }
        assert(x * (a + b) == x * a + x * b) by (nonlinear_arith);
        assert(group_sum(ks, w, fs, n) == group_sum(ks, w, fs.drop_last(), n) + weight(ks, w, k, n));
        assert(group_sum(ks, w, fs, n - 1) == group_sum(ks, w, fs.drop_last(), n - 1) + weight(ks, w, k, n - 1));
    } else {
        assert(keyed(ks, fs, ks[n - 1]) == 0);
        assert(at(w, n - 1) * 0nat == 0) by (nonlinear_arith);
    }
}

/// The groups of the first `n` entries weigh what the entries weigh: every entry is counted in
/// exactly one group.
pub proof fn lemma_groups_weigh_all(ks: Seq<Seq<char>>, w: Seq<nat>, n: int)
    requires
        0 <= n <= ks.len(),
    ensures
        group_sum(ks, w, firsts_upto(ks, n), n) == total(w, n),
    decreases n,
{
    if n > 0 {
        lemma_groups_weigh_all(ks, w, n - 1);
        let f = firsts_upto(ks, n - 1);
        let k = ks[n - 1];
        lemma_group_sum_step(ks, w, f, n);
        lemma_keyed_once(ks, k, n - 1);
        if seen_before(ks, n - 1) {
            let j = choose|j: int| 0 <= j < n - 1 && #[trigger] ks[j] == ks[n - 1];
            assert(exists|i: int| 0 <= i < n - 1 && ks[i] == k);
            assert(at(w, n - 1) * 1nat == at(w, n - 1)) by (nonlinear_arith);
        } else {
            assert(!exists|i: int| 0 <= i < n - 1 && ks[i] == k);
            assert(at(w, n - 1) * 0nat == 0) by (nonlinear_arith);
            let g = firsts_upto(ks, n);
            assert(g.drop_last() =~= f);
            lemma_weight_absent(ks, w, k, n - 1);
        }
    }
}

proof fn lemma_sum_at_insert(ks: Seq<Seq<Seq<char>>>, s: Seq<int>, x: int, h: Seq<nat>)
    ensures
        sum_at(insert_stable(ks, s, x), h) == sum_at(s, h) + at(h, x),
    decreases s.len(),
{
    if s.len() > 0 {
        if tuple_less(ks[x], ks[s.last()]) {
            lemma_sum_at_insert(ks, s.drop_last(), x, h);
            let r = insert_stable(ks, s.drop_last(), x).push(s.last());
            assert(r.drop_last() =~= insert_stable(ks, s.drop_last(), x));
        } else {
            assert(s.push(x).drop_last() =~= s);
        }
    } else {
        assert(seq![x].drop_last() =~= Seq::<int>::empty());
        assert(seq![x].last() == x);
        assert(insert_stable(ks, s, x) == seq![x]);
        assert(sum_at(Seq::<int>::empty(), h) == 0);
    }
}

/// Putting positions in order does not change what they add up to.
pub proof fn lemma_sum_in_order(ks: Seq<Seq<Seq<char>>>, g: int, h: Seq<nat>)
    requires
        0 <= g,
    ensures
        sum_at(stable_order(ks, g), h) == total(h, g),
    decreases g,
{
    if g > 0 {
        lemma_sum_in_order(ks, g - 1, h);
        lemma_sum_at_insert(ks, stable_order(ks, g - 1), g - 1, h);
    }
}

/// What the groups of the first `n` entries weigh, position by position.
pub open spec fn group_weights(ks: Seq<Seq<char>>, w: Seq<nat>, fs: Seq<int>, n: int) -> Seq<nat> {
    fs.map_values(|f: int| weight(ks, w, ks[f], n))
}

pub proof fn lemma_group_weights(ks: Seq<Seq<char>>, w: Seq<nat>, fs: Seq<int>, n: int)
    ensures
        total(group_weights(ks, w, fs, n), fs.len() as int) == group_sum(ks, w, fs, n),
    decreases fs.len(),
{
    if fs.len() > 0 {
        lemma_group_weights(ks, w, fs.drop_last(), n);
        lemma_total_prefix(group_weights(ks, w, fs, n), group_weights(ks, w, fs.drop_last(), n), fs.len() - 1);
    }
}

proof fn lemma_total_prefix(a: Seq<nat>, b: Seq<nat>, m: int)
    requires
        0 <= m <= a.len(),
        m <= b.len(),
        forall|i: int| 0 <= i < m ==> a[i] == b[i],
    ensures
        total(a, m) == total(b, m),
    decreases m,
{
    if m > 0 {
        lemma_total_prefix(a, b, m - 1);
    }
}

/// Every entry of a list is counted on exactly one of its lines, whatever order the lines are
/// put in: the weights of the lines add up to the weights of the entries.
pub proof fn lemma_lines_weigh_all(
    ks: Seq<Seq<char>>,
    w: Seq<nat>,
    order_keys: Seq<Seq<Seq<char>>>,
)
    ensures
        sum_at(
            stable_order(order_keys, firsts(ks).len() as int),
            group_weights(ks, w, firsts(ks), ks.len() as int),
        ) == total(w, ks.len() as int),
{
    let fs = firsts(ks);
    let n = ks.len() as int;
    lemma_sum_in_order(order_keys, fs.len() as int, group_weights(ks, w, fs, n));
    lemma_group_weights(ks, w, fs, n);
    lemma_groups_weigh_all(ks, w, n);
}


/// One for each of `n` entries.
pub open spec fn ones(n: nat) -> Seq<nat> {
    Seq::new(n, |i: int| 1nat)
}

pub proof fn lemma_total_ones(n: nat, m: int)
    requires
        0 <= m <= n,
    ensures
        total(ones(n), m) == m,
    decreases m,
{
    if m > 0 {
        lemma_total_ones(n, m - 1);
    }
}

/// Counting entries is weighing them at one each.
pub proof fn lemma_occurrences_weigh(ks: Seq<Seq<char>>, k: Seq<char>, n: int)
    requires
        0 <= n <= ks.len(),
    ensures
        occurrences(ks, k, n) == weight(ks, ones(ks.len()), k, n),
    decreases n,
{
    if n > 0 {
        lemma_occurrences_weigh(ks, k, n - 1);
    }
}

pub proof fn lemma_firsts_range(ks: Seq<Seq<char>>, n: int)
    requires
        0 <= n,
    ensures
        forall|t: int|
            0 <= t < firsts_upto(ks, n).len() ==> 0 <= #[trigger] firsts_upto(ks, n)[t] < n,
    decreases n,
{
    if n > 0 {
        lemma_firsts_range(ks, n - 1);
        let f = firsts_upto(ks, n - 1);
        let g = firsts_upto(ks, n);
        assert forall|t: int| 0 <= t < g.len() implies 0 <= #[trigger] g[t] < n by {
            if t < f.len() {
                assert(g[t] == f[t]);
            }
        }
    }
}

proof fn lemma_insert_range(ks: Seq<Seq<Seq<char>>>, s: Seq<int>, x: int, bound: int)
    requires
        0 <= x < bound,
        forall|t: int| 0 <= t < s.len() ==> 0 <= #[trigger] s[t] < bound,
    ensures
        insert_stable(ks, s, x).len() == s.len() + 1,
        forall|t: int|
            0 <= t < insert_stable(ks, s, x).len() ==> 0 <= #[trigger] insert_stable(ks, s, x)[t]
                < bound,
    decreases s.len(),
{
    if s.len() > 0 && tuple_less(ks[x], ks[s.last()]) {
        lemma_insert_range(ks, s.drop_last(), x, bound);
    }
}

/// A stable order of `g` positions holds each of them.
pub proof fn lemma_stable_order_range(ks: Seq<Seq<Seq<char>>>, g: int)
    requires
        0 <= g,
    ensures
        stable_order(ks, g).len() == g,
        forall|t: int| 0 <= t < g ==> 0 <= #[trigger] stable_order(ks, g)[t] < g,
    decreases g,
{
    if g > 0 {
        lemma_stable_order_range(ks, g - 1);
        lemma_insert_range(ks, stable_order(ks, g - 1), g - 1, g);
    }
}

/// The values at the positions `order`, in that order, add up as `sum_at` says.
pub proof fn lemma_total_at(order: Seq<int>, h: Seq<nat>)
    requires
        forall|t: int| 0 <= t < order.len() ==> 0 <= #[trigger] order[t] < h.len(),
    ensures
        total(order.map_values(|j: int| h[j]), order.len() as int) == sum_at(order, h),
    decreases order.len(),
{
    if order.len() > 0 {
        let d = order.drop_last();
        lemma_total_at(d, h);
        lemma_total_prefix(order.map_values(|j: int| h[j]), d.map_values(|j: int| h[j]), d.len() as int);
    }
}

/// The lines of a list in a stable order of its groups weigh what its entries weigh.
pub proof fn lemma_list_weighs_all(
    ks: Seq<Seq<char>>,
    w: Seq<nat>,
    order_keys: Seq<Seq<Seq<char>>>,
)
    ensures
        ({
            let fs = firsts(ks);
            let hv = group_weights(ks, w, fs, ks.len() as int);
            let ord = stable_order(order_keys, fs.len() as int);
            total(ord.map_values(|j: int| hv[j]), fs.len() as int) == total(w, ks.len() as int)
        }),
{
    let fs = firsts(ks);
    let hv = group_weights(ks, w, fs, ks.len() as int);
    let ord = stable_order(order_keys, fs.len() as int);
    lemma_stable_order_range(order_keys, fs.len() as int);
    lemma_total_at(ord, hv);
    lemma_lines_weigh_all(ks, w, order_keys);
}

} // verus!

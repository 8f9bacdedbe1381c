//! Grouping lines by what they are, in the order each kind is first met, and putting the groups
//! in a stable order: the shape shared by the bill of materials, the cut list and the fastener
//! schedule.

use vstd::prelude::*;

use crate::text::{less_text, same_text, text_less, texts};

verus! {

// ------------------------------------------------------------------------ first-seen keys

/// The key at `i` was met before.
pub open spec fn seen_before(keys: Seq<Seq<char>>, i: int) -> bool {
    exists|j: int| 0 <= j < i && keys[j] == keys[i]
}

/// The positions among the first `n` where a key is met for the first time, in order.
pub open spec fn firsts_upto(keys: Seq<Seq<char>>, n: int) -> Seq<int>
    decreases n,
{
    if n <= 0 {
        seq![]
    } else if seen_before(keys, n - 1) {
        firsts_upto(keys, n - 1)
    } else {
        firsts_upto(keys, n - 1).push(n - 1)
    }
}

/// The positions where each key is first met, in order: one per group.
pub open spec fn firsts(keys: Seq<Seq<char>>) -> Seq<int> {
    firsts_upto(keys, keys.len() as int)
}

pub open spec fn ints(v: Seq<usize>) -> Seq<int> {
    v.map_values(|x: usize| x as int)
}

/// Is `key` among the first `i` keys?
fn met_before(keys: &Vec<String>, i: usize) -> (r: bool)
    requires
        i < keys@.len(),
    ensures
        r == seen_before(texts(keys@), i as int),
{
    let ghost ks = texts(keys@);
    let mut j: usize = 0;
    while j < i
        invariant
            i < keys@.len(),
            ks == texts(keys@),
            j <= i,
            forall|t: int| 0 <= t < j ==> ks[t] != ks[i as int],
        decreases i - j,
    {
        if same_text(keys[j].as_str(), keys[i].as_str()) {
            assert(ks[j as int] == ks[i as int]);
            return true;
        }
        j += 1;
    }
    false
}

/// The position where each key is first met, in order.
pub fn first_positions(keys: &Vec<String>) -> (r: Vec<usize>)
    ensures
        ints(r@) == firsts(texts(keys@)),
        forall|t: int| 0 <= t < r@.len() ==> #[trigger] r@[t] < keys@.len(),
{
    let ghost ks = texts(keys@);
    let mut out: Vec<usize> = Vec::new();
    let mut i: usize = 0;
    while i < keys.len()
        invariant
            ks == texts(keys@),
            i <= keys@.len(),
            ints(out@) == firsts_upto(ks, i as int),
            forall|t: int| 0 <= t < out@.len() ==> #[trigger] out@[t] < i,
        decreases keys@.len() - i,
    {
        if !met_before(keys, i) {
            let ghost before = out@;
            out.push(i);
            assert(ints(out@) =~= ints(before).push(i as int));
        }
        i += 1;
    }
    out
}

// ------------------------------------------------------------------------ stable order

/// Tuples of texts compared field by field, as a tuple of `&str` compares.
pub open spec fn tuple_less(a: Seq<Seq<char>>, b: Seq<Seq<char>>) -> bool
    decreases a.len(),
{
    if a.len() == 0 || b.len() == 0 {
        false
    } else if text_less(a[0], b[0]) {
        true
    } else if a[0] != b[0] {
        false
    } else {
        tuple_less(a.drop_first(), b.drop_first())
    }
}

/// `s`, already in order, with `x` put after everything not greater than it.
pub open spec fn insert_stable(ks: Seq<Seq<Seq<char>>>, s: Seq<int>, x: int) -> Seq<int>
    decreases s.len(),
{
    if s.len() == 0 {
        seq![x]
    } else if tuple_less(ks[x], ks[s.last()]) {
        insert_stable(ks, s.drop_last(), x).push(s.last())
    } else {
        s.push(x)
    }
}

/// The positions `0..n` in the order of their keys, equal keys keeping their order: what a
/// stable sort gives.
pub open spec fn stable_order(ks: Seq<Seq<Seq<char>>>, n: int) -> Seq<int>
    decreases n,
{
    if n <= 0 {
        seq![]
    } else {
        insert_stable(ks, stable_order(ks, n - 1), n - 1)
    }
}

pub open spec fn keys_view(v: Seq<Vec<String>>) -> Seq<Seq<Seq<char>>> {
    v.map_values(|k: Vec<String>| texts(k@))
}

/// Is `a` before `b`?
fn less_tuple(a: &Vec<String>, b: &Vec<String>) -> (r: bool)
    ensures
        r == tuple_less(texts(a@), texts(b@)),
{
    let ghost av = texts(a@);
    let ghost bv = texts(b@);
    let mut t: usize = 0;
    assert(av.skip(0) =~= av && bv.skip(0) =~= bv);
    while t < a.len() && t < b.len()
        invariant
            av == texts(a@),
            bv == texts(b@),
            t <= a@.len(),
            t <= b@.len(),
            tuple_less(av, bv) == tuple_less(av.skip(t as int), bv.skip(t as int)),
        decreases a@.len() - t,
    {
        let ghost ra = av.skip(t as int);
        let ghost rb = bv.skip(t as int);
        assert(ra[0] == av[t as int] && rb[0] == bv[t as int]);
        assert(ra.drop_first() =~= av.skip(t + 1));
        assert(rb.drop_first() =~= bv.skip(t + 1));
        if less_text(a[t].as_str(), b[t].as_str()) {
            return true;
        }
        if !same_text(a[t].as_str(), b[t].as_str()) {
            return false;
        }
        t += 1;
    }
    false
}

proof fn lemma_insert_at(ks: Seq<Seq<Seq<char>>>, s: Seq<int>, x: int, j: int)
    requires
        0 <= j <= s.len(),
        forall|t: int| j <= t < s.len() ==> tuple_less(ks[x], #[trigger] ks[s[t]]),
        j == 0 || !tuple_less(ks[x], ks[s[j - 1]]),
    ensures
        insert_stable(ks, s, x) == s.take(j).push(x) + s.skip(j),
    decreases s.len(),
{
    if s.len() == 0 {
        assert(s.take(j).push(x) + s.skip(j) =~= seq![x]);
    } else if j == s.len() {
        assert(!tuple_less(ks[x], ks[s.last()]));
        assert(s.take(j).push(x) + s.skip(j) =~= s.push(x));
    } else {
        assert(tuple_less(ks[x], ks[s[s.len() - 1]]));
        let d = s.drop_last();
        assert forall|t: int| j <= t < d.len() implies tuple_less(ks[x], #[trigger] ks[d[t]]) by {
            assert(d[t] == s[t]);
        }
        if j > 0 {
            assert(d[j - 1] == s[j - 1]);
        }
        lemma_insert_at(ks, d, x, j);
        assert(d.take(j).push(x) + d.skip(j) + seq![s.last()] =~= s.take(j).push(x) + s.skip(j));
    }
}

/// The positions of `keys` in the order of their keys, equal keys keeping their order.
pub fn stable_positions(keys: &Vec<Vec<String>>) -> (r: Vec<usize>)
    ensures
        ints(r@) == stable_order(keys_view(keys@), keys@.len() as int),
        r@.len() == keys@.len(),
        forall|t: int| 0 <= t < r@.len() ==> #[trigger] r@[t] < keys@.len(),
{
    let ghost ks = keys_view(keys@);
    let mut out: Vec<usize> = Vec::new();
    let mut x: usize = 0;
    while x < keys.len()
        invariant
            ks == keys_view(keys@),
            x <= keys@.len(),
            ints(out@) == stable_order(ks, x as int),
            out@.len() == x,
            forall|t: int| 0 <= t < out@.len() ==> #[trigger] out@[t] < x,
        decreases keys@.len() - x,
    {
        let ghost s = ints(out@);
        let mut j = out.len();
        while j > 0 && less_tuple(&keys[x], &keys[out[j - 1]])
            invariant
                ks == keys_view(keys@),
                x < keys@.len(),
                s == ints(out@),
                j <= out@.len(),
                forall|t: int| 0 <= t < out@.len() ==> #[trigger] out@[t] < x,
                forall|t: int| j <= t < s.len() ==> tuple_less(ks[x as int], #[trigger] ks[s[t]]),
            decreases j,
        {
            assert(ks[x as int] == texts(keys@[x as int]@));
            assert(ks[s[j - 1]] == texts(keys@[out@[j - 1] as int]@));
            j -= 1;
        }
        proof {
            if j > 0 {
                assert(ks[x as int] == texts(keys@[x as int]@));
                assert(ks[s[j - 1]] == texts(keys@[out@[j - 1] as int]@));
            }
            lemma_insert_at(ks, s, x as int, j as int);
        }
        out.insert(j, x);
        assert(ints(out@) =~= s.take(j as int).push(x as int) + s.skip(j as int));
        x += 1;
    }
    out
}


// ------------------------------------------------------------------------ counting

/// How many of the first `n` keys are `k`.
pub open spec fn occurrences(ks: Seq<Seq<char>>, k: Seq<char>, n: int) -> nat
    decreases n,
{
    if n <= 0 {
        0
    } else {
        occurrences(ks, k, n - 1) + if ks[n - 1] == k {
            1nat
        } else {
            0nat
        }
    }
}

/// How many of `keys` are `k`.
pub fn count_of(keys: &Vec<String>, k: &str) -> (r: usize)
    ensures
        r as nat == occurrences(texts(keys@), k@, keys@.len() as int),
{
    let ghost ks = texts(keys@);
    let mut c: usize = 0;
    let mut i: usize = 0;
    while i < keys.len()
        invariant
            ks == texts(keys@),
            i <= keys@.len(),
            c <= i,
            c as nat == occurrences(ks, k@, i as int),
        decreases keys@.len() - i,
    {
        assert(ks[i as int] == keys@[i as int]@);
        if same_text(keys[i].as_str(), k) {
            c += 1;
        }
        i += 1;
    }
    c
}

} // verus!

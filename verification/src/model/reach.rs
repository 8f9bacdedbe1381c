//! What the placement walk keeps as it goes, and what holds when it is done.

use vstd::prelude::*;

use super::placement::{
    ends, framed, frees_upto,
    lemma_first_unfixed, lemma_index_upto, placed, plan_facts, root_index, seed, seeded_right, step_ok,
    start, start_out, usable, visit, visit_from, walk, plan, closed, MateV, PlacedByV, UnitV,
    Walk,
};

verus! {

/// How many of the first `k` units are placed.
pub open spec fn cnt(out: Seq<PlacedByV>, k: int) -> int
    decreases k,
{
    if k <= 0 {
        0
    } else {
        cnt(out, k - 1) + if out[k - 1] is Unreached {
            0int
        } else {
            1int
        }
    }
}

pub proof fn lemma_cnt_bounds(out: Seq<PlacedByV>, k: int)
    requires
        0 <= k,
    ensures
        0 <= cnt(out, k) <= k,
    decreases k,
{
    if k > 0 {
        lemma_cnt_bounds(out, k - 1);
    }
}

proof fn lemma_cnt_update(out: Seq<PlacedByV>, k: int, t: int, v: PlacedByV)
    requires
        0 <= t < out.len(),
        0 <= k <= out.len(),
        out[t] is Unreached,
        !(v is Unreached),
    ensures
        cnt(out.update(t, v), k) == cnt(out, k) + if t < k {
            1int
        } else {
            0int
        },
    decreases k,
{
    if k > 0 {
        lemma_cnt_update(out, k - 1, t, v);
    }
}

proof fn lemma_frees(root: Option<Seq<char>>, us: Seq<UnitV>, k: int)
    requires
        0 <= k <= us.len(),
    ensures
        frees_upto(us, k).len() <= cnt(start_out(root, us), k),
        forall|q: int|
            0 <= q < frees_upto(us, k).len() ==> 0 <= #[trigger] frees_upto(us, k)[q] < k
                && us[frees_upto(us, k)[q]].free is Some,
        forall|j: int|
            0 <= j < k && us[j].free is Some ==> exists|q: int|
                0 <= q < frees_upto(us, k).len() && #[trigger] frees_upto(us, k)[q] == j,
    decreases k,
{
    if k > 0 {
        lemma_frees(root, us, k - 1);
        let f = frees_upto(us, k - 1);
        if us[k - 1].free is Some {
            assert(frees_upto(us, k) == f.push(k - 1));
            assert forall|j: int| 0 <= j < k && us[j].free is Some implies exists|q: int|
                0 <= q < frees_upto(us, k).len() && #[trigger] frees_upto(us, k)[q] == j by {
                if j == k - 1 {
                    assert(frees_upto(us, k)[f.len() as int] == j);
                } else {
                    let q = choose|q: int| 0 <= q < f.len() && #[trigger] f[q] == j;
                    assert(frees_upto(us, k)[q] == j);
                }
            }
        }
    }
}

/// A unit that is a seed is placed from the start.
proof fn lemma_root_in_range(root: Option<Seq<char>>, us: Seq<UnitV>)
    ensures
        match root_index(root, us) {
            Some(r) => 0 <= r < us.len(),
            None => true,
        },
{
    lemma_first_unfixed(us, 0);
    match root {
        Some(r) => lemma_index_upto(us, r, us.len() as int),
        None => {},
    }
}

/// Joint `mi` is done for unit `i`: if it is usable, framed and touches `i`, both its ends
/// are placed.
pub open spec fn mate_done(us: Seq<UnitV>, ms: Seq<MateV>, out: Seq<PlacedByV>, i: int, mi: int) -> bool {
    usable(us, ms[mi]) && framed(us, ms[mi]) && ((ends(us, ms[mi])->0).0 == i || (ends(
        us,
        ms[mi],
    )->0).1 == i) ==> !(out[(ends(us, ms[mi])->0).0] is Unreached) && !(out[(ends(
        us,
        ms[mi],
    )->0).1] is Unreached)
}

/// Every joint is done for unit `i`.
pub open spec fn processed(us: Seq<UnitV>, ms: Seq<MateV>, out: Seq<PlacedByV>, i: int) -> bool {
    forall|mi: int| 0 <= mi < ms.len() ==> #[trigger] mate_done(us, ms, out, i, mi)
}

/// What holds of the walk at every point.
pub open spec fn walk_inv(root: Option<Seq<char>>, us: Seq<UnitV>, ms: Seq<MateV>, w: Walk) -> bool {
    &&& plan_facts(root, us, ms, w.steps, w.out)
    &&& 0 <= w.head <= w.queue.len()
    &&& forall|q: int|
        0 <= q < w.queue.len() ==> 0 <= #[trigger] w.queue[q] < us.len() && placed(w, w.queue[q])
    &&& forall|i: int|
        0 <= i < us.len() && #[trigger] placed(w, i) ==> exists|q: int|
            0 <= q < w.queue.len() && w.queue[q] == i
    &&& w.queue.len() <= cnt(w.out, us.len() as int) + 1
}

/// Every unit taken off the queue has been processed.
pub open spec fn done(us: Seq<UnitV>, ms: Seq<MateV>, w: Walk) -> bool {
    forall|q: int| 0 <= q < w.head ==> #[trigger] processed(us, ms, w.out, w.queue[q])
}

/// `w2` extends `w`: same head, the queue only grows at its end, and nothing placed is
/// unplaced.
pub open spec fn grows(us: Seq<UnitV>, w: Walk, w2: Walk) -> bool {
    &&& w2.head == w.head
    &&& w.queue.len() <= w2.queue.len()
    &&& forall|q: int| 0 <= q < w.queue.len() ==> #[trigger] w2.queue[q] == w.queue[q]
    &&& w2.out.len() == w.out.len()
    &&& forall|j: int| 0 <= j < us.len() && placed(w, j) ==> #[trigger] placed(w2, j)
}

proof fn lemma_done_grows(us: Seq<UnitV>, ms: Seq<MateV>, w: Walk, w2: Walk, i: int, mi: int)
    requires
        w.out.len() == us.len(),
        grows(us, w, w2),
        0 <= mi < ms.len(),
        mate_done(us, ms, w.out, i, mi),
    ensures
        mate_done(us, ms, w2.out, i, mi),
{
    if usable(us, ms[mi]) && framed(us, ms[mi]) {
        let (a, b) = ends(us, ms[mi])->0;
        lemma_ends(us, ms[mi]);
        if a == i || b == i {
            assert(placed(w, a) && placed(w, b));
            assert(placed(w2, a) && placed(w2, b));
        }
    }
}

pub proof fn lemma_ends(us: Seq<UnitV>, m: MateV)
    ensures
        match ends(us, m) {
            Some((a, b)) => 0 <= a < us.len() && 0 <= b < us.len() && us[a].id == m.a && us[b].id
                == m.b,
            None => true,
        },
{
    lemma_index_upto(us, m.a, us.len() as int);
    lemma_index_upto(us, m.b, us.len() as int);
}

pub proof fn lemma_start(root: Option<Seq<char>>, us: Seq<UnitV>, ms: Seq<MateV>)
    ensures
        walk_inv(root, us, ms, start(root, us)),
        done(us, ms, start(root, us)),
{
    let w = start(root, us);
    let n = us.len() as int;
    lemma_root_in_range(root, us);
    lemma_frees(root, us, n);
    let f = frees_upto(us, n);
    let pre: Seq<int> = match root_index(root, us) {
        Some(r) => seq![r],
        None => seq![],
    };
    assert(w.queue == pre + f);
    assert forall|i: int| 0 <= i < us.len() implies seeded_right(root, us, w.out, i) by {}
    assert forall|i: int|
        0 <= i < us.len() implies (#[trigger] w.out[i] is Unreached <==> !(seed(root, us, i)
        || exists|k: int| 0 <= k < w.steps.len() && w.steps[k].to == i)) by {}
    assert forall|q: int| 0 <= q < w.queue.len() implies 0 <= #[trigger] w.queue[q] < us.len()
        && placed(w, w.queue[q]) by {
        if q >= pre.len() {
            assert(w.queue[q] == f[q - pre.len()]);
        }
    }
    assert forall|i: int| 0 <= i < us.len() && #[trigger] placed(w, i) implies exists|q: int|
        0 <= q < w.queue.len() && w.queue[q] == i by {
        if us[i].free is Some {
            let q = choose|q: int| 0 <= q < f.len() && #[trigger] f[q] == i;
            assert(w.queue[q + pre.len()] == i);
        } else {
            assert(w.queue[0] == i);
        }
    }
    lemma_start_cnt(root, us, n);
}

proof fn lemma_start_cnt(root: Option<Seq<char>>, us: Seq<UnitV>, k: int)
    requires
        0 <= k <= us.len(),
    ensures
        frees_upto(us, k).len() <= cnt(start_out(root, us), k),
    decreases k,
{
    if k > 0 {
        lemma_start_cnt(root, us, k - 1);
    }
}


/// One visit keeps the invariant, only grows the walk, and leaves joint `mi` done for `i`.
#[verifier::rlimit(40)]
proof fn lemma_visit(
    root: Option<Seq<char>>,
    us: Seq<UnitV>,
    ms: Seq<MateV>,
    w: Walk,
    i: int,
    mi: int,
)
    requires
        walk_inv(root, us, ms, w),
        0 <= i < us.len(),
        placed(w, i),
        0 <= mi < ms.len(),
    ensures
        walk_inv(root, us, ms, visit(us, ms, w, i, mi)),
        grows(us, w, visit(us, ms, w, i, mi)),
        mate_done(us, ms, visit(us, ms, w, i, mi).out, i, mi),
{
    let w2 = visit(us, ms, w, i, mi);
    let m = ms[mi];
    lemma_ends(us, m);
    if w2 == w {
        if usable(us, m) && framed(us, m) {
            let (a, b) = ends(us, m)->0;
            if a == i || b == i {
                let to = if a == i { b } else { a };
                assert(placed(w, to));
            }
        }
        return;
    }
    let (a, b) = ends(us, m)->0;
    let from = if a == i { a } else { b };
    let to = if a == i { b } else { a };
    let fp = if a == i { m.a_port } else { m.b_port };
    let n = us.len() as int;
    assert(w.out[to] is Unreached);
    assert(!seed(root, us, to));
    assert(w2.out == w.out.update(to, PlacedByV::Mate(m.id)));
    let s = w2.steps[w.steps.len() as int];
    assert forall|k: int| 0 <= k < w.steps.len() implies w.steps[k].to != to by {
        assert(step_ok(root, us, ms, w.steps, w.out, k));
    }
    // the facts on units
    assert forall|j: int| 0 <= j < us.len() implies seeded_right(root, us, w2.out, j) by {
        assert(seeded_right(root, us, w.out, j));
    }
    assert forall|j: int|
        0 <= j < us.len() implies (#[trigger] w2.out[j] is Unreached <==> !(seed(root, us, j)
        || exists|k: int| 0 <= k < w2.steps.len() && w2.steps[k].to == j)) by {
        assert(w.out[j] is Unreached <==> !(seed(root, us, j) || exists|k: int|
            0 <= k < w.steps.len() && w.steps[k].to == j));
        if j == to {
            assert(w2.steps[w.steps.len() as int].to == j);
        } else {
            if exists|k: int| 0 <= k < w2.steps.len() && w2.steps[k].to == j {
                let k = choose|k: int| 0 <= k < w2.steps.len() && w2.steps[k].to == j;
                assert(w.steps[k].to == j);
            }
            if exists|k: int| 0 <= k < w.steps.len() && w.steps[k].to == j {
                let k = choose|k: int| 0 <= k < w.steps.len() && w.steps[k].to == j;
                assert(w2.steps[k].to == j);
            }
        }
    }
    assert forall|j: int| 0 <= j < us.len() && (#[trigger] w2.out[j]) is Root implies root_index(
        root,
        us,
    ) == Some(j) && us[j].free is None by {
        assert(w.out[j] is Root);
    }
    assert forall|j: int| 0 <= j < us.len() && (#[trigger] w2.out[j]) is Free implies us[j].free is Some by {
        assert(w.out[j] is Free);
    }
    // the steps
    assert(placed(w, from));
    assert(seed(root, us, from) || exists|k2: int|
        0 <= k2 < w.steps.len() && (#[trigger] w.steps[k2]).to == from);
    assert forall|k: int| 0 <= k < w2.steps.len() implies #[trigger] step_ok(
        root,
        us,
        ms,
        w2.steps,
        w2.out,
        k,
    ) by {
        if k < w.steps.len() {
            assert(step_ok(root, us, ms, w.steps, w.out, k));
            assert(w2.steps[k] == w.steps[k]);
            let sk = w.steps[k];
            assert(w2.out[sk.to] == w.out[sk.to]);
            if !seed(root, us, sk.from) {
                let k2 = choose|k2: int| 0 <= k2 < k && (#[trigger] w.steps[k2]).to == sk.from;
                assert(w2.steps[k2] == w.steps[k2]);
            }
        } else {
            assert(k == w.steps.len());
            if !seed(root, us, from) {
                let k2 = choose|k2: int| 0 <= k2 < w.steps.len() && (#[trigger] w.steps[k2]).to == from;
                assert(w2.steps[k2] == w.steps[k2]);
            }
        }
    }
    assert forall|k1: int, k2: int| 0 <= k1 < k2 < w2.steps.len() implies (#[trigger] w2.steps[k1]).to
        != (#[trigger] w2.steps[k2]).to by {
        if k2 < w.steps.len() {
            assert(w2.steps[k1] == w.steps[k1] && w2.steps[k2] == w.steps[k2]);
        } else {
            assert(w2.steps[k1] == w.steps[k1]);
        }
    }
    assert(plan_facts(root, us, ms, w2.steps, w2.out));
    // the queue
    assert forall|q: int| 0 <= q < w2.queue.len() implies 0 <= #[trigger] w2.queue[q] < us.len()
        && placed(w2, w2.queue[q]) by {
        if q < w.queue.len() {
            assert(w2.queue[q] == w.queue[q]);
            assert(placed(w, w.queue[q]));
        }
    }
    assert forall|j: int| 0 <= j < us.len() && #[trigger] placed(w2, j) implies exists|q: int|
        0 <= q < w2.queue.len() && w2.queue[q] == j by {
        if j == to {
            assert(w2.queue[w.queue.len() as int] == j);
        } else {
            assert(placed(w, j));
            let q = choose|q: int| 0 <= q < w.queue.len() && w.queue[q] == j;
            assert(w2.queue[q] == j);
        }
    }
    lemma_cnt_update(w.out, n, to, PlacedByV::Mate(m.id));
    assert forall|j: int| 0 <= j < us.len() && placed(w, j) implies #[trigger] placed(w2, j) by {}
    assert forall|q: int| 0 <= q < w.queue.len() implies #[trigger] w2.queue[q] == w.queue[q] by {}
}


proof fn lemma_grows_trans(us: Seq<UnitV>, w1: Walk, w2: Walk, w3: Walk)
    requires
        grows(us, w1, w2),
        grows(us, w2, w3),
    ensures
        grows(us, w1, w3),
{
    assert forall|q: int| 0 <= q < w1.queue.len() implies #[trigger] w3.queue[q] == w1.queue[q] by {
        assert(w3.queue[q] == w2.queue[q]);
    }
    assert forall|j: int| 0 <= j < us.len() && placed(w1, j) implies #[trigger] placed(w3, j) by {
        assert(placed(w2, j));
    }
}

/// Visiting `i` through the joints from `mi` on keeps the invariant and leaves each of them
/// done.
pub proof fn lemma_visit_from(
    root: Option<Seq<char>>,
    us: Seq<UnitV>,
    ms: Seq<MateV>,
    w: Walk,
    i: int,
    mi: int,
)
    requires
        walk_inv(root, us, ms, w),
        0 <= i < us.len(),
        placed(w, i),
        0 <= mi <= ms.len(),
    ensures
        walk_inv(root, us, ms, visit_from(us, ms, w, i, mi)),
        grows(us, w, visit_from(us, ms, w, i, mi)),
        forall|mj: int|
            mi <= mj < ms.len() ==> #[trigger] mate_done(
                us,
                ms,
                visit_from(us, ms, w, i, mi).out,
                i,
                mj,
            ),
    decreases ms.len() - mi,
{
    let r = visit_from(us, ms, w, i, mi);
    if mi < ms.len() {
        let w1 = visit(us, ms, w, i, mi);
        lemma_visit(root, us, ms, w, i, mi);
        assert(placed(w1, i));
        lemma_visit_from(root, us, ms, w1, i, mi + 1);
        lemma_grows_trans(us, w, w1, r);
        lemma_done_grows(us, ms, w1, r, i, mi);
    } else {
        assert(grows(us, w, r));
    }
}

/// Taking the next unit off the queue keeps the invariant; that unit is placed.
pub proof fn lemma_pop(root: Option<Seq<char>>, us: Seq<UnitV>, ms: Seq<MateV>, w: Walk)
    requires
        walk_inv(root, us, ms, w),
        w.head < w.queue.len(),
    ensures
        walk_inv(root, us, ms, Walk { head: w.head + 1, ..w }),
        0 <= w.queue[w.head] < us.len(),
        placed(Walk { head: w.head + 1, ..w }, w.queue[w.head]),
        w.head < us.len() + 1,
{
    let w1 = Walk { head: w.head + 1, ..w };
    lemma_cnt_bounds(w.out, us.len() as int);
    assert(placed(w, w.queue[w.head]));
    assert forall|q: int| 0 <= q < w1.queue.len() implies 0 <= #[trigger] w1.queue[q] < us.len()
        && placed(w1, w1.queue[q]) by {
        assert(placed(w, w.queue[q]));
    }
    assert forall|j: int| 0 <= j < us.len() && #[trigger] placed(w1, j) implies exists|q: int|
        0 <= q < w1.queue.len() && w1.queue[q] == j by {
        assert(placed(w, j));
        let q = choose|q: int| 0 <= q < w.queue.len() && w.queue[q] == j;
        assert(w1.queue[q] == j);
    }
}

/// Up to `fuel` visits keep the invariant and leave every unit taken off the queue processed;
/// they stop only when the queue is empty or the fuel is spent.
proof fn lemma_walk(root: Option<Seq<char>>, us: Seq<UnitV>, ms: Seq<MateV>, w: Walk, fuel: nat)
    requires
        walk_inv(root, us, ms, w),
        done(us, ms, w),
    ensures
        walk_inv(root, us, ms, walk(us, ms, w, fuel)),
        done(us, ms, walk(us, ms, w, fuel)),
        walk(us, ms, w, fuel).head == walk(us, ms, w, fuel).queue.len() || walk(
            us,
            ms,
            w,
            fuel,
        ).head == w.head + fuel,
    decreases fuel,
{
    if fuel == 0 || w.head >= w.queue.len() {
    } else {
        let i = w.queue[w.head];
        let w1 = Walk { head: w.head + 1, ..w };
        lemma_pop(root, us, ms, w);
        let w2 = visit_from(us, ms, w1, i, 0);
        lemma_visit_from(root, us, ms, w1, i, 0);
        assert forall|q: int| 0 <= q < w2.head implies #[trigger] processed(us, ms, w2.out, w2.queue[q]) by {
            assert(w2.queue[q] == w.queue[q]);
            if q < w.head {
                assert(processed(us, ms, w.out, w.queue[q]));
                assert forall|mj: int| 0 <= mj < ms.len() implies #[trigger] mate_done(
                    us,
                    ms,
                    w2.out,
                    w.queue[q],
                    mj,
                ) by {
                    lemma_done_grows(us, ms, w1, w2, w.queue[q], mj);
                }
            } else {
                assert(processed(us, ms, w2.out, i));
            }
        }
        lemma_walk(root, us, ms, w2, (fuel - 1) as nat);
    }
}

/// The walk ends with the queue spent.
pub proof fn lemma_plan(root: Option<Seq<char>>, us: Seq<UnitV>, ms: Seq<MateV>)
    ensures
        walk_inv(root, us, ms, plan(root, us, ms)),
        done(us, ms, plan(root, us, ms)),
        plan(root, us, ms).head == plan(root, us, ms).queue.len(),
{
    lemma_start(root, us, ms);
    lemma_walk(root, us, ms, start(root, us), (us.len() + 1) as nat);
    let p = plan(root, us, ms);
    lemma_cnt_bounds(p.out, us.len() as int);
}

/// The placement law. Every part is placed exactly one way: the root is held fixed, a part
/// with a stated placement is put where it says, and every other part is either placed through
/// a usable joint from a part placed before it, or, when no such joint reaches it, reported as
/// unreached. The walk stops only when every usable joint whose frames are known joins two
/// placed parts or two unplaced ones.
pub proof fn law_placement(root: Option<Seq<char>>, us: Seq<UnitV>, ms: Seq<MateV>)
    ensures
        plan_facts(root, us, ms, plan(root, us, ms).steps, plan(root, us, ms).out),
        closed(us, ms, plan(root, us, ms).out),
{
    lemma_plan(root, us, ms);
    let p = plan(root, us, ms);
    assert forall|mi: int|
        0 <= mi < ms.len() && usable(us, #[trigger] ms[mi]) && framed(us, ms[mi]) implies (p.out[(ends(
        us,
        ms[mi],
    )->0).0] is Unreached <==> p.out[(ends(us, ms[mi])->0).1] is Unreached) by {
        let (a, b) = ends(us, ms[mi])->0;
        lemma_ends(us, ms[mi]);
        if placed(p, a) {
            let q = choose|q: int| 0 <= q < p.queue.len() && p.queue[q] == a;
            assert(processed(us, ms, p.out, p.queue[q]));
            assert(mate_done(us, ms, p.out, a, mi));
        }
        if placed(p, b) {
            let q = choose|q: int| 0 <= q < p.queue.len() && p.queue[q] == b;
            assert(processed(us, ms, p.out, p.queue[q]));
            assert(mate_done(us, ms, p.out, b, mi));
        }
    }
}

} // verus!

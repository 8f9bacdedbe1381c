//! The property that makes the instructions followable: walking them in order, keeping track
//! of what is on the bench, every joint is made to something already there.

use vstd::prelude::*;

use super::steps::{
    groups_steps, group_steps, instructions, build_groups, is_start, joint_step, lay_out_steps,
    members, numbered, part_roots, pass, ready, roots, rounds, start_step, unit_of,
    unit_roots, unordered_steps, unordered_warning, AssemblyV, StepV, title,
};

verus! {

/// The first joint with id `id`.
pub open spec fn joint_index(av: AssemblyV, id: Seq<char>) -> Option<int>
    decreases av.mates.len(),
{
    joint_from(av, id, 0)
}

pub open spec fn joint_from(av: AssemblyV, id: Seq<char>, i: int) -> Option<int>
    decreases av.mates.len() - i,
{
    if i < 0 || i >= av.mates.len() {
        None
    } else if av.mates[i].id == id {
        Some(i)
    } else {
        joint_from(av, id, i + 1)
    }
}

/// What a step puts on the bench: both ends of the joint it makes.
pub open spec fn ends_of(av: AssemblyV, s: StepV) -> Set<Seq<char>> {
    match s.mate {
        Some(id) => match joint_index(av, id) {
            Some(j) => set![av.mates[j].a, av.mates[j].b],
            None => Set::empty(),
        },
        None => Set::empty(),
    }
}

/// What is on the bench before step `k`: `base`, and both ends of every joint made before it.
pub open spec fn bench(av: AssemblyV, base: Set<Seq<char>>, s: Seq<StepV>, k: int) -> Set<Seq<char>>
    decreases k,
{
    if k <= 0 {
        base
    } else {
        bench(av, base, s, k - 1).union(ends_of(av, s[k - 1]))
    }
}

/// Step `k` makes its joint to something on the bench, or is flagged as a joint that could not
/// be put in a build order.
pub open spec fn within_reach(av: AssemblyV, base: Set<Seq<char>>, s: Seq<StepV>, k: int) -> bool {
    match s[k].mate {
        None => true,
        Some(id) => s[k].warning == Some(unordered_warning()) || match joint_index(av, id) {
            Some(j) => bench(av, base, s, k).contains(av.mates[j].a) || bench(av, base, s, k).contains(
                av.mates[j].b,
            ),
            None => false,
        },
    }
}

/// Every step of `s` is within reach.
pub open spec fn followable(av: AssemblyV, base: Set<Seq<char>>, s: Seq<StepV>) -> bool {
    forall|k: int| 0 <= k < s.len() ==> #[trigger] within_reach(av, base, s, k)
}

/// What a vehicle is built from before any joint: every unit and every part of a sub-assembly
/// that nothing had to place.
pub open spec fn starts(av: AssemblyV) -> Set<Seq<char>> {
    Set::new(
        |x: Seq<char>|
            (exists|i: int| 0 <= i < av.mateable.len() && av.mateable[i].id == x && is_start(av.mateable[i].by))
                || (exists|i: int|
                0 <= i < av.instances.len() && av.instances[i].id == x && unit_of(x) is Some
                    && is_start(av.instances[i].by)),
    )
}

/// No two joints share an id.
pub open spec fn distinct_ids(av: AssemblyV) -> bool {
    forall|i: int, j: int| 0 <= i < j < av.mates.len() ==> av.mates[i].id != av.mates[j].id
}

proof fn lemma_joint_from(av: AssemblyV, j: int, i: int)
    requires
        distinct_ids(av),
        0 <= i <= j < av.mates.len(),
    ensures
        joint_from(av, av.mates[j].id, i) == Some(j),
    decreases j - i,
{
    if i < j {
        assert(av.mates[i].id != av.mates[j].id);
        lemma_joint_from(av, j, i + 1);
    }
}

proof fn lemma_joint_index(av: AssemblyV, j: int)
    requires
        distinct_ids(av),
        0 <= j < av.mates.len(),
    ensures
        joint_index(av, av.mates[j].id) == Some(j),
{
    lemma_joint_from(av, j, 0);
}

/// The bench only grows.
proof fn lemma_bench_grows(av: AssemblyV, base: Set<Seq<char>>, s: Seq<StepV>, k1: int, k2: int)
    requires
        0 <= k1 <= k2,
    ensures
        bench(av, base, s, k1).subset_of(bench(av, base, s, k2)),
    decreases k2,
{
    if k2 > k1 {
        lemma_bench_grows(av, base, s, k1, k2 - 1);
    }
}

/// The bench along `a + b`, within `b`, is the bench along `b` from where `a` left it.
proof fn lemma_bench_concat(av: AssemblyV, base: Set<Seq<char>>, a: Seq<StepV>, b: Seq<StepV>, k: int)
    requires
        0 <= k <= b.len(),
    ensures
        bench(av, base, a + b, a.len() + k) == bench(av, bench(av, base, a, a.len() as int), b, k),
    decreases k,
{
    if k == 0 {
        lemma_bench_prefix(av, base, a, b, a.len() as int);
    } else {
        lemma_bench_concat(av, base, a, b, k - 1);
        assert((a + b)[a.len() + k - 1] == b[k - 1]);
    }
}

/// The bench along `a + b`, within `a`, is the bench along `a`.
proof fn lemma_bench_prefix(av: AssemblyV, base: Set<Seq<char>>, a: Seq<StepV>, b: Seq<StepV>, k: int)
    requires
        0 <= k <= a.len(),
    ensures
        bench(av, base, a + b, k) == bench(av, base, a, k),
    decreases k,
{
    if k > 0 {
        lemma_bench_prefix(av, base, a, b, k - 1);
        assert((a + b)[k - 1] == a[k - 1]);
    }
}

/// Following `a` and then `b` from where `a` left the bench is following `a + b`.
proof fn lemma_followable_concat(av: AssemblyV, base: Set<Seq<char>>, a: Seq<StepV>, b: Seq<StepV>)
    requires
        followable(av, base, a),
        followable(av, bench(av, base, a, a.len() as int), b),
    ensures
        followable(av, base, a + b),
{
    let s = a + b;
    assert forall|k: int| 0 <= k < s.len() implies #[trigger] within_reach(av, base, s, k) by {
        if k < a.len() {
            assert(within_reach(av, base, a, k));
            lemma_bench_prefix(av, base, a, b, k);
            assert(s[k] == a[k]);
        } else {
            let t = k - a.len();
            assert(within_reach(av, bench(av, base, a, a.len() as int), b, t));
            lemma_bench_concat(av, base, a, b, t);
            assert(s[k] == b[t]);
        }
    }
}

/// Steps that make no joint, or are flagged, are always within reach and put nothing on the
/// bench that counts against anything.
proof fn lemma_no_joints(av: AssemblyV, base: Set<Seq<char>>, s: Seq<StepV>)
    requires
        forall|k: int| 0 <= k < s.len() ==> (#[trigger] s[k]).mate is None,
    ensures
        followable(av, base, s),
        bench(av, base, s, s.len() as int) == base,
{
    lemma_no_joints_bench(av, base, s, s.len() as int);
}

proof fn lemma_no_joints_bench(av: AssemblyV, base: Set<Seq<char>>, s: Seq<StepV>, k: int)
    requires
        forall|t: int| 0 <= t < s.len() ==> (#[trigger] s[t]).mate is None,
        k <= s.len(),
    ensures
        bench(av, base, s, k) == base,
    decreases k,
{
    if k > 0 {
        lemma_no_joints_bench(av, base, s, k - 1);
        assert(ends_of(av, s[k - 1]) =~= Set::<Seq<char>>::empty());
        assert(base.union(Set::<Seq<char>>::empty()) =~= base);
    }
}

/// The joints at positions `rem` are real joints.
pub open spec fn joints_exist(av: AssemblyV, rem: Seq<int>) -> bool {
    forall|t: int| 0 <= t < rem.len() ==> 0 <= #[trigger] rem[t] < av.mates.len()
}

/// Everything in `done` is on `base`.
pub open spec fn all_on(done: Seq<Seq<char>>, base: Set<Seq<char>>) -> bool {
    forall|x: Seq<char>| done.contains(x) ==> base.contains(x)
}

/// One pass makes each joint to something on the bench, and leaves on the bench only what its
/// steps put there.
proof fn lemma_pass(av: AssemblyV, rem: Seq<int>, done: Seq<Seq<char>>, g: Option<Seq<char>>, base: Set<Seq<char>>)
    requires
        distinct_ids(av),
        joints_exist(av, rem),
        all_on(done, base),
    ensures
        followable(av, base, pass(av, rem, done, g).steps),
        all_on(pass(av, rem, done, g).done, bench(av, base, pass(av, rem, done, g).steps, pass(av, rem, done, g).steps.len() as int)),
        joints_exist(av, pass(av, rem, done, g).kept),
    decreases rem.len(),
{
    let p = pass(av, rem, done, g);
    if rem.len() == 0 {
        assert(p.steps.len() == 0);
    } else {
        let j = rem[0];
        let m = av.mates[j];
        let rest = rem.drop_first();
        assert(joints_exist(av, rest)) by {
            assert forall|t: int| 0 <= t < rest.len() implies 0 <= #[trigger] rest[t] < av.mates.len() by {
                assert(rest[t] == rem[t + 1]);
            }
        }
        if ready(av, m, done) {
            let s0 = joint_step(m, super::steps::joint_kind(av, m), g);
            let d2 = done.push(m.a).push(m.b);
            lemma_joint_index(av, j);
            let head = seq![s0];
            let b1 = bench(av, base, head, 1);
            assert(ends_of(av, s0) == set![m.a, m.b]);
            assert(head[0] == s0);
            assert(bench(av, base, head, 0) == base);
            assert(b1 == base.union(set![m.a, m.b]));
            assert(all_on(d2, b1)) by {
                assert forall|x: Seq<char>| d2.contains(x) implies b1.contains(x) by {
                    if !done.contains(x) {
                        let i = choose|i: int| 0 <= i < d2.len() && d2[i] == x;
                        assert(i >= done.len());
                    }
                }
            }
            lemma_pass(av, rest, d2, g, b1);
            let r = pass(av, rest, d2, g);
            assert(within_reach(av, base, head, 0)) by {
                assert(bench(av, base, head, 0) == base);
                if done.contains(m.b) {
                } else if done.contains(m.a) {
                } else {
                }
            }
            assert(followable(av, base, head));
            lemma_followable_concat(av, base, head, r.steps);
            assert(p.steps == head + r.steps);
            lemma_bench_concat(av, base, head, r.steps, r.steps.len() as int);
            assert(joints_exist(av, p.kept));
        } else {
            lemma_pass(av, rest, done, g, base);
            let r = pass(av, rest, done, g);
            assert(joints_exist(av, p.kept)) by {
                assert forall|t: int| 0 <= t < p.kept.len() implies 0 <= #[trigger] p.kept[t] < av.mates.len() by {
                    if t > 0 {
                        assert(p.kept[t] == r.kept[t - 1]);
                    }
                }
            }
        }
    }
}


proof fn lemma_rounds(
    av: AssemblyV,
    rem: Seq<int>,
    done: Seq<Seq<char>>,
    guard: nat,
    g: Option<Seq<char>>,
    base: Set<Seq<char>>,
)
    requires
        distinct_ids(av),
        joints_exist(av, rem),
        all_on(done, base),
    ensures
        followable(av, base, rounds(av, rem, done, guard, g).steps),
        all_on(
            rounds(av, rem, done, guard, g).done,
            bench(av, base, rounds(av, rem, done, guard, g).steps, rounds(av, rem, done, guard, g).steps.len() as int),
        ),
        joints_exist(av, rounds(av, rem, done, guard, g).kept),
    decreases guard,
{
    if rem.len() == 0 || guard == 0 {
        let r = rounds(av, rem, done, guard, g);
        assert(r.steps.len() == 0);
        assert(bench(av, base, r.steps, 0) == base);
    } else {
        let p = pass(av, rem, done, g);
        lemma_pass(av, rem, done, g, base);
        if p.progressed {
            let b1 = bench(av, base, p.steps, p.steps.len() as int);
            lemma_rounds(av, p.kept, p.done, (guard - 1) as nat, g, b1);
            let r = rounds(av, p.kept, p.done, (guard - 1) as nat, g);
            lemma_followable_concat(av, base, p.steps, r.steps);
            lemma_bench_concat(av, base, p.steps, r.steps, r.steps.len() as int);
        }
    }
}

proof fn lemma_unit_roots(es: Seq<super::steps::PlacedV>, x: Seq<char>)
    requires
        unit_roots(es).contains(x),
    ensures
        exists|i: int| 0 <= i < es.len() && es[i].id == x && is_start(es[i].by),
    decreases es.len(),
{
    let d = es.drop_last();
    if is_start(es.last().by) && x == es.last().id {
        assert(es[es.len() - 1].id == x);
    } else {
        if is_start(es.last().by) {
            let k = choose|k: int| 0 <= k < unit_roots(es).len() && unit_roots(es)[k] == x;
            assert(unit_roots(es) == unit_roots(d).push(es.last().id));
            assert(k < unit_roots(d).len());
            assert(unit_roots(d)[k] == x);
        }
        lemma_unit_roots(d, x);
        let i = choose|i: int| 0 <= i < d.len() && d[i].id == x && is_start(d[i].by);
        assert(es[i] == d[i]);
    }
}

proof fn lemma_part_roots(es: Seq<super::steps::PlacedV>, u: Seq<char>, x: Seq<char>)
    requires
        part_roots(es, u).contains(x),
    ensures
        exists|i: int| 0 <= i < es.len() && es[i].id == x && unit_of(x) is Some && is_start(es[i].by),
    decreases es.len(),
{
    let d = es.drop_last();
    let e = es.last();
    if unit_of(e.id) == Some(u) && is_start(e.by) && x == e.id {
        assert(es[es.len() - 1].id == x);
    } else {
        if unit_of(e.id) == Some(u) && is_start(e.by) {
            let k = choose|k: int| 0 <= k < part_roots(es, u).len() && part_roots(es, u)[k] == x;
            assert(part_roots(es, u) == part_roots(d, u).push(e.id));
            assert(k < part_roots(d, u).len());
            assert(part_roots(d, u)[k] == x);
        }
        lemma_part_roots(d, u, x);
        let i = choose|i: int| 0 <= i < d.len() && d[i].id == x && unit_of(x) is Some && is_start(d[i].by);
        assert(es[i] == d[i]);
    }
}

proof fn lemma_roots_start(av: AssemblyV, g: Option<Seq<char>>)
    ensures
        all_on(roots(av, g), starts(av)),
{
    assert forall|x: Seq<char>| roots(av, g).contains(x) implies starts(av).contains(x) by {
        match g {
            None => {
                lemma_unit_roots(av.mateable, x);
            },
            Some(u) => {
                lemma_part_roots(av.instances, u, x);
            },
        }
    }
}

proof fn lemma_members(av: AssemblyV, g: Option<Seq<char>>, n: int)
    requires
        n <= av.mates.len(),
    ensures
        joints_exist(av, members(av.mates, g, n)),
    decreases n,
{
    if n > 0 {
        lemma_members(av, g, n - 1);
        let m = members(av.mates, g, n);
        let d = members(av.mates, g, n - 1);
        assert forall|t: int| 0 <= t < m.len() implies 0 <= #[trigger] m[t] < av.mates.len() by {
            if t < d.len() {
                assert(m[t] == d[t]);
            }
        }
    }
}

/// Steps that make no joint, or are flagged as not orderable, are within reach from anywhere.
proof fn lemma_flagged(av: AssemblyV, base: Set<Seq<char>>, s: Seq<StepV>)
    requires
        forall|k: int|
            0 <= k < s.len() ==> (#[trigger] s[k]).mate is None || s[k].warning == Some(unordered_warning()),
    ensures
        followable(av, base, s),
{
    assert forall|k: int| 0 <= k < s.len() implies #[trigger] within_reach(av, base, s, k) by {
        assert(s[k].mate is None || s[k].warning == Some(unordered_warning()));
    }
}

proof fn lemma_group(av: AssemblyV, g: Option<Seq<char>>, done: Seq<Seq<char>>, base: Set<Seq<char>>)
    requires
        distinct_ids(av),
        all_on(done, base),
        starts(av).subset_of(base),
    ensures
        followable(av, base, group_steps(av, g, done).0),
        all_on(group_steps(av, g, done).1, bench(av, base, group_steps(av, g, done).0, group_steps(av, g, done).0.len() as int)),
{
    let ig = members(av.mates, g, av.mates.len() as int);
    if ig.len() == 0 {
        assert(group_steps(av, g, done).0.len() == 0);
        assert(bench(av, base, group_steps(av, g, done).0, 0) == base);
    } else {
        let rs = roots(av, g);
        lemma_members(av, g, av.mates.len() as int);
        lemma_roots_start(av, g);
        assert(all_on(done + rs, base)) by {
            assert forall|x: Seq<char>| (done + rs).contains(x) implies base.contains(x) by {
                let i = choose|i: int| 0 <= i < (done + rs).len() && (done + rs)[i] == x;
                if i < done.len() {
                    assert(done[i] == x);
                } else {
                    assert(rs[i - done.len()] == x);
                    assert(rs.contains(x));
                }
            }
        }
        let r = rounds(av, ig, done + rs, (ig.len() + 1) as nat, g);
        lemma_rounds(av, ig, done + rs, (ig.len() + 1) as nat, g, base);
        let pre = seq![start_step(g, title(g))] + lay_out_steps(rs, g);
        let un = unordered_steps(av, r.kept, g);
        assert forall|k: int| 0 <= k < pre.len() implies (#[trigger] pre[k]).mate is None by {
            if k > 0 {
                assert(pre[k] == lay_out_steps(rs, g)[k - 1]);
            }
        }
        lemma_no_joints(av, base, pre);
        lemma_followable_concat(av, base, pre, r.steps);
        let pr = pre + r.steps;
        assert forall|k: int|
            0 <= k < un.len() implies (#[trigger] un[k]).mate is None || un[k].warning == Some(unordered_warning()) by {
        }
        lemma_flagged(av, bench(av, base, pr, pr.len() as int), un);
        lemma_followable_concat(av, base, pr, un);
        assert(group_steps(av, g, done).0 == pr + un);
        lemma_bench_concat(av, base, pre, r.steps, r.steps.len() as int);
        lemma_bench_prefix(av, base, pr, un, pr.len() as int);
        lemma_bench_grows(av, base, pr + un, pr.len() as int, (pr + un).len() as int);
    }
}

proof fn lemma_groups(av: AssemblyV, gs: Seq<Option<Seq<char>>>, done: Seq<Seq<char>>, base: Set<Seq<char>>)
    requires
        distinct_ids(av),
        all_on(done, base),
        starts(av).subset_of(base),
    ensures
        followable(av, base, groups_steps(av, gs, done)),
    decreases gs.len(),
{
    if gs.len() == 0 {
        assert(groups_steps(av, gs, done).len() == 0);
    } else {
        let (s, d) = group_steps(av, gs[0], done);
        lemma_group(av, gs[0], done, base);
        let b1 = bench(av, base, s, s.len() as int);
        lemma_bench_grows(av, base, s, 0, s.len() as int);
        lemma_groups(av, gs.drop_first(), d, b1);
        lemma_followable_concat(av, base, s, groups_steps(av, gs.drop_first(), d));
    }
}

proof fn lemma_numbered_bench(av: AssemblyV, base: Set<Seq<char>>, s: Seq<StepV>, k: int)
    requires
        k <= s.len(),
    ensures
        bench(av, base, numbered(s), k) == bench(av, base, s, k),
    decreases k,
{
    if k > 0 {
        lemma_numbered_bench(av, base, s, k - 1);
        assert(numbered(s)[k - 1].mate == s[k - 1].mate);
    }
}

/// The instructions can be followed: with every part laid out to build on, each joint is made
/// to something already on the bench, the bench gaining both ends of each joint as it is made.
/// The one exception is a joint that could not be put in a build order at all; it comes last in
/// its group, flagged with a warning that says so.
pub proof fn law_nothing_is_bolted_to_what_is_not_there(av: AssemblyV)
    requires
        distinct_ids(av),
    ensures
        followable(av, starts(av), instructions(av)),
{
    let s = groups_steps(av, build_groups(av), seq![]);
    assert(all_on(seq![], starts(av)));
    lemma_groups(av, build_groups(av), seq![], starts(av));
    assert forall|k: int| 0 <= k < numbered(s).len() implies #[trigger] within_reach(
        av,
        starts(av),
        numbered(s),
        k,
    ) by {
        assert(within_reach(av, starts(av), s, k));
        lemma_numbered_bench(av, starts(av), s, k);
        assert(numbered(s)[k].mate == s[k].mate);
        assert(numbered(s)[k].warning == s[k].warning);
    }
}

} // verus!

//! What the instructions promise as a whole: every joint of the assembly is made by exactly one
//! step.

use vstd::prelude::*;
use vstd::multiset::*;
use vstd::seq_lib::*;

use super::steps::{
    AssemblyV, JointV, StepV, build_groups, group_steps, groups_steps, instructions, lay_out_steps,
    members, nones, pass, rounds, somes, start_step, title, unordered_steps, units_seen,
};

verus! {

broadcast use {group_to_multiset_ensures, group_multiset_axioms, lemma_multiset_commutative};

/// The joints the steps make, in order.
pub open spec fn mates_of(s: Seq<StepV>) -> Seq<Seq<char>>
    decreases s.len(),
{
    if s.len() == 0 {
        seq![]
    } else {
        match s.last().mate {
            Some(m) => mates_of(s.drop_last()).push(m),
            None => mates_of(s.drop_last()),
        }
    }
}

/// The ids of the joints.
pub open spec fn joint_ids(ms: Seq<JointV>) -> Seq<Seq<char>> {
    ms.map_values(|m: JointV| m.id)
}

/// The ids of the joints at positions `js`.
pub open spec fn ids_at(av: AssemblyV, js: Seq<int>) -> Seq<Seq<char>> {
    js.map_values(|j: int| av.mates[j].id)
}

/// The positions of the joints of each group in `gs`, group after group.
pub open spec fn flat(av: AssemblyV, gs: Seq<Option<Seq<char>>>) -> Seq<int>
    decreases gs.len(),
{
    if gs.len() == 0 {
        seq![]
    } else {
        members(av.mates, gs[0], av.mates.len() as int) + flat(av, gs.drop_first())
    }
}

proof fn lemma_mates_of_concat(a: Seq<StepV>, b: Seq<StepV>)
    ensures
        mates_of(a + b) == mates_of(a) + mates_of(b),
    decreases b.len(),
{
    if b.len() == 0 {
        assert(a + b =~= a);
        assert(mates_of(a) + mates_of(b) =~= mates_of(a));
    } else {
        assert((a + b).drop_last() =~= a + b.drop_last());
        lemma_mates_of_concat(a, b.drop_last());
        match b.last().mate {
            Some(m) => {
                assert(mates_of(a) + mates_of(b) =~= (mates_of(a) + mates_of(b.drop_last())).push(m));
            },
            None => {},
        }
    }
}

proof fn lemma_mates_of_same(s: Seq<StepV>, t: Seq<StepV>)
    requires
        s.len() == t.len(),
        forall|i: int| 0 <= i < s.len() ==> (#[trigger] s[i]).mate == t[i].mate,
    ensures
        mates_of(s) == mates_of(t),
    decreases s.len(),
{
    if s.len() > 0 {
        lemma_mates_of_same(s.drop_last(), t.drop_last());
    }
}

proof fn lemma_mates_of_starts(s: Seq<StepV>)
    requires
        forall|i: int| 0 <= i < s.len() ==> (#[trigger] s[i]).mate is None,
    ensures
        mates_of(s) == Seq::<Seq<char>>::empty(),
    decreases s.len(),
{
    if s.len() > 0 {
        lemma_mates_of_starts(s.drop_last());
    }
}

proof fn lemma_mates_of_unordered(av: AssemblyV, left: Seq<int>, g: Option<Seq<char>>)
    ensures
        mates_of(unordered_steps(av, left, g)) == ids_at(av, left),
    decreases left.len(),
{
    if left.len() > 0 {
        let u = unordered_steps(av, left, g);
        assert(u.drop_last() =~= unordered_steps(av, left.drop_last(), g));
        lemma_mates_of_unordered(av, left.drop_last(), g);
        assert(ids_at(av, left) =~= ids_at(av, left.drop_last()).push(av.mates[left.last()].id));
    }
}

proof fn lemma_ids_at_concat(av: AssemblyV, a: Seq<int>, b: Seq<int>)
    ensures
        ids_at(av, a + b) == ids_at(av, a) + ids_at(av, b),
{
    assert(ids_at(av, a + b) =~= ids_at(av, a) + ids_at(av, b));
}

/// A pass makes or keeps each waiting joint, and nothing else.
proof fn lemma_pass_accounts(av: AssemblyV, rem: Seq<int>, done: Seq<Seq<char>>, g: Option<Seq<char>>)
    ensures
        ({
            let p = pass(av, rem, done, g);
            mates_of(p.steps).to_multiset().add(ids_at(av, p.kept).to_multiset())
                == ids_at(av, rem).to_multiset()
        }),
    decreases rem.len(),
{
    if rem.len() == 0 {
        assert(ids_at(av, rem) =~= Seq::<Seq<char>>::empty());
        assert(mates_of(Seq::<StepV>::empty()) =~= Seq::<Seq<char>>::empty());
        assert(Seq::<Seq<char>>::empty().to_multiset().add(Seq::<Seq<char>>::empty().to_multiset())
            =~= Seq::<Seq<char>>::empty().to_multiset());
    } else {
        let m = av.mates[rem[0]];
        let head = seq![av.mates[rem[0]].id];
        assert(ids_at(av, rem) =~= head + ids_at(av, rem.drop_first()));
        if super::steps::ready(av, m, done) {
            let d2 = done.push(m.a).push(m.b);
            lemma_pass_accounts(av, rem.drop_first(), d2, g);
            let r = pass(av, rem.drop_first(), d2, g);
            let st = super::steps::joint_step(m, super::steps::joint_kind(av, m), g);
            lemma_mates_of_concat(seq![st], r.steps);
            assert(mates_of(seq![st]) =~= head) by {
                assert(seq![st].drop_last() =~= Seq::<StepV>::empty());
                assert(mates_of(Seq::<StepV>::empty()) =~= Seq::<Seq<char>>::empty());
                assert(st.mate == Some(av.mates[rem[0]].id));
            }
            let lhs = mates_of(pass(av, rem, done, g).steps).to_multiset().add(
                ids_at(av, r.kept).to_multiset(),
            );
            assert(lhs =~= ids_at(av, rem).to_multiset());
        } else {
            lemma_pass_accounts(av, rem.drop_first(), done, g);
            let r = pass(av, rem.drop_first(), done, g);
            assert(ids_at(av, seq![rem[0]] + r.kept) =~= head + ids_at(av, r.kept));
            let lhs = mates_of(r.steps).to_multiset().add(
                ids_at(av, seq![rem[0]] + r.kept).to_multiset(),
            );
            assert(lhs =~= ids_at(av, rem).to_multiset());
        }
    }
}

proof fn lemma_rounds_accounts(
    av: AssemblyV,
    rem: Seq<int>,
    done: Seq<Seq<char>>,
    guard: nat,
    g: Option<Seq<char>>,
)
    ensures
        ({
            let p = rounds(av, rem, done, guard, g);
            mates_of(p.steps).to_multiset().add(ids_at(av, p.kept).to_multiset())
                == ids_at(av, rem).to_multiset()
        }),
    decreases guard,
{
    if rem.len() == 0 || guard == 0 {
        assert(mates_of(Seq::<StepV>::empty()) =~= Seq::<Seq<char>>::empty());
        assert(Seq::<Seq<char>>::empty().to_multiset().add(ids_at(av, rem).to_multiset())
            =~= ids_at(av, rem).to_multiset());
    } else {
        let p = pass(av, rem, done, g);
        lemma_pass_accounts(av, rem, done, g);
        if p.progressed {
            let r = rounds(av, p.kept, p.done, (guard - 1) as nat, g);
            lemma_rounds_accounts(av, p.kept, p.done, (guard - 1) as nat, g);
            lemma_mates_of_concat(p.steps, r.steps);
            assert(mates_of(p.steps + r.steps).to_multiset().add(ids_at(av, r.kept).to_multiset())
                =~= ids_at(av, rem).to_multiset());
        }
    }
}

/// The steps of a group make exactly the joints of the group.
proof fn lemma_group_accounts(av: AssemblyV, g: Option<Seq<char>>, done: Seq<Seq<char>>)
    ensures
        mates_of(group_steps(av, g, done).0).to_multiset() == ids_at(
            av,
            members(av.mates, g, av.mates.len() as int),
        ).to_multiset(),
{
    let ig = members(av.mates, g, av.mates.len() as int);
    if ig.len() == 0 {
        assert(ids_at(av, ig) =~= Seq::<Seq<char>>::empty());
        assert(mates_of(Seq::<StepV>::empty()) =~= Seq::<Seq<char>>::empty());
    } else {
        let rs = super::steps::roots(av, g);
        let r = rounds(av, ig, done + rs, (ig.len() + 1) as nat, g);
        let a = seq![start_step(g, title(g))] + lay_out_steps(rs, g);
        let u = unordered_steps(av, r.kept, g);
        lemma_rounds_accounts(av, ig, done + rs, (ig.len() + 1) as nat, g);
        lemma_mates_of_starts(a);
        lemma_mates_of_unordered(av, r.kept, g);
        lemma_mates_of_concat(a, r.steps);
        lemma_mates_of_concat(a + r.steps, u);
        assert(seq![start_step(g, title(g))] + lay_out_steps(rs, g) + r.steps + u == (a + r.steps) + u);
        assert(mates_of((a + r.steps) + u) =~= mates_of(r.steps) + ids_at(av, r.kept));
    }
}

proof fn lemma_groups_accounts(av: AssemblyV, gs: Seq<Option<Seq<char>>>, done: Seq<Seq<char>>)
    ensures
        mates_of(groups_steps(av, gs, done)).to_multiset() == ids_at(av, flat(av, gs)).to_multiset(),
    decreases gs.len(),
{
    if gs.len() == 0 {
        assert(mates_of(Seq::<StepV>::empty()) =~= Seq::<Seq<char>>::empty());
        assert(ids_at(av, Seq::<int>::empty()) =~= Seq::<Seq<char>>::empty());
    } else {
        let (s, d) = group_steps(av, gs[0], done);
        lemma_group_accounts(av, gs[0], done);
        lemma_groups_accounts(av, gs.drop_first(), d);
        lemma_mates_of_concat(s, groups_steps(av, gs.drop_first(), d));
        lemma_ids_at_concat(
            av,
            members(av.mates, gs[0], av.mates.len() as int),
            flat(av, gs.drop_first()),
        );
    }
}

/// How often position `j` is among the members of group `g`.
proof fn lemma_members_count(ms: Seq<JointV>, g: Option<Seq<char>>, n: int, j: int)
    requires
        0 <= n <= ms.len(),
    ensures
        members(ms, g, n).to_multiset().count(j) == if 0 <= j < n && ms[j].unit == g {
            1nat
        } else {
            0nat
        },
    decreases n,
{
    if n > 0 {
        lemma_members_count(ms, g, n - 1, j);
    } else {
        assert(members(ms, g, n) =~= Seq::<int>::empty());
    }
}

proof fn lemma_flat_count(av: AssemblyV, gs: Seq<Option<Seq<char>>>, j: int)
    requires
        0 <= j < av.mates.len(),
    ensures
        flat(av, gs).to_multiset().count(j) == gs.to_multiset().count(av.mates[j].unit),
    decreases gs.len(),
{
    if gs.len() == 0 {
        assert(flat(av, gs) =~= Seq::<int>::empty());
        assert(gs =~= Seq::<Option<Seq<char>>>::empty());
    } else {
        lemma_flat_count(av, gs.drop_first(), j);
        lemma_members_count(av.mates, gs[0], av.mates.len() as int, j);
        assert(gs =~= seq![gs[0]] + gs.drop_first());
        assert(seq![gs[0]].to_multiset().count(av.mates[j].unit) == if gs[0] == av.mates[j].unit {
            1nat
        } else {
            0nat
        }) by {
            assert(seq![gs[0]] =~= Seq::<Option<Seq<char>>>::empty().push(gs[0]));
        }
    }
}

proof fn lemma_units_seen(ms: Seq<JointV>, u: Option<Seq<char>>)
    ensures
        units_seen(ms).to_multiset().count(u) == if exists|i: int|
            0 <= i < ms.len() && (#[trigger] ms[i]).unit == u {
            1nat
        } else {
            0nat
        },
    decreases ms.len(),
{
    if ms.len() == 0 {
        assert(units_seen(ms) =~= Seq::<Option<Seq<char>>>::empty());
    } else {
        let pre = ms.drop_last();
        lemma_units_seen(pre, u);
        lemma_units_seen(pre, ms.last().unit);
        if exists|i: int| 0 <= i < pre.len() && (#[trigger] pre[i]).unit == u {
            let i = choose|i: int| 0 <= i < pre.len() && (#[trigger] pre[i]).unit == u;
            assert(ms[i].unit == u);
        }
        if exists|i: int| 0 <= i < ms.len() && (#[trigger] ms[i]).unit == u {
            let i = choose|i: int| 0 <= i < ms.len() && (#[trigger] ms[i]).unit == u;
            if i < pre.len() {
                assert(pre[i].unit == u);
            }
        }
    }
}

proof fn lemma_somes_nones_count(d: Seq<Option<Seq<char>>>)
    ensures
        (somes(d) + nones(d)).to_multiset() == d.to_multiset(),
    decreases d.len(),
{
    if d.len() == 0 {
        assert(somes(d) + nones(d) =~= d);
    } else {
        lemma_somes_nones_count(d.drop_last());
        assert(d =~= d.drop_last().push(d.last()));
        assert((somes(d) + nones(d)).to_multiset() =~= d.to_multiset());
    }
}

/// Every joint position is in exactly one group's list.
proof fn lemma_flat_is_every_joint(av: AssemblyV)
    ensures
        flat(av, build_groups(av)).to_multiset() == Seq::new(av.mates.len(), |i: int| i).to_multiset(),
{
    let gs = build_groups(av);
    let all = Seq::new(av.mates.len(), |i: int| i);
    lemma_somes_nones_count(units_seen(av.mates));
    assert forall|j: int| #[trigger] flat(av, gs).to_multiset().count(j) == all.to_multiset().count(j) by {
        lemma_all_count(av.mates.len() as int, j);
        if 0 <= j < av.mates.len() {
            lemma_flat_count(av, gs, j);
            lemma_units_seen(av.mates, av.mates[j].unit);
        } else {
            if flat(av, gs).to_multiset().count(j) > 0 {
                assert(flat(av, gs).contains(j));
                lemma_flat_in_range(av, gs, j);
            }
        }
    }
    assert(flat(av, gs).to_multiset() =~= all.to_multiset());
}

proof fn lemma_all_count(n: int, j: int)
    requires
        n >= 0,
    ensures
        Seq::new(n as nat, |i: int| i).to_multiset().count(j) == if 0 <= j < n {
            1nat
        } else {
            0nat
        },
    decreases n,
{
    if n == 0 {
        assert(Seq::new(n as nat, |i: int| i) =~= Seq::<int>::empty());
    } else {
        lemma_all_count(n - 1, j);
        assert(Seq::new(n as nat, |i: int| i) =~= Seq::new((n - 1) as nat, |i: int| i).push(n - 1));
    }
}

proof fn lemma_members_in_range(ms: Seq<JointV>, g: Option<Seq<char>>, n: int, j: int)
    requires
        members(ms, g, n).contains(j),
    ensures
        0 <= j < n,
    decreases n,
{
    if n > 0 {
        if ms[n - 1].unit == g && j == n - 1 {
        } else {
            let p = members(ms, g, n - 1);
            if ms[n - 1].unit == g {
                let k = choose|k: int| 0 <= k < members(ms, g, n).len() && members(ms, g, n)[k] == j;
                assert(k < p.len());
                assert(p[k] == j);
            }
            lemma_members_in_range(ms, g, n - 1, j);
        }
    }
}

proof fn lemma_flat_in_range(av: AssemblyV, gs: Seq<Option<Seq<char>>>, j: int)
    requires
        flat(av, gs).contains(j),
    ensures
        0 <= j < av.mates.len(),
    decreases gs.len(),
{
    if gs.len() > 0 {
        let a = members(av.mates, gs[0], av.mates.len() as int);
        let b = flat(av, gs.drop_first());
        let k = choose|k: int| 0 <= k < (a + b).len() && (a + b)[k] == j;
        if k < a.len() {
            assert(a[k] == j);
            lemma_members_in_range(av.mates, gs[0], av.mates.len() as int, j);
        } else {
            assert(b[k - a.len()] == j);
            lemma_flat_in_range(av, gs.drop_first(), j);
        }
    }
}

/// Two lists holding the same things hold the same things once each is mapped.
proof fn lemma_map_to_multiset<A, B>(a: Seq<A>, b: Seq<A>, f: spec_fn(A) -> B)
    requires
        a.to_multiset() == b.to_multiset(),
    ensures
        a.map_values(f).to_multiset() == b.map_values(f).to_multiset(),
    decreases a.len(),
{
    if a.len() == 0 {
        assert(b.to_multiset().len() == 0);
        assert(a.map_values(f) =~= b.map_values(f));
    } else {
        let x = a[0];
        assert(a.contains(x));
        assert(a.to_multiset().count(x) > 0);
        assert(b.to_multiset().count(x) > 0);
        assert(b.contains(x));
        let k = choose|k: int| 0 <= k < b.len() && b[k] == x;
        let a1 = a.remove(0);
        let b1 = b.remove(k);
        assert(a1.to_multiset() == a.to_multiset().remove(x));
        assert(b1.to_multiset() == b.to_multiset().remove(x));
        lemma_map_to_multiset(a1, b1, f);
        let fa = a.map_values(f);
        let fb = b.map_values(f);
        assert(fa.remove(0) =~= a1.map_values(f));
        assert(fb.remove(k) =~= b1.map_values(f));
        assert(fa.remove(0).to_multiset() == fa.to_multiset().remove(f(x)));
        assert(fb.remove(k).to_multiset() == fb.to_multiset().remove(f(x)));
        assert(fa[0] == f(x));
        assert(fb[k] == f(x));
        assert(fa.contains(fa[0]));
        assert(fb.contains(fb[k]));
        let ma = fa.to_multiset();
        let mb = fb.to_multiset();
        assert(ma.count(f(x)) > 0);
        assert(mb.count(f(x)) > 0);
        assert(ma.remove(f(x)) == mb.remove(f(x)));
        assert forall|w: B| ma.count(w) == mb.count(w) by {
            assert(ma.remove(f(x)).count(w) == mb.remove(f(x)).count(w));
        }
        assert(ma =~= mb);
    }
}

/// Every joint becomes exactly one step: the joints the instructions make are the joints of
/// the assembly, each as often as it occurs there.
pub proof fn law_every_joint_one_step(av: AssemblyV)
    ensures
        mates_of(instructions(av)).to_multiset() == joint_ids(av.mates).to_multiset(),
{
    let gs = build_groups(av);
    let s = groups_steps(av, gs, seq![]);
    lemma_mates_of_same(instructions(av), s);
    lemma_groups_accounts(av, gs, seq![]);
    lemma_flat_is_every_joint(av);
    let all = Seq::new(av.mates.len(), |i: int| i);
    lemma_map_to_multiset(flat(av, gs), all, |j: int| av.mates[j].id);
    assert(ids_at(av, all) =~= joint_ids(av.mates));
}

} // verus!

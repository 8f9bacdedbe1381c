//! The fastener schedule: every fastener in the vehicle, grouped by what you would order.

use vstd::prelude::*;

use super::grouping::{
    first_positions, firsts, ints, keys_view, stable_order, stable_positions,
};
use super::tally::{
    group_weights, lemma_firsts_range, lemma_list_weighs_all, lemma_stable_order_range, total, weight,
};
use crate::text::{concat, opt_text, same_text, texts};

verus! {

/// The fastening of one joint, as the schedule reads it. The torque is the figure as the
/// schedule's key writes it, to one decimal place, or empty when the joint gives none.
pub struct FastenerUse {
    pub joint: String,
    pub kind: String,
    pub size: String,
    pub grade: String,
    pub quantity: u32,
    pub torque: String,
    pub nut: Option<String>,
    pub washer: Option<String>,
    pub thread_locker: Option<String>,
    /// The joint is made by the person building the vehicle.
    pub kit: bool,
}

pub struct FastenerUseV {
    pub joint: Seq<char>,
    pub kind: Seq<char>,
    pub size: Seq<char>,
    pub grade: Seq<char>,
    pub quantity: u32,
    pub torque: Seq<char>,
    pub nut: Option<Seq<char>>,
    pub washer: Option<Seq<char>>,
    pub thread_locker: Option<Seq<char>>,
    pub kit: bool,
}

impl View for FastenerUse {
    type V = FastenerUseV;

    open spec fn view(&self) -> FastenerUseV {
        FastenerUseV {
            joint: self.joint@,
            kind: self.kind@,
            size: self.size@,
            grade: self.grade@,
            quantity: self.quantity,
            torque: self.torque@,
            nut: opt_text(self.nut),
            washer: opt_text(self.washer),
            thread_locker: opt_text(self.thread_locker),
            kit: self.kit,
        }
    }
}

/// One line of the schedule.
pub struct Fastener {
    pub kind: String,
    pub size: String,
    pub grade: String,
    pub quantity: u32,
    pub nut: Option<String>,
    pub washer: Option<String>,
    pub thread_locker: Option<String>,
    /// At least one joint using it is made by the person building the vehicle.
    pub kit: bool,
    /// The joints that use it, so a missing torque can be traced.
    pub joints: Vec<String>,
    /// The first use on the line, whose torque the line shows.
    pub first: usize,
}

pub struct FastenerV {
    pub kind: Seq<char>,
    pub size: Seq<char>,
    pub grade: Seq<char>,
    pub quantity: nat,
    pub nut: Option<Seq<char>>,
    pub washer: Option<Seq<char>>,
    pub thread_locker: Option<Seq<char>>,
    pub kit: bool,
    pub joints: Seq<Seq<char>>,
    pub first: int,
}

impl View for Fastener {
    type V = FastenerV;

    open spec fn view(&self) -> FastenerV {
        FastenerV {
            kind: self.kind@,
            size: self.size@,
            grade: self.grade@,
            quantity: self.quantity as nat,
            nut: opt_text(self.nut),
            washer: opt_text(self.washer),
            thread_locker: opt_text(self.thread_locker),
            kit: self.kit,
            joints: texts(self.joints@),
            first: self.first as int,
        }
    }
}

pub open spec fn uses_view(v: Seq<FastenerUse>) -> Seq<FastenerUseV> {
    v.map_values(|u: FastenerUse| u@)
}

pub open spec fn lines_view(v: Seq<Fastener>) -> Seq<FastenerV> {
    v.map_values(|l: Fastener| l@)
}

/// What makes two fastenings the same line. Torque is part of it, not something averaged
/// away: two M12 bolts tightened to different figures are two lines, because one line with
/// "varies" on it is useless to the person holding the wrench.
pub open spec fn fastener_key(u: FastenerUseV) -> Seq<char> {
    u.kind + "|"@ + u.size + "|"@ + u.grade + "|"@ + u.torque
}

pub open spec fn fastener_keys(us: Seq<FastenerUseV>) -> Seq<Seq<char>> {
    us.map_values(|u: FastenerUseV| fastener_key(u))
}

/// How many fasteners the first `n` uses of key `k` take.
pub open spec fn quantity_of(us: Seq<FastenerUseV>, k: Seq<char>, n: int) -> nat
    decreases n,
{
    if n <= 0 {
        0
    } else {
        quantity_of(us, k, n - 1) + if fastener_key(us[n - 1]) == k {
            us[n - 1].quantity as nat
        } else {
            0nat
        }
    }
}

/// The joints among the first `n` uses of key `k`, in order.
pub open spec fn joints_of(us: Seq<FastenerUseV>, k: Seq<char>, n: int) -> Seq<Seq<char>>
    decreases n,
{
    if n <= 0 {
        seq![]
    } else if fastener_key(us[n - 1]) == k {
        joints_of(us, k, n - 1).push(us[n - 1].joint)
    } else {
        joints_of(us, k, n - 1)
    }
}

/// One of the first `n` uses of key `k` is made by the kit builder.
pub open spec fn kit_of(us: Seq<FastenerUseV>, k: Seq<char>, n: int) -> bool {
    exists|i: int| 0 <= i < n && fastener_key(us[i]) == k && us[i].kit
}

/// The line whose first use is `f`.
pub open spec fn fastener_line(us: Seq<FastenerUseV>, f: int) -> FastenerV {
    let k = fastener_key(us[f]);
    FastenerV {
        kind: us[f].kind,
        size: us[f].size,
        grade: us[f].grade,
        quantity: quantity_of(us, k, us.len() as int),
        nut: us[f].nut,
        washer: us[f].washer,
        thread_locker: us[f].thread_locker,
        kit: kit_of(us, k, us.len() as int),
        joints: joints_of(us, k, us.len() as int),
        first: f,
    }
}

/// How the lines are ordered: by kind, size and grade.
pub open spec fn fastener_order_key(u: FastenerUseV) -> Seq<Seq<char>> {
    seq![u.kind, u.size, u.grade]
}

/// The schedule: one line per key, in the order of kind, size and grade, lines that tie in the
/// order their keys were first met.
pub open spec fn schedule(us: Seq<FastenerUseV>) -> Seq<FastenerV> {
    let fs = firsts(fastener_keys(us));
    let ks = fs.map_values(|f: int| fastener_order_key(us[f]));
    stable_order(ks, fs.len() as int).map_values(|j: int| fastener_line(us, fs[j]))
}

proof fn lemma_quantity_grows(us: Seq<FastenerUseV>, k: Seq<char>, i: int, n: int)
    requires
        0 <= i <= n,
    ensures
        quantity_of(us, k, i) <= quantity_of(us, k, n),
    decreases n - i,
{
    if i < n {
        lemma_quantity_grows(us, k, i, n - 1);
    }
}

fn key_of(u: &FastenerUse) -> (r: String)
    ensures
        r@ == fastener_key(u@),
{
    let mut s = concat(u.kind.as_str(), "|");
    s.append(u.size.as_str());
    s.append("|");
    s.append(u.grade.as_str());
    s.append("|");
    s.append(u.torque.as_str());
    s
}

fn clone_opt(o: &Option<String>) -> (r: Option<String>)
    ensures
        opt_text(r) == opt_text(*o),
{
    match o {
        Some(s) => Some(s.clone()),
        None => None,
    }
}

/// The line for the key of use `f`.
fn line_for(uses: &Vec<FastenerUse>, keys: &Vec<String>, f: usize) -> (r: Fastener)
    requires
        f < uses@.len(),
        keys@.len() == uses@.len(),
        texts(keys@) == fastener_keys(uses_view(uses@)),
        quantity_of(
            uses_view(uses@),
            fastener_key(uses_view(uses@)[f as int]),
            uses@.len() as int,
        ) <= u32::MAX,
    ensures
        r@ == fastener_line(uses_view(uses@), f as int),
{
    let ghost us = uses_view(uses@);
    let ghost k = fastener_key(us[f as int]);
    assert(keys@[f as int]@ == k) by {
        assert(texts(keys@)[f as int] == fastener_keys(us)[f as int]);
    }
    let mut quantity: u32 = 0;
    let mut kit = false;
    let mut joints: Vec<String> = Vec::new();
    let mut i: usize = 0;
    while i < uses.len()
        invariant
            us == uses_view(uses@),
            keys@.len() == uses@.len(),
            texts(keys@) == fastener_keys(us),
            f < uses@.len(),
            k == fastener_key(us[f as int]),
            keys@[f as int]@ == k,
            quantity_of(us, k, uses@.len() as int) <= u32::MAX,
            i <= uses@.len(),
            quantity as nat == quantity_of(us, k, i as int),
            kit == kit_of(us, k, i as int),
            texts(joints@) == joints_of(us, k, i as int),
        decreases uses@.len() - i,
    {
        assert(texts(keys@)[i as int] == fastener_keys(us)[i as int]);
        assert(us[i as int] == uses@[i as int]@);
        if same_text(keys[i].as_str(), keys[f].as_str()) {
            proof {
                lemma_quantity_grows(us, k, i + 1, uses@.len() as int);
            }
            quantity = quantity + uses[i].quantity;
            if uses[i].kit {
                kit = true;
            }
            let ghost before = joints@;
            joints.push(uses[i].joint.clone());
            assert(texts(joints@) =~= texts(before).push(us[i as int].joint));
        }
        assert(kit == kit_of(us, k, i + 1)) by {
            if kit_of(us, k, i + 1) && !kit_of(us, k, i as int) {
                assert(fastener_key(us[i as int]) == k && us[i as int].kit);
            }
        }
        i += 1;
    }
    let u = &uses[f];
    assert(us[f as int] == u@);
    Fastener {
        kind: u.kind.clone(),
        size: u.size.clone(),
        grade: u.grade.clone(),
        quantity,
        nut: clone_opt(&u.nut),
        washer: clone_opt(&u.washer),
        thread_locker: clone_opt(&u.thread_locker),
        kit,
        joints,
        first: f,
    }
}

/// Every fastener in the vehicle, grouped by what you would order: one line per kind, size,
/// grade and torque, counting every bolt of every joint that uses it, in the order of kind,
/// size and grade.
pub fn fasteners(uses: &Vec<FastenerUse>) -> (r: Vec<Fastener>)
    requires
        forall|i: int|
            0 <= i < uses@.len() ==> quantity_of(
                uses_view(uses@),
                fastener_key(#[trigger] uses_view(uses@)[i]),
                uses@.len() as int,
            ) <= u32::MAX,
    ensures
        lines_view(r@) == schedule(uses_view(uses@)),
{
    let ghost us = uses_view(uses@);
    let mut keys: Vec<String> = Vec::new();
    let mut i: usize = 0;
    while i < uses.len()
        invariant
            us == uses_view(uses@),
            i <= uses@.len(),
            keys@.len() == i,
            texts(keys@) == fastener_keys(us).subrange(0, i as int),
        decreases uses@.len() - i,
    {
        let k = key_of(&uses[i]);
        assert(us[i as int] == uses@[i as int]@);
        assert(fastener_keys(us)[i as int] == fastener_key(us[i as int]));
        let ghost before = keys@;
        keys.push(k);
        assert(texts(keys@)[i as int] == fastener_keys(us)[i as int]);
        assert(texts(keys@) =~= fastener_keys(us).subrange(0, i + 1));
        i += 1;
    }
    assert(texts(keys@) =~= fastener_keys(us));
    let fs = first_positions(&keys);
    let ghost fsv = ints(fs@);
    let ghost ks = fsv.map_values(|f: int| fastener_order_key(us[f]));
    let mut order_keys: Vec<Vec<String>> = Vec::new();
    let mut g: usize = 0;
    while g < fs.len()
        invariant
            us == uses_view(uses@),
            fsv == ints(fs@),
            ks == fsv.map_values(|f: int| fastener_order_key(us[f])),
            forall|t: int| 0 <= t < fs@.len() ==> #[trigger] fs@[t] < uses@.len(),
            g <= fs@.len(),
            order_keys@.len() == g,
            keys_view(order_keys@) == ks.subrange(0, g as int),
        decreases fs@.len() - g,
    {
        let u = &uses[fs[g]];
        assert(us[fs@[g as int] as int] == u@);
        let mut row: Vec<String> = Vec::new();
        row.push(u.kind.clone());
        row.push(u.size.clone());
        row.push(u.grade.clone());
        assert(texts(row@) =~= fastener_order_key(u@));
        assert(fsv[g as int] == fs@[g as int] as int);
        assert(ks[g as int] == fastener_order_key(us[fsv[g as int]]));
        let ghost before = order_keys@;
        order_keys.push(row);
        assert(keys_view(order_keys@)[g as int] == texts(row@));
        assert(keys_view(order_keys@) =~= ks.subrange(0, g + 1));
        g += 1;
    }
    assert(keys_view(order_keys@) =~= ks);
    let order = stable_positions(&order_keys);
    let ghost ov = ints(order@);
    let mut out: Vec<Fastener> = Vec::new();
    let mut t: usize = 0;
    while t < order.len()
        invariant
            us == uses_view(uses@),
            keys@.len() == uses@.len(),
            texts(keys@) == fastener_keys(us),
            fsv == ints(fs@),
            ov == ints(order@),
            ov == stable_order(ks, fs@.len() as int),
            order@.len() == fs@.len(),
            forall|q: int| 0 <= q < order@.len() ==> #[trigger] order@[q] < fs@.len(),
            forall|q: int| 0 <= q < fs@.len() ==> #[trigger] fs@[q] < uses@.len(),
            forall|i: int|
                0 <= i < uses@.len() ==> quantity_of(
                    us,
                    fastener_key(#[trigger] us[i]),
                    uses@.len() as int,
                ) <= u32::MAX,
            t <= order@.len(),
            out@.len() == t,
            lines_view(out@) == ov.subrange(0, t as int).map_values(|j: int| fastener_line(us, fsv[j])),
        decreases order@.len() - t,
    {
        let f = fs[order[t]];
        assert(0 <= order@[t as int] < fs@.len());
        let line = line_for(uses, &keys, f);
        assert(ov[t as int] == order@[t as int] as int);
        assert(fsv[ov[t as int]] == f as int);
        let ghost before = out@;
        out.push(line);
        assert(lines_view(out@)[t as int] == line@);
        let ghost want = ov.subrange(0, t + 1).map_values(|j: int| fastener_line(us, fsv[j]));
        let ghost had = ov.subrange(0, t as int).map_values(|j: int| fastener_line(us, fsv[j]));
        assert forall|q: int| 0 <= q < t + 1 implies #[trigger] lines_view(out@)[q] == want[q] by {
            if q < t {
                assert(out@[q] == before[q]);
                assert(lines_view(before)[q] == had[q]);
                assert(had[q] == fastener_line(us, fsv[ov[q]]));
            } else {
                assert(want[q] == fastener_line(us, fsv[ov[q]]));
            }
        }
        assert(lines_view(out@) =~= want);
        t += 1;
    }
    assert(ov.subrange(0, order@.len() as int) =~= ov);
    out
}


/// The quantities of the lines of a schedule, in order.
pub open spec fn schedule_quantities(ls: Seq<FastenerV>) -> Seq<nat> {
    ls.map_values(|l: FastenerV| l.quantity)
}

/// The quantities of the uses, in order.
pub open spec fn use_quantities(us: Seq<FastenerUseV>) -> Seq<nat> {
    us.map_values(|u: FastenerUseV| u.quantity as nat)
}

proof fn lemma_quantity_weighs(us: Seq<FastenerUseV>, k: Seq<char>, n: int)
    requires
        0 <= n <= us.len(),
    ensures
        quantity_of(us, k, n) == weight(fastener_keys(us), use_quantities(us), k, n),
    decreases n,
{
    if n > 0 {
        lemma_quantity_weighs(us, k, n - 1);
    }
}

/// The schedule counts every bolt of every joint, the ones inside sub-assemblies too, and
/// counts each once: the quantities on its lines add up to the quantities of the joints.
pub proof fn law_every_bolt_is_counted(us: Seq<FastenerUseV>)
    ensures
        total(schedule_quantities(schedule(us)), schedule(us).len() as int) == total(
            use_quantities(us),
            us.len() as int,
        ),
{
    let keys = fastener_keys(us);
    let n = us.len() as int;
    let fs = firsts(keys);
    let ks = fs.map_values(|f: int| fastener_order_key(us[f]));
    let w = use_quantities(us);
    let hv = group_weights(keys, w, fs, n);
    let ord = stable_order(ks, fs.len() as int);
    lemma_list_weighs_all(keys, w, ks);
    lemma_stable_order_range(ks, fs.len() as int);
    lemma_firsts_range(keys, n);
    assert forall|t: int| 0 <= t < ord.len() implies #[trigger] schedule_quantities(schedule(us))[t]
        == ord.map_values(|j: int| hv[j])[t] by {
        let f = fs[ord[t]];
        assert(0 <= ord[t] < fs.len());
        assert(keys[f] == fastener_key(us[f]));
        lemma_quantity_weighs(us, keys[f], n);
    }
    assert(schedule_quantities(schedule(us)) =~= ord.map_values(|j: int| hv[j]));
}

/// Two fastenings you would order as one: the same kind, size and grade, tightened to the
/// same torque.
pub open spec fn ordered_alike(u: FastenerUseV, v: FastenerUseV) -> bool {
    u.kind == v.kind && u.size == v.size && u.grade == v.grade && u.torque == v.torque
}

/// How many fasteners the first `n` uses take that are ordered like `v`.
pub open spec fn alike_count(us: Seq<FastenerUseV>, v: FastenerUseV, n: int) -> nat
    decreases n,
{
    if n <= 0 {
        0
    } else {
        alike_count(us, v, n - 1) + if ordered_alike(us[n - 1], v) {
            us[n - 1].quantity as nat
        } else {
            0nat
        }
    }
}

/// A field without the `|` that the schedule's key separates fields with.
pub open spec fn plain(s: Seq<char>) -> bool {
    !s.contains('|')
}

pub open spec fn plain_use(u: FastenerUseV) -> bool {
    plain(u.kind) && plain(u.size) && plain(u.grade) && plain(u.torque)
}

proof fn lemma_bar_split(a: Seq<char>, b: Seq<char>, c: Seq<char>, d: Seq<char>)
    requires
        plain(a),
        plain(c),
        a + "|"@ + b == c + "|"@ + d,
    ensures
        a == c,
        b == d,
{
    reveal_strlit("|");
    let s = a + "|"@ + b;
    assert(s[a.len() as int] == '|');
    assert((c + "|"@ + d)[c.len() as int] == '|');
    if a.len() < c.len() {
        assert(s[a.len() as int] == c[a.len() as int]);
        assert(c.contains(c[a.len() as int]));
    } else if c.len() < a.len() {
        assert(s[c.len() as int] == a[c.len() as int]);
        assert(a.contains(a[c.len() as int]));
    }
    assert(a =~= s.subrange(0, a.len() as int));
    assert(c =~= s.subrange(0, c.len() as int));
    assert(b =~= s.subrange(a.len() as int + 1, s.len() as int));
    assert(d =~= s.subrange(c.len() as int + 1, s.len() as int));
}

/// Under plain fields, two uses share a schedule key exactly when they are ordered alike.
proof fn lemma_key_is_order(u: FastenerUseV, v: FastenerUseV)
    requires
        plain_use(u),
        plain_use(v),
    ensures
        (fastener_key(u) == fastener_key(v)) == ordered_alike(u, v),
{
    if fastener_key(u) == fastener_key(v) {
        let bar = "|"@;
        assert(fastener_key(u) =~= u.kind + bar + (u.size + bar + (u.grade + bar + u.torque)));
        assert(fastener_key(v) =~= v.kind + bar + (v.size + bar + (v.grade + bar + v.torque)));
        lemma_bar_split(u.kind, u.size + bar + (u.grade + bar + u.torque), v.kind, v.size + bar + (v.grade + bar + v.torque));
        lemma_bar_split(u.size, u.grade + bar + u.torque, v.size, v.grade + bar + v.torque);
        lemma_bar_split(u.grade, u.torque, v.grade, v.torque);
    }
}

proof fn lemma_quantity_is_alike(us: Seq<FastenerUseV>, v: FastenerUseV, n: int)
    requires
        0 <= n <= us.len(),
        plain_use(v),
        forall|i: int| 0 <= i < us.len() ==> plain_use(#[trigger] us[i]),
    ensures
        quantity_of(us, fastener_key(v), n) == alike_count(us, v, n),
    decreases n,
{
    if n > 0 {
        lemma_quantity_is_alike(us, v, n - 1);
        lemma_key_is_order(us[n - 1], v);
    }
}

/// A line of the schedule counts exactly what you would order as it: its kind, size and grade
/// are those of the use it was started from, and its quantity is the total of every use of that
/// kind, size, grade and torque, and of no other. Fastenings that differ in grade (or kind, or
/// size, or torque) never share a line. The schedule's key writes the fields with `|` between
/// them, so this holds of fields without a `|`.
pub proof fn law_a_line_counts_only_its_own_fasteners(us: Seq<FastenerUseV>)
    requires
        forall|i: int| 0 <= i < us.len() ==> plain_use(#[trigger] us[i]),
    ensures
        forall|j: int|
            0 <= j < schedule(us).len() ==> {
                let l = #[trigger] schedule(us)[j];
                &&& 0 <= l.first < us.len()
                &&& l.kind == us[l.first].kind
                &&& l.size == us[l.first].size
                &&& l.grade == us[l.first].grade
                &&& l.quantity == alike_count(us, us[l.first], us.len() as int)
            },
{
    let keys = fastener_keys(us);
    let fs = firsts(keys);
    let ks = fs.map_values(|f: int| fastener_order_key(us[f]));
    let g = fs.len() as int;
    lemma_firsts_range(keys, keys.len() as int);
    lemma_stable_order_range(ks, g);
    assert forall|j: int| 0 <= j < schedule(us).len() implies {
        let l = #[trigger] schedule(us)[j];
        &&& 0 <= l.first < us.len()
        &&& l.kind == us[l.first].kind
        &&& l.size == us[l.first].size
        &&& l.grade == us[l.first].grade
        &&& l.quantity == alike_count(us, us[l.first], us.len() as int)
    } by {
        let t = stable_order(ks, g)[j];
        assert(0 <= t < g);
        let f = fs[t];
        assert(0 <= f < us.len());
        assert(schedule(us)[j] == fastener_line(us, f));
        lemma_quantity_is_alike(us, us[f], us.len() as int);
    }
}

} // verus!

//! The order in which a part's parameters are resolved.
//!
//! Parameters may refer to each other in any order. They are resolved in rounds: each round
//! tries every parameter still pending, in order, and a parameter that refers to something not
//! yet known waits for the next round. Resolution ends when nothing is pending, or fails when a
//! whole round resolves nothing (a cycle, or a name that does not exist).
//!
//! Evaluating a parameter is numeric work done by the application: it asks what to evaluate
//! next, evaluates it, and reports whether it resolved.

use vstd::prelude::*;

verus! {

/// Where resolution stands.
pub struct ParamRounds {
    /// The parameters this round tries, in order.
    pending: Vec<usize>,
    /// Those of them tried so far this round that had to wait.
    still: Vec<usize>,
    /// How many of this round's parameters have been tried.
    at: usize,
}

pub struct ParamRoundsV {
    pub pending: Seq<int>,
    pub still: Seq<int>,
    pub at: int,
}

/// What to do next.
#[derive(Debug)]
pub enum RoundStep {
    /// Evaluate this parameter, then report whether it resolved.
    Evaluate(usize),
    /// Every parameter is resolved.
    Done,
    /// A whole round resolved nothing: these parameters cannot be resolved.
    Unresolved(Vec<usize>),
}

pub enum RoundStepV {
    Evaluate(int),
    Done,
    Unresolved(Seq<int>),
}

pub open spec fn ints(v: Seq<usize>) -> Seq<int> {
    v.map_values(|x: usize| x as int)
}

impl View for ParamRounds {
    type V = ParamRoundsV;

    closed spec fn view(&self) -> ParamRoundsV {
        ParamRoundsV { pending: ints(self.pending@), still: ints(self.still@), at: self.at as int }
    }
}

impl View for RoundStep {
    type V = RoundStepV;

    open spec fn view(&self) -> RoundStepV {
        match self {
            RoundStep::Evaluate(i) => RoundStepV::Evaluate(*i as int),
            RoundStep::Done => RoundStepV::Done,
            RoundStep::Unresolved(v) => RoundStepV::Unresolved(ints(v@)),
        }
    }
}

/// The state is consistent: the round has not run past its end, and only parameters already
/// tried can be waiting.
pub open spec fn rounds_wf(s: ParamRoundsV) -> bool {
    0 <= s.at <= s.pending.len() && s.still.len() <= s.at
}

/// The first round tries all `n` parameters.
pub open spec fn first_round(n: nat) -> ParamRoundsV {
    ParamRoundsV { pending: Seq::new(n, |i: int| i), still: seq![], at: 0 }
}

/// The next step from state `s`, and the state it leaves.
pub open spec fn round_step(s: ParamRoundsV) -> (ParamRoundsV, RoundStepV) {
    if s.at < s.pending.len() {
        (s, RoundStepV::Evaluate(s.pending[s.at]))
    } else if s.still.len() == 0 {
        (s, RoundStepV::Done)
    } else if s.still.len() == s.pending.len() {
        (s, RoundStepV::Unresolved(s.still))
    } else {
        (ParamRoundsV { pending: s.still, still: seq![], at: 0 }, RoundStepV::Evaluate(s.still[0]))
    }
}

/// The state after reporting on the parameter being evaluated.
pub open spec fn reported(s: ParamRoundsV, resolved: bool) -> ParamRoundsV {
    ParamRoundsV {
        pending: s.pending,
        still: if resolved {
            s.still
        } else {
            s.still.push(s.pending[s.at])
        },
        at: s.at + 1,
    }
}

/// How much work is left: the size of the round, then what is left of it.
pub open spec fn work(s: ParamRoundsV) -> (int, int) {
    (s.pending.len() as int, s.pending.len() - s.at)
}

pub open spec fn work_less(a: (int, int), b: (int, int)) -> bool {
    a.0 < b.0 || (a.0 == b.0 && a.1 < b.1)
}

fn copy_ints(v: &Vec<usize>) -> (r: Vec<usize>)
    ensures
        r@ == v@,
{
    let mut out: Vec<usize> = Vec::new();
    let mut i: usize = 0;
    while i < v.len()
        invariant
            i <= v@.len(),
            out@ == v@.subrange(0, i as int),
        decreases v@.len() - i,
    {
        out.push(v[i]);
        assert(out@ =~= v@.subrange(0, i + 1));
        i += 1;
    }
    assert(v@.subrange(0, v@.len() as int) =~= v@);
    out
}

impl ParamRounds {
    pub closed spec fn wf(&self) -> bool {
        rounds_wf(self@)
    }

    /// Start resolving `n` parameters.
    pub fn new(n: usize) -> (r: ParamRounds)
        ensures
            r@ == first_round(n as nat),
            r.wf(),
    {
        let mut pending: Vec<usize> = Vec::new();
        let mut i: usize = 0;
        while i < n
            invariant
                i <= n,
                pending@.len() == i,
                ints(pending@) == Seq::new(i as nat, |j: int| j),
            decreases n - i,
        {
            let ghost before = pending@;
            pending.push(i);
            assert forall|j: int| 0 <= j < i + 1 implies #[trigger] ints(pending@)[j] == j by {
                if j < i {
                    assert(pending@[j] == before[j]);
                    assert(ints(before)[j] == j);
                }
            }
            assert(ints(pending@) =~= Seq::new((i + 1) as nat, |j: int| j));
            i += 1;
        }
        let r = ParamRounds { pending, still: Vec::new(), at: 0 };
        assert(r.still@ =~= Seq::<usize>::empty());
        assert(ints(r.still@) =~= Seq::<int>::empty());
        r
    }

    /// What to do next.
    pub fn next(&mut self) -> (r: RoundStep)
        requires
            old(self).wf(),
        ensures
            (final(self)@, r@) == round_step(old(self)@),
            final(self).wf(),
    {
        if self.at < self.pending.len() {
            return RoundStep::Evaluate(self.pending[self.at]);
        }
        if self.still.len() == 0 {
            return RoundStep::Done;
        }
        if self.still.len() == self.pending.len() {
            return RoundStep::Unresolved(copy_ints(&self.still));
        }
        let mut next_round: Vec<usize> = Vec::new();
        std::mem::swap(&mut next_round, &mut self.still);
        self.pending = next_round;
        self.at = 0;
        assert(self@.still =~= Seq::<int>::empty());
        RoundStep::Evaluate(self.pending[0])
    }

    /// Report whether the parameter just evaluated resolved, or has to wait for a later round.
    pub fn report(&mut self, resolved: bool)
        requires
            old(self).wf(),
            old(self)@.at < old(self)@.pending.len(),
        ensures
            final(self)@ == reported(old(self)@, resolved),
            final(self).wf(),
    {
        assert(self.pending@.len() == self@.pending.len());
        let at = self.at;
        let len = self.pending.len();
        assert(at < len);
        if !resolved {
            let p = self.pending[at];
            self.still.push(p);
            assert(self@.still =~= old(self)@.still.push(old(self)@.pending[old(self)@.at]));
        }
        self.at = at + 1;
    }
}

/// Resolution always ends. Every parameter evaluated and reported on leaves less work than
/// there was before it was handed out: a new round is only started when the last one resolved
/// something, so rounds shrink.
pub proof fn law_resolution_ends(s: ParamRoundsV, resolved: bool)
    requires
        rounds_wf(s),
        round_step(s).1 is Evaluate,
    ensures
        rounds_wf(round_step(s).0),
        round_step(s).0.at < round_step(s).0.pending.len(),
        rounds_wf(reported(round_step(s).0, resolved)),
        work_less(work(reported(round_step(s).0, resolved)), work(s)),
{
}

/// Resolution fails only when a whole round resolved nothing, and then names exactly the
/// parameters of that round.
pub proof fn law_unresolved_means_no_progress(s: ParamRoundsV)
    requires
        rounds_wf(s),
        round_step(s).1 is Unresolved,
    ensures
        s.at == s.pending.len(),
        round_step(s).1 == RoundStepV::Unresolved(s.still),
        s.still.len() == s.pending.len(),
{
}

} // verus!

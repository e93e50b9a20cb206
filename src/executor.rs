//! The decisions of a migration run: which migration to apply next, and what
//! to record of each outcome. The caller applies each migration in a
//! transaction of the store of its own and reports back.
use vstd::prelude::*;
use crate::resolver::{resolve, MigrationDescriptor, ResolveError, dependencies_known, pending_order, unique_registry};

verus! {

/// What the caller is to do next.
#[derive(PartialEq, Eq, Debug, Clone, Copy, Structural)]
pub enum RunAction {
    /// Apply this migration, in a transaction of its own.
    Apply(u128),
    /// This migration is already recorded as applied; it must not run again.
    AlreadyApplied(u128),
    /// Every migration of the run was applied.
    Finished,
    /// This migration failed; its transaction was rolled back and the run ends.
    Aborted(u128),
}

/// The state of a run: the order to apply, how far it has come, what is
/// recorded as applied, and the migration that failed, if one did.
pub struct MigrationRun {
    order: Vec<u128>,
    next: usize,
    applied: Vec<u128>,
    failed: Option<u128>,
}

/// What a run holds, as sequences.
pub ghost struct RunModel {
    pub order: Seq<u128>,
    pub next: int,
    pub applied: Seq<u128>,
    pub failed: Option<u128>,
}

impl View for MigrationRun {
    type V = RunModel;

    closed spec fn view(&self) -> RunModel {
        RunModel { order: self.order@, next: self.next as int, applied: self.applied@, failed: self.failed }
    }
}

/// The action that a run in state `m` asks for.
pub open spec fn action_spec(m: RunModel) -> RunAction {
    match m.failed {
        Some(id) => RunAction::Aborted(id),
        None => if m.next >= m.order.len() {
            RunAction::Finished
        } else if m.applied.contains(m.order[m.next]) {
            RunAction::AlreadyApplied(m.order[m.next])
        } else {
            RunAction::Apply(m.order[m.next])
        },
    }
}

/// The state after the caller reports whether the migration it was asked to
/// apply succeeded: on success it is recorded as applied and the run moves
/// on; on failure nothing is recorded and the run is over.
pub open spec fn step_spec(m: RunModel, succeeded: bool) -> RunModel {
    if succeeded {
        RunModel { next: m.next + 1, applied: m.applied.push(m.order[m.next]), ..m }
    } else {
        RunModel { failed: Some(m.order[m.next]), ..m }
    }
}

/// The state after the outcomes `o` are reported one by one, for as long as
/// the run asks for a migration to be applied.
pub open spec fn run_outcomes(m: RunModel, o: Seq<bool>) -> RunModel
    decreases o.len(),
{
    if o.len() == 0 {
        m
    } else if action_spec(m) is Apply {
        run_outcomes(step_spec(m, o[0]), o.drop_first())
    } else {
        m
    }
}

/// The state in which a run of `order` begins, with `applied` recorded.
pub open spec fn start_spec(order: Seq<u128>, applied: Seq<u128>) -> RunModel {
    RunModel { order, next: 0, applied, failed: None }
}

impl MigrationRun {
    /// A run of `order`, with `applied` recorded as applied so far.
    pub fn new(order: Vec<u128>, applied: Vec<u128>) -> (r: MigrationRun)
        ensures
            r@ == start_spec(order@, applied@),
    {
        MigrationRun { order, next: 0, applied, failed: None }
    }

    /// The migrations recorded as applied.
    pub fn applied(&self) -> (r: &Vec<u128>)
        ensures
            r@ == self@.applied,
    {
        &self.applied
    }

    /// What the caller is to do next.
    pub fn next_action(&self) -> (r: RunAction)
        ensures
            r == action_spec(self@),
    {
        match self.failed {
            Some(id) => RunAction::Aborted(id),
            None => {
                if self.next >= self.order.len() {
                    RunAction::Finished
                } else {
                    let id = self.order[self.next];
                    let mut k: usize = 0;
                    while k < self.applied.len()
                        invariant
                            self.failed.is_none(),
                            self.next < self.order.len(),
                            id == self.order@[self.next as int],
                            k <= self.applied.len(),
                            forall|j: int| 0 <= j < k ==> self.applied@[j] != id,
                        decreases self.applied.len() - k,
                    {
                        if self.applied[k] == id {
                            assert(self.applied@[k as int] == id);
                            assert(self.applied@.contains(id));
                            return RunAction::AlreadyApplied(id);
                        }
                        k = k + 1;
                    }
                    RunAction::Apply(id)
                }
            },
        }
    }

    /// Records the outcome of the migration that the run asked to apply.
    pub fn record_outcome(&mut self, succeeded: bool)
        requires
            action_spec(old(self)@) is Apply,
        ensures
            final(self)@ == step_spec(old(self)@, succeeded),
    {
        assert(self.next < self.order.len());
        let id = self.order[self.next];
        if succeeded {
            self.applied.push(id);
            self.next = self.next + 1;
        } else {
            self.failed = Some(id);
        }
    }
}

/// A run of the migrations of `reg` not in `applied`, in resolved order; when
/// resolution fails, no run begins and nothing is applied.
pub fn plan_run(reg: &Vec<MigrationDescriptor>, applied: Vec<u128>) -> (r: Result<MigrationRun, ResolveError>)
    requires
        unique_registry(reg@),
    ensures
        r.is_ok() <==> dependencies_known(reg@) && exists|o: Seq<u128>| pending_order(reg@, Seq::empty(), o),
        r matches Ok(run) ==> run@.next == 0 && run@.failed.is_none() && run@.applied == applied@
            && pending_order(reg@, applied@, run@.order),
{
    match resolve(reg, &applied) {
        Err(e) => Err(e),
        Ok(order) => Ok(MigrationRun::new(order, applied)),
    }
}

/// When the migration at position `f` of the run fails after the ones before
/// it succeeded, those before it, and only those, are added to what is
/// recorded as applied, and no later migration is asked for.
pub proof fn lemma_failure_stops_run(m: RunModel, o: Seq<bool>, f: int)
    requires
        m.failed.is_none(),
        0 <= m.next,
        0 <= f,
        m.next + f < m.order.len(),
        f < o.len(),
        forall|k: int| 0 <= k < f ==> o[k],
        !o[f],
        forall|k1: int, k2: int| 0 <= k1 < k2 < m.order.len() ==> m.order[k1] != m.order[k2],
        forall|k: int| m.next <= k < m.order.len() ==> !m.applied.contains(#[trigger] m.order[k]),
    ensures
        run_outcomes(m, o).applied == m.applied + m.order.subrange(m.next, m.next + f),
        run_outcomes(m, o).next == m.next + f,
        run_outcomes(m, o).failed == Some(m.order[m.next + f]),
        action_spec(run_outcomes(m, o)) == RunAction::Aborted(m.order[m.next + f]),
    decreases f,
{
    assert(!m.applied.contains(m.order[m.next]));
    let m2 = step_spec(m, o[0]);
    if f == 0 {
        assert(m.order.subrange(m.next, m.next) =~= Seq::<u128>::empty());
        assert(m.applied + Seq::<u128>::empty() =~= m.applied);
        assert(o.drop_first().len() >= 0);
        assert(action_spec(m2) is Aborted);
        if o.drop_first().len() > 0 {
            assert(run_outcomes(m2, o.drop_first()) == m2);
        }
    } else {
        assert(o[0]);
        let o2 = o.drop_first();
        assert forall|k: int| 0 <= k < f - 1 implies o2[k] by {
            assert(o2[k] == o[k + 1]);
        }
        assert forall|k: int| m2.next <= k < m2.order.len() implies !m2.applied.contains(#[trigger] m2.order[k]) by {
            if m2.applied.contains(m2.order[k]) {
                let j = choose|j: int| 0 <= j < m2.applied.len() && m2.applied[j] == m2.order[k];
                if j < m.applied.len() {
                    assert(m.applied[j] == m.order[k]);
                } else {
                    assert(m2.applied[j] == m.order[m.next]);
                }
            }
        }
        lemma_failure_stops_run(m2, o2, f - 1);
        assert(m.applied + m.order.subrange(m.next, m.next + f)
            =~= m2.applied + m2.order.subrange(m2.next, m2.next + (f - 1)));
    }
}

} // verus!

//! The migration that fixes double-entry accounting of change in the
//! transaction views.
use vstd::prelude::*;
use crate::identity::{add_transaction_views_id, transactions_net_id, uuid_value};
use crate::resolver::MigrationDescriptor;

verus! {

/// Why a migration could not be reverted.
#[derive(PartialEq, Eq, Debug, Clone, Copy, Structural)]
pub enum RevertError {
    /// The migration destroys information and has no inverse.
    NotRevertible(u128),
    /// The migration to roll back to is not among those applied.
    UnknownTarget(u128),
}

/// The identity of this migration.
pub open spec fn transactions_net_value() -> int {
    uuid_value(0x2aa4d24f, 0x51aa, 0x4a4c, seq![0x8du8, 0x9b, 0xe5, 0xb8, 0xa7, 0x62, 0x86, 0x5f])
}

/// The identity of the migration it depends on.
pub open spec fn add_transaction_views_value() -> int {
    uuid_value(0x282fad2e, 0x8372, 0x4ca0, seq![0x8bu8, 0xed, 0x71, 0x82, 0x13, 0x20, 0x90, 0x9f])
}

/// The migration that rebuilds the transaction views so that change is
/// counted once and only once.
pub struct Migration;

impl Migration {
    pub fn id(&self) -> (r: u128)
        ensures
            r as int == transactions_net_value(),
    {
        transactions_net_id()
    }

    pub fn dependencies(&self) -> (r: Vec<u128>)
        ensures
            r@.len() == 1,
            r@[0] as int == add_transaction_views_value(),
    {
        let mut v: Vec<u128> = Vec::new();
        v.push(add_transaction_views_id());
        v
    }

    pub fn description(&self) -> (r: &'static str)
        ensures
            r@ == "Fix transaction views to correctly handle double-entry accounting for change."@,
    {
        "Fix transaction views to correctly handle double-entry accounting for change."
    }

    /// This migration drops views whose definitions cannot be regenerated, so
    /// it cannot be reverted.
    pub fn down(&self) -> (r: Result<(), RevertError>)
        ensures
            r matches Err(RevertError::NotRevertible(id)) && id as int == transactions_net_value(),
    {
        Err(RevertError::NotRevertible(self.id()))
    }

    /// The descriptor of this migration, for the resolver.
    pub fn descriptor(&self) -> (d: MigrationDescriptor)
        ensures
            d.id as int == transactions_net_value(),
            d.dependencies@.len() == 1,
            d.dependencies@[0] as int == add_transaction_views_value(),
            d.description@ == "Fix transaction views to correctly handle double-entry accounting for change."@,
            !d.revertible,
    {
        let description = self.description();
        MigrationDescriptor {
            id: self.id(),
            dependencies: self.dependencies(),
            description: description.to_string(),
            revertible: false,
        }
    }
}

/// Whether the registry holds a descriptor of `id` that can be reverted.
pub open spec fn revertible_in(reg: Seq<MigrationDescriptor>, id: u128) -> bool {
    exists|i: int| 0 <= i < reg.len() && (#[trigger] reg[i]).id == id && reg[i].revertible
}

/// The first position of `id` in `v` at or after `k`.
pub open spec fn first_position_from(v: Seq<u128>, k: int, id: u128) -> Option<int>
    decreases v.len() - k,
{
    if k < 0 || k >= v.len() {
        None
    } else if v[k] == id {
        Some(k)
    } else {
        first_position_from(v, k + 1, id)
    }
}

/// The migrations to revert to roll back to `target`: those applied after it,
/// latest first.
pub open spec fn rollback_spec(applied: Seq<u128>, p: int) -> Seq<u128> {
    applied.subrange(p + 1, applied.len() as int).reverse()
}

fn revertible(reg: &Vec<MigrationDescriptor>, id: u128) -> (b: bool)
    ensures
        b == revertible_in(reg@, id),
{
    let mut k: usize = 0;
    while k < reg.len()
        invariant
            k <= reg.len(),
            forall|j: int| 0 <= j < k ==> !((#[trigger] reg@[j]).id == id && reg@[j].revertible),
        decreases reg.len() - k,
    {
        if reg[k].id == id && reg[k].revertible {
            assert(reg@[k as int].id == id);
            return true;
        }
        k = k + 1;
    }
    false
}

/// The order in which to revert the migrations applied after `target`
/// (`applied` lists them in the order they were applied): latest first. Fails
/// without reverting anything when `target` was not applied, or when one of
/// them cannot be reverted, naming the latest such.
pub fn rollback_plan(reg: &Vec<MigrationDescriptor>, applied: &Vec<u128>, target: u128) -> (r: Result<Vec<u128>, RevertError>)
    ensures
        first_position_from(applied@, 0, target).is_none() <==> r == Err::<Vec<u128>, RevertError>(RevertError::UnknownTarget(target)),
        forall|p: int| first_position_from(applied@, 0, target) == Some(p) ==> (r.is_ok() <==> forall|k: int|
            0 <= k < rollback_spec(applied@, p).len() ==> revertible_in(reg@, #[trigger] rollback_spec(applied@, p)[k])),
        forall|p: int| first_position_from(applied@, 0, target) == Some(p) && r.is_ok() ==> r.unwrap()@ == rollback_spec(applied@, p),
        forall|p: int, id: u128| first_position_from(applied@, 0, target) == Some(p)
            && r == Err::<Vec<u128>, RevertError>(RevertError::NotRevertible(id)) ==> exists|k: int|
                0 <= k < rollback_spec(applied@, p).len() && rollback_spec(applied@, p)[k] == id && !revertible_in(reg@, id)
                    && forall|k2: int| 0 <= k2 < k ==> revertible_in(reg@, #[trigger] rollback_spec(applied@, p)[k2]),
{
    let mut p: usize = 0;
    while p < applied.len()
        invariant
            p <= applied.len(),
            first_position_from(applied@, 0, target) == first_position_from(applied@, p as int, target),
        ensures
            p == applied.len() || applied@[p as int] == target,
            p <= applied.len(),
            first_position_from(applied@, 0, target) == first_position_from(applied@, p as int, target),
        decreases applied.len() - p,
    {
        if applied[p] == target {
            break;
        }
        p = p + 1;
    }
    if p == applied.len() {
        return Err(RevertError::UnknownTarget(target));
    }
    assert(first_position_from(applied@, p as int, target) == Some(p as int));
    let ghost plan = rollback_spec(applied@, p as int);
    let mut out: Vec<u128> = Vec::new();
    let mut k: usize = applied.len();
    while k > p + 1
        invariant
            p + 1 <= k <= applied.len(),
            p < applied.len(),
            first_position_from(applied@, 0, target) == Some(p as int),
            plan == rollback_spec(applied@, p as int),
            out@ =~= plan.subrange(0, applied.len() - k),
            forall|j: int| 0 <= j < out@.len() ==> revertible_in(reg@, #[trigger] out@[j]),
        decreases k,
    {
        let id = applied[k - 1];
        assert(plan[applied.len() - k] == id);
        if !revertible(reg, id) {
            proof {
                assert forall|k2: int| 0 <= k2 < applied.len() - k implies revertible_in(reg@, #[trigger] plan[k2]) by {
                    assert(plan[k2] == out@[k2]);
                }
                let w = applied.len() - k;
                assert(0 <= w < plan.len() && plan[w] == id && !revertible_in(reg@, id));
            }
            return Err(RevertError::NotRevertible(id));
        }
        out.push(id);
        k = k - 1;
    }
    assert(out@ =~= plan);
    Ok(out)
}

} // verus!

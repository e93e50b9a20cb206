//! Orders migrations so that each comes after the migrations it depends on.
use vstd::prelude::*;

verus! {

/// A unit of schema change: its identity, the identities it depends on, what
/// it does in words, and whether it can be reverted.
pub struct MigrationDescriptor {
    pub id: u128,
    pub dependencies: Vec<u128>,
    pub description: String,
    pub revertible: bool,
}

/// Why no order of the migrations could be found.
#[derive(PartialEq, Eq, Debug, Clone, Copy, Structural)]
pub enum ResolveError {
    /// Migration `id` depends on `dependency`, which is not in the registry.
    UnknownDependency { id: u128, dependency: u128 },
    /// The dependencies go round in a cycle.
    Cycle,
}

/// Whether some descriptor of `reg` has identity `id`.
pub open spec fn in_registry(reg: Seq<MigrationDescriptor>, id: u128) -> bool {
    exists|i: int| 0 <= i < reg.len() && (#[trigger] reg[i]).id == id
}

/// Whether every dependency of every descriptor of `reg` is in `reg`.
pub open spec fn dependencies_known(reg: Seq<MigrationDescriptor>) -> bool {
    forall|i: int, d: u128| 0 <= i < reg.len() && #[trigger] reg[i].dependencies@.contains(d) ==> in_registry(reg, d)
}

/// Whether the identities of `v` are pairwise distinct.
pub open spec fn distinct_ids(v: Seq<u128>) -> bool {
    forall|k1: int, k2: int| 0 <= k1 < k2 < v.len() ==> v[k1] != v[k2]
}

/// Whether `order` puts every migration after each of its dependencies that is
/// not in `applied`.
pub open spec fn respects_dependencies(reg: Seq<MigrationDescriptor>, applied: Seq<u128>, order: Seq<u128>) -> bool {
    forall|k: int, i: int, d: u128|
        #![trigger order[k], reg[i].dependencies@.contains(d)]
        0 <= k < order.len() && 0 <= i < reg.len() && reg[i].id == order[k]
            && reg[i].dependencies@.contains(d) && !applied.contains(d)
            ==> exists|k2: int| 0 <= k2 < k && order[k2] == d
}

/// Whether `order` holds exactly the migrations of `reg` that are not in
/// `applied`, each once, each after its pending dependencies.
pub open spec fn pending_order(reg: Seq<MigrationDescriptor>, applied: Seq<u128>, order: Seq<u128>) -> bool {
    &&& distinct_ids(order)
    &&& forall|k: int| 0 <= k < order.len() ==> in_registry(reg, #[trigger] order[k]) && !applied.contains(order[k])
    &&& forall|i: int| 0 <= i < reg.len() && !applied.contains(#[trigger] reg[i].id) ==> order.contains(reg[i].id)
    &&& respects_dependencies(reg, applied, order)
}

/// Whether `c` is a chain of direct dependencies: each of its migrations
/// depends on the next one.
pub open spec fn dependency_chain(reg: Seq<MigrationDescriptor>, c: Seq<u128>) -> bool {
    forall|k: int| 0 <= k < c.len() - 1 ==> exists|i: int|
        0 <= i < reg.len() && (#[trigger] reg[i]).id == #[trigger] c[k] && reg[i].dependencies@.contains(c[k + 1])
}

/// Whether `c` is a cycle of dependencies: a chain that comes back to where it began.
pub open spec fn dependency_cycle(reg: Seq<MigrationDescriptor>, c: Seq<u128>) -> bool {
    c.len() >= 2 && dependency_chain(reg, c) && c[c.len() - 1] == c[0]
}

/// Whether `placed` leaves out a non-empty set of migrations of `reg` each of
/// which depends on one that `placed` leaves out, so none of them can go next.
pub open spec fn stuck(reg: Seq<MigrationDescriptor>, placed: Seq<u128>) -> bool {
    &&& exists|i: int| 0 <= i < reg.len() && !placed.contains(#[trigger] reg[i].id)
    &&& forall|i: int| 0 <= i < reg.len() && !placed.contains(#[trigger] reg[i].id)
        ==> exists|d: u128| #[trigger] reg[i].dependencies@.contains(d) && !placed.contains(d)
}

fn contains_id(v: &Vec<u128>, x: u128) -> (b: bool)
    ensures
        b == v@.contains(x),
{
    let mut k: usize = 0;
    while k < v.len()
        invariant
            k <= v.len(),
            forall|j: int| 0 <= j < k ==> v@[j] != x,
        decreases v.len() - k,
    {
        if v[k] == x {
            assert(v@[k as int] == x);
            return true;
        }
        k = k + 1;
    }
    false
}

fn registry_has(reg: &Vec<MigrationDescriptor>, id: u128) -> (b: bool)
    ensures
        b == in_registry(reg@, id),
{
    let mut k: usize = 0;
    while k < reg.len()
        invariant
            k <= reg.len(),
            forall|j: int| 0 <= j < k ==> reg@[j].id != id,
        decreases reg.len() - k,
    {
        if reg[k].id == id {
            assert(reg@[k as int].id == id);
            return true;
        }
        k = k + 1;
    }
    false
}

fn first_unplaced_dependency(deps: &Vec<u128>, placed: &Vec<u128>) -> (o: Option<u128>)
    ensures
        o.is_none() ==> forall|d: u128| deps@.contains(d) ==> placed@.contains(d),
        o.is_some() ==> deps@.contains(o.unwrap()) && !placed@.contains(o.unwrap()),
{
    let mut k: usize = 0;
    while k < deps.len()
        invariant
            k <= deps.len(),
            forall|j: int| 0 <= j < k ==> placed@.contains(#[trigger] deps@[j]),
        decreases deps.len() - k,
    {
        if !contains_id(placed, deps[k]) {
            assert(deps@[k as int] == deps[k as int]);
            return Some(deps[k]);
        }
        k = k + 1;
    }
    None
}

/// Checks that every dependency is in the registry; names the first one that is not.
pub fn check_dependencies(reg: &Vec<MigrationDescriptor>) -> (r: Result<(), ResolveError>)
    ensures
        r.is_ok() == dependencies_known(reg@),
        r matches Err(e) ==> e matches ResolveError::UnknownDependency { id, dependency } && exists|i: int|
            0 <= i < reg@.len() && (#[trigger] reg@[i]).id == id && reg@[i].dependencies@.contains(dependency)
                && !in_registry(reg@, dependency),
{
    let mut i: usize = 0;
    while i < reg.len()
        invariant
            i <= reg.len(),
            forall|x: int, d: u128| 0 <= x < i && #[trigger] reg@[x].dependencies@.contains(d) ==> in_registry(reg@, d),
        decreases reg.len() - i,
    {
        let deps = &reg[i].dependencies;
        let mut k: usize = 0;
        while k < deps.len()
            invariant
                i < reg.len(),
                deps == reg@[i as int].dependencies,
                k <= deps.len(),
                forall|j: int| 0 <= j < k ==> in_registry(reg@, #[trigger] deps@[j]),
            decreases deps.len() - k,
        {
            if !registry_has(reg, deps[k]) {
                assert(reg@[i as int].dependencies@.contains(deps@[k as int]));
                return Err(ResolveError::UnknownDependency { id: reg[i].id, dependency: deps[k] });
            }
            k = k + 1;
        }
        assert forall|x: int, d: u128| 0 <= x <= i && #[trigger] reg@[x].dependencies@.contains(d) implies in_registry(reg@, d) by {
            if x == i {
                let j = choose|j: int| 0 <= j < deps@.len() && deps@[j] == d;
            }
        }
        i = i + 1;
    }
    Ok(())
}

/// Whether no two descriptors of `reg` share an identity.
pub open spec fn unique_registry(reg: Seq<MigrationDescriptor>) -> bool {
    forall|i: int, j: int| 0 <= i < j < reg.len() ==> reg[i].id != reg[j].id
}

/// The number of entries of `p` that are false.
pub open spec fn unplaced_count(p: Seq<bool>) -> nat
    decreases p.len(),
{
    if p.len() == 0 {
        0
    } else {
        unplaced_count(p.drop_last()) + if p.last() { 0nat } else { 1nat }
    }
}

proof fn lemma_unplaced_update(p: Seq<bool>, i: int)
    requires
        0 <= i < p.len(),
        !p[i],
    ensures
        unplaced_count(p.update(i, true)) + 1 == unplaced_count(p),
    decreases p.len(),
{
    let q = p.update(i, true);
    if i == p.len() - 1 {
        assert(q.drop_last() =~= p.drop_last());
    } else {
        assert(q.drop_last() =~= p.drop_last().update(i, true));
        lemma_unplaced_update(p.drop_last(), i);
    }
}

proof fn lemma_chain_precedes(reg: Seq<MigrationDescriptor>, applied: Seq<u128>, order: Seq<u128>, c: Seq<u128>, i0: int)
    requires
        respects_dependencies(reg, applied, order),
        dependency_chain(reg, c),
        c.len() >= 2,
        forall|k: int| 0 <= k < c.len() ==> !applied.contains(#[trigger] c[k]),
        0 <= i0 < order.len(),
        order[i0] == c[0],
    ensures
        exists|j: int| 0 <= j < i0 && order[j] == c[c.len() - 1],
    decreases c.len(),
{
    assert(0 <= 0 < c.len() - 1);
    let ri = choose|ri: int| 0 <= ri < reg.len() && (#[trigger] reg[ri]).id == #[trigger] c[0] && reg[ri].dependencies@.contains(c[0int + 1]);
    assert(!applied.contains(c[1]));
    assert(reg[ri].dependencies@.contains(c[1]));
    let k2 = choose|k2: int| 0 <= k2 < i0 && order[k2] == c[1];
    if c.len() > 2 {
        let c2 = c.drop_first();
        assert forall|k: int| 0 <= k < c2.len() - 1 implies exists|i: int|
            0 <= i < reg.len() && (#[trigger] reg[i]).id == #[trigger] c2[k] && reg[i].dependencies@.contains(c2[k + 1]) by {
            assert(c2[k] == c[k + 1] && c2[k + 1] == c[k + 2]);
            assert(0 <= k + 1 < c.len() - 1);
        }
        assert forall|k: int| 0 <= k < c2.len() implies !applied.contains(#[trigger] c2[k]) by {
            assert(c2[k] == c[k + 1]);
        }
        lemma_chain_precedes(reg, applied, order, c2, k2);
        assert(c2[c2.len() - 1] == c[c.len() - 1]);
    }
}

/// Along every chain of dependencies among pending migrations, a resolved
/// order puts the last migration of the chain (a transitive dependency of the
/// first) before the first.
pub proof fn lemma_order_respects_chains(reg: Seq<MigrationDescriptor>, applied: Seq<u128>, order: Seq<u128>, c: Seq<u128>)
    requires
        pending_order(reg, applied, order),
        dependency_chain(reg, c),
        c.len() >= 2,
        forall|k: int| 0 <= k < c.len() ==> !applied.contains(#[trigger] c[k]),
    ensures
        exists|i: int, j: int| 0 <= j < i < order.len() && order[i] == c[0] && order[j] == c[c.len() - 1],
{
    assert(0 <= 0 < c.len() - 1);
    let ri = choose|ri: int| 0 <= ri < reg.len() && (#[trigger] reg[ri]).id == #[trigger] c[0] && reg[ri].dependencies@.contains(c[0int + 1]);
    assert(!applied.contains(c[0]));
    assert(order.contains(reg[ri].id));
    let i0 = choose|i0: int| 0 <= i0 < order.len() && order[i0] == c[0];
    lemma_chain_precedes(reg, applied, order, c, i0);
}

/// A registry whose dependencies go round in a cycle has no order.
pub proof fn lemma_cycle_has_no_order(reg: Seq<MigrationDescriptor>, order: Seq<u128>, c: Seq<u128>)
    requires
        dependency_cycle(reg, c),
    ensures
        !pending_order(reg, Seq::empty(), order),
{
    if pending_order(reg, Seq::empty(), order) {
        lemma_order_respects_chains(reg, Seq::empty(), order, c);
    }
}

proof fn lemma_stuck_prefix(reg: Seq<MigrationDescriptor>, placed: Seq<u128>, order: Seq<u128>, p: int)
    requires
        dependencies_known(reg),
        stuck(reg, placed),
        pending_order(reg, Seq::empty(), order),
        0 <= p <= order.len(),
    ensures
        forall|k: int| 0 <= k < p ==> placed.contains(#[trigger] order[k]),
    decreases p,
{
    if p > 0 {
        lemma_stuck_prefix(reg, placed, order, p - 1);
        let k = p - 1;
        assert(in_registry(reg, order[k]));
        let i = choose|i: int| 0 <= i < reg.len() && (#[trigger] reg[i]).id == order[k];
        if !placed.contains(reg[i].id) {
            let d = choose|d: u128| #[trigger] reg[i].dependencies@.contains(d) && !placed.contains(d);
            assert(!Seq::<u128>::empty().contains(d));
            let k2 = choose|k2: int| 0 <= k2 < k && order[k2] == d;
            assert(placed.contains(order[k2]));
        }
    }
}

/// A registry in which some migrations all wait on one another has no order.
pub proof fn lemma_stuck_has_no_order(reg: Seq<MigrationDescriptor>, placed: Seq<u128>, order: Seq<u128>)
    requires
        dependencies_known(reg),
        stuck(reg, placed),
    ensures
        !pending_order(reg, Seq::empty(), order),
{
    if pending_order(reg, Seq::empty(), order) {
        lemma_stuck_prefix(reg, placed, order, order.len() as int);
        let i = choose|i: int| 0 <= i < reg.len() && !placed.contains(#[trigger] reg[i].id);
        assert(!Seq::<u128>::empty().contains(reg[i].id));
        assert(order.contains(reg[i].id));
        let k = choose|k: int| 0 <= k < order.len() && order[k] == reg[i].id;
        assert(placed.contains(order[k]));
    }
}

/// Orders all the migrations of `reg`, each after its dependencies, taking at
/// each step the first migration in registry order whose dependencies are
/// all placed.
pub fn resolve_all(reg: &Vec<MigrationDescriptor>) -> (r: Result<Vec<u128>, ResolveError>)
    requires
        unique_registry(reg@),
    ensures
        r.is_ok() ==> dependencies_known(reg@) && pending_order(reg@, Seq::empty(), r.unwrap()@),
        r == Err::<Vec<u128>, ResolveError>(ResolveError::Cycle) ==> dependencies_known(reg@)
            && exists|placed: Seq<u128>| stuck(reg@, placed),
        r matches Err(ResolveError::UnknownDependency { id, dependency }) ==> exists|i: int|
            0 <= i < reg@.len() && (#[trigger] reg@[i]).id == id && reg@[i].dependencies@.contains(dependency)
                && !in_registry(reg@, dependency),
        !dependencies_known(reg@) ==> r.is_err(),
        (exists|c: Seq<u128>| dependency_cycle(reg@, c)) ==> r.is_err(),
        r.is_ok() <==> dependencies_known(reg@) && exists|o: Seq<u128>| pending_order(reg@, Seq::empty(), o),
{
    match check_dependencies(reg) {
        Err(e) => {
            return Err(e);
        },
        Ok(()) => {},
    }
    let ghost empty = Seq::<u128>::empty();
    let mut order: Vec<u128> = Vec::new();
    let mut placed: Vec<bool> = Vec::new();
    let mut i: usize = 0;
    while i < reg.len()
        invariant
            i <= reg.len(),
            placed@.len() == i,
            forall|x: int| 0 <= x < i ==> !(#[trigger] placed@[x]),
        decreases reg.len() - i,
    {
        placed.push(false);
        i = i + 1;
    }
    loop
        invariant
            unique_registry(reg@),
            dependencies_known(reg@),
            placed@.len() == reg@.len(),
            forall|x: int| 0 <= x < reg@.len() ==> (#[trigger] placed@[x]) == order@.contains(reg@[x].id),
            distinct_ids(order@),
            forall|k: int| 0 <= k < order@.len() ==> in_registry(reg@, #[trigger] order@[k]),
            respects_dependencies(reg@, empty, order@),
        ensures
            forall|y: int| 0 <= y < reg@.len() ==> order@.contains(#[trigger] reg@[y].id),
        decreases unplaced_count(placed@),
    {
        let mut ready: Option<usize> = None;
        let mut any_unplaced = false;
        let mut x: usize = 0;
        while x < reg.len()
            invariant_except_break
                ready.is_none(),
            invariant
                x <= reg.len(),
                placed@.len() == reg@.len(),
                forall|y: int| 0 <= y < reg@.len() ==> (#[trigger] placed@[y]) == order@.contains(reg@[y].id),
                any_unplaced ==> exists|y: int| 0 <= y < reg@.len() && !order@.contains(#[trigger] reg@[y].id),
                !any_unplaced ==> forall|y: int| 0 <= y < x ==> order@.contains(#[trigger] reg@[y].id),
                forall|y: int| 0 <= y < x && !order@.contains(#[trigger] reg@[y].id)
                    ==> exists|d: u128| #[trigger] reg@[y].dependencies@.contains(d) && !order@.contains(d),
            ensures
                ready.is_none() ==> x == reg.len(),
                ready.is_some() ==> ready.unwrap() < reg.len() && !order@.contains(reg@[ready.unwrap() as int].id)
                    && forall|d: u128| reg@[ready.unwrap() as int].dependencies@.contains(d) ==> order@.contains(d),
            decreases reg.len() - x,
        {
            if !placed[x] {
                any_unplaced = true;
                assert(!order@.contains(reg@[x as int].id));
                match first_unplaced_dependency(&reg[x].dependencies, &order) {
                    None => {
                        ready = Some(x);
                        break;
                    },
                    Some(d) => {},
                }
            }
            x = x + 1;
        }
        match ready {
            None => {
                if any_unplaced {
                    assert(stuck(reg@, order@));
                    proof {
                        assert forall|o: Seq<u128>| !pending_order(reg@, Seq::empty(), o) by {
                            lemma_stuck_has_no_order(reg@, order@, o);
                        }
                    }
                    return Err(ResolveError::Cycle);
                }
                assert(forall|y: int| 0 <= y < reg@.len() ==> order@.contains(#[trigger] reg@[y].id));
                break;
            },
            Some(x) => {
                let id = reg[x].id;
                let ghost old_order = order@;
                let ghost old_placed = placed@;
                order.push(id);
                placed.set(x, true);
                proof {
                    lemma_unplaced_update(old_placed, x as int);
                    assert(forall|d: u128| reg@[x as int].dependencies@.contains(d) ==> old_order.contains(d));
                    assert forall|y: int| 0 <= y < reg@.len() implies (#[trigger] placed@[y]) == order@.contains(reg@[y].id) by {
                        if y != x {
                            assert(reg@[y].id != id);
                            if order@.contains(reg@[y].id) {
                                let k = choose|k: int| 0 <= k < order@.len() && order@[k] == reg@[y].id;
                                assert(old_order[k] == reg@[y].id);
                            }
                            if old_order.contains(reg@[y].id) {
                                let k = choose|k: int| 0 <= k < old_order.len() && old_order[k] == reg@[y].id;
                                assert(order@[k] == reg@[y].id);
                            }
                        } else {
                            assert(order@[old_order.len() as int] == id);
                        }
                    }
                    assert forall|k: int, y: int, d: u128|
                        0 <= k < order@.len() && 0 <= y < reg@.len() && reg@[y].id == #[trigger] order@[k]
                            && #[trigger] reg@[y].dependencies@.contains(d) && !empty.contains(d)
                        implies exists|k2: int| 0 <= k2 < k && order@[k2] == d by {
                        if k < old_order.len() {
                            assert(old_order[k] == order@[k]);
                            let k2 = choose|k2: int| 0 <= k2 < k && old_order[k2] == d;
                            assert(order@[k2] == d);
                        } else {
                            assert(y == x);
                            assert(old_order.contains(d));
                            let k2 = choose|k2: int| 0 <= k2 < old_order.len() && old_order[k2] == d;
                            assert(order@[k2] == d);
                        }
                    }
                    assert(forall|k: int| 0 <= k < old_order.len() ==> old_order[k] == order@[k]);
                    assert(in_registry(reg@, reg@[x as int].id));
                }
            },
        }
    }
    proof {
        assert(empty =~= Seq::<u128>::empty());
        assert(pending_order(reg@, Seq::<u128>::empty(), order@));
        if exists|c: Seq<u128>| dependency_cycle(reg@, c) {
            let c = choose|c: Seq<u128>| dependency_cycle(reg@, c);
            lemma_cycle_has_no_order(reg@, order@, c);
        }
    }
    Ok(order)
}

/// The migrations of `reg` that are not in `applied`, in an order that puts
/// each after its pending dependencies; fails, before anything is applied,
/// when a dependency is unknown or the dependencies go round in a cycle.
pub fn resolve(reg: &Vec<MigrationDescriptor>, applied: &Vec<u128>) -> (r: Result<Vec<u128>, ResolveError>)
    requires
        unique_registry(reg@),
    ensures
        r.is_ok() ==> dependencies_known(reg@) && pending_order(reg@, applied@, r.unwrap()@),
        r == Err::<Vec<u128>, ResolveError>(ResolveError::Cycle) ==> dependencies_known(reg@)
            && exists|placed: Seq<u128>| stuck(reg@, placed),
        r matches Err(ResolveError::UnknownDependency { id, dependency }) ==> exists|i: int|
            0 <= i < reg@.len() && (#[trigger] reg@[i]).id == id && reg@[i].dependencies@.contains(dependency)
                && !in_registry(reg@, dependency),
        !dependencies_known(reg@) ==> r.is_err(),
        (exists|c: Seq<u128>| dependency_cycle(reg@, c)) ==> r.is_err(),
        r.is_ok() <==> dependencies_known(reg@) && exists|o: Seq<u128>| pending_order(reg@, Seq::empty(), o),
{
    let full = match resolve_all(reg) {
        Err(e) => {
            return Err(e);
        },
        Ok(full) => full,
    };
    let ghost empty = Seq::<u128>::empty();
    let mut out: Vec<u128> = Vec::new();
    let ghost mut pos: Seq<int> = Seq::empty();
    let mut m: usize = 0;
    while m < full.len()
        invariant
            m <= full.len(),
            pending_order(reg@, empty, full@),
            pos.len() == out@.len(),
            forall|k: int| 0 <= k < pos.len() ==> 0 <= #[trigger] pos[k] < m && full@[pos[k]] == out@[k],
            forall|k1: int, k2: int| 0 <= k1 < k2 < pos.len() ==> pos[k1] < pos[k2],
            forall|k: int| 0 <= k < out@.len() ==> !applied@.contains(#[trigger] out@[k]),
            forall|x: int| 0 <= x < m && !applied@.contains(#[trigger] full@[x]) ==> exists|k: int| 0 <= k < pos.len() && pos[k] == x,
        decreases full.len() - m,
    {
        let id = full[m];
        let ghost old_pos = pos;
        if !contains_id(applied, id) {
            proof {
                pos = pos.push(m as int);
            }
            out.push(id);
            assert(pos[pos.len() - 1] == m);
        }
        proof {
            assert forall|x: int| 0 <= x < m + 1 && !applied@.contains(#[trigger] full@[x])
                implies exists|k: int| 0 <= k < pos.len() && pos[k] == x by {
                if x < m {
                    let k = choose|k: int| 0 <= k < old_pos.len() && old_pos[k] == x;
                    assert(pos[k] == x);
                } else {
                    assert(pos[pos.len() - 1] == x);
                }
            }
        }
        m = m + 1;
    }
    proof {
        assert forall|k1: int, k2: int| 0 <= k1 < k2 < out@.len() implies out@[k1] != out@[k2] by {
            assert(full@[pos[k1]] != full@[pos[k2]]);
        }
        assert forall|k: int| 0 <= k < out@.len() implies in_registry(reg@, #[trigger] out@[k]) && !applied@.contains(out@[k]) by {
            assert(in_registry(reg@, full@[pos[k]]));
        }
        assert forall|i: int| 0 <= i < reg@.len() && !applied@.contains(#[trigger] reg@[i].id) implies out@.contains(reg@[i].id) by {
            assert(!empty.contains(reg@[i].id));
            assert(full@.contains(reg@[i].id));
            let x = choose|x: int| 0 <= x < full@.len() && full@[x] == reg@[i].id;
            let k = choose|k: int| 0 <= k < pos.len() && pos[k] == x;
            assert(out@[k] == reg@[i].id);
        }
        assert forall|k: int, i: int, d: u128|
            0 <= k < out@.len() && 0 <= i < reg@.len() && reg@[i].id == #[trigger] out@[k]
                && #[trigger] reg@[i].dependencies@.contains(d) && !applied@.contains(d)
            implies exists|k2: int| 0 <= k2 < k && out@[k2] == d by {
            let fk = pos[k];
            assert(full@[fk] == out@[k]);
            assert(!empty.contains(d));
            let f2 = choose|f2: int| 0 <= f2 < fk && full@[f2] == d;
            let k2 = choose|k2: int| 0 <= k2 < pos.len() && pos[k2] == f2;
            if k2 >= k {
                if k2 > k {
                    assert(pos[k] < pos[k2]);
                }
            }
            assert(out@[k2] == d);
        }
    }
    Ok(out)
}

} // verus!

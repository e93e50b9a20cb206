use wallet_migrations::executor::{plan_run, MigrationRun, RunAction};
use wallet_migrations::migration::{rollback_plan, Migration, RevertError};
use wallet_migrations::resolver::{resolve, resolve_all, MigrationDescriptor, ResolveError};

fn desc(id: u128, deps: &[u128], revertible: bool) -> MigrationDescriptor {
    MigrationDescriptor { id, dependencies: deps.to_vec(), description: format!("migration {}", id), revertible }
}

fn position(order: &[u128], id: u128) -> usize {
    order.iter().position(|x| *x == id).unwrap()
}

#[test]
fn resolve_orders_after_transitive_dependencies() {
    let reg = vec![desc(4, &[3], true), desc(3, &[2, 1], true), desc(2, &[1], true), desc(1, &[], true), desc(5, &[], true)];
    let order = resolve_all(&reg).unwrap();
    assert_eq!(order.len(), 5);
    for (a, b) in [(4, 3), (4, 2), (4, 1), (3, 2), (3, 1), (2, 1)] {
        assert!(position(&order, b) < position(&order, a));
    }
    // The first ready migration in registry order goes first.
    assert_eq!(order, vec![1, 2, 3, 4, 5]);
    // Deterministic for a fixed registry.
    assert_eq!(resolve_all(&reg).unwrap(), order);
}

#[test]
fn resolve_skips_applied_migrations() {
    let reg = vec![desc(4, &[3], true), desc(3, &[2, 1], true), desc(2, &[1], true), desc(1, &[], true)];
    let order = resolve(&reg, &vec![1, 2]).unwrap();
    assert_eq!(order, vec![3, 4]);
    assert!(resolve(&reg, &vec![1, 2, 3, 4]).unwrap().is_empty());
}

#[test]
fn resolve_rejects_a_cycle() {
    let reg = vec![desc(1, &[3], true), desc(2, &[1], true), desc(3, &[2], true), desc(4, &[], true)];
    assert_eq!(resolve_all(&reg), Err(ResolveError::Cycle));
    assert_eq!(resolve(&reg, &vec![]), Err(ResolveError::Cycle));
    let self_loop = vec![desc(7, &[7], true)];
    assert_eq!(resolve_all(&self_loop), Err(ResolveError::Cycle));
}

#[test]
fn resolve_rejects_an_unknown_dependency() {
    let reg = vec![desc(1, &[], true), desc(2, &[1, 9], true)];
    assert_eq!(resolve_all(&reg), Err(ResolveError::UnknownDependency { id: 2, dependency: 9 }));
}

#[test]
fn resolve_empty_registry() {
    assert!(resolve_all(&Vec::new()).unwrap().is_empty());
}

#[test]
fn failure_of_second_of_three_stops_the_run() {
    let mut run = MigrationRun::new(vec![10, 20, 30], vec![1]);
    let mut attempted = Vec::new();
    loop {
        match run.next_action() {
            RunAction::Apply(id) => {
                attempted.push(id);
                run.record_outcome(id != 20);
            }
            RunAction::Aborted(id) => {
                assert_eq!(id, 20);
                break;
            }
            other => panic!("unexpected action {:?}", other),
        }
    }
    assert_eq!(attempted, vec![10, 20]);
    assert_eq!(run.applied(), &vec![1, 10]);
    assert_eq!(run.next_action(), RunAction::Aborted(20));
}

#[test]
fn successful_run_records_every_migration() {
    let mut run = MigrationRun::new(vec![10, 20], vec![]);
    assert_eq!(run.next_action(), RunAction::Apply(10));
    run.record_outcome(true);
    assert_eq!(run.next_action(), RunAction::Apply(20));
    run.record_outcome(true);
    assert_eq!(run.next_action(), RunAction::Finished);
    assert_eq!(run.applied(), &vec![10, 20]);
}

#[test]
fn already_applied_migration_is_not_run_again() {
    let run = MigrationRun::new(vec![10], vec![10]);
    assert_eq!(run.next_action(), RunAction::AlreadyApplied(10));
}

#[test]
fn migration_identity_and_dependencies() {
    let m = Migration;
    assert_eq!(m.id(), 0x2aa4d24f_51aa_4a4c_8d9b_e5b8a762865f);
    assert_eq!(m.dependencies(), vec![0x282fad2e_8372_4ca0_8bed_71821320909f]);
    assert_eq!(
        m.description(),
        "Fix transaction views to correctly handle double-entry accounting for change."
    );
    assert_eq!(m.down(), Err(RevertError::NotRevertible(0x2aa4d24f_51aa_4a4c_8d9b_e5b8a762865f)));
    let d = m.descriptor();
    assert!(!d.revertible);
    assert_eq!(d.id, m.id());
}

#[test]
fn migration_resolves_after_its_dependency() {
    let m = Migration;
    let reg = vec![m.descriptor(), desc(0x282fad2e_8372_4ca0_8bed_71821320909f, &[], true)];
    assert_eq!(resolve(&reg, &vec![]).unwrap(), vec![0x282fad2e_8372_4ca0_8bed_71821320909f, m.id()]);
}

#[test]
fn rollback_reverts_latest_first() {
    let reg = vec![desc(1, &[], true), desc(2, &[1], true), desc(3, &[2], true)];
    assert_eq!(rollback_plan(&reg, &vec![1, 2, 3], 1), Ok(vec![3, 2]));
    assert_eq!(rollback_plan(&reg, &vec![1, 2, 3], 3), Ok(vec![]));
    assert_eq!(rollback_plan(&reg, &vec![1, 2, 3], 8), Err(RevertError::UnknownTarget(8)));
}

#[test]
fn rollback_stops_at_an_irreversible_migration() {
    let reg = vec![desc(1, &[], true), desc(2, &[1], false), desc(3, &[2], true), Migration.descriptor()];
    assert_eq!(rollback_plan(&reg, &vec![1, 2, 3], 1), Err(RevertError::NotRevertible(2)));
    let id = Migration.id();
    assert_eq!(rollback_plan(&reg, &vec![1, id], 1), Err(RevertError::NotRevertible(id)));
}

#[test]
fn plan_run_starts_with_pending_migrations() {
    let reg = vec![desc(2, &[1], true), desc(1, &[], true), desc(3, &[2], true)];
    let run = plan_run(&reg, vec![1]).unwrap();
    assert_eq!(run.next_action(), RunAction::Apply(2));
    assert_eq!(run.applied(), &vec![1]);
    let cyclic = vec![desc(1, &[2], true), desc(2, &[1], true)];
    assert!(matches!(plan_run(&cyclic, vec![]), Err(ResolveError::Cycle)));
}

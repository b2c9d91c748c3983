use pullsync::extras_squad::{SquadUser, UserRole};
use pullsync::ready_check::{on_squad_update, ReadyCheckState};

fn user(name: &str, role: UserRole, ready: bool) -> SquadUser {
    SquadUser { account_name: Some(name.to_string()), role, ready_status: ready }
}

#[test]
fn everyone_ready_triggers_once() {
    let mut st = ReadyCheckState::new();
    // Leader readies: a new round starts, and the leader counts.
    assert!(!on_squad_update(&mut st, true, &vec![user("Lead.1", UserRole::SquadLeader, true)], Some(3), 0));
    assert!(!on_squad_update(&mut st, true, &vec![user("B.2", UserRole::Member, true)], Some(3), 0));
    assert!(on_squad_update(&mut st, true, &vec![user("C.3", UserRole::Member, true)], Some(3), 0));
    // Further updates in the same round never trigger again.
    assert!(!on_squad_update(&mut st, true, &vec![user("D.4", UserRole::Member, true)], Some(3), 0));
    // A new round can trigger again.
    assert!(!on_squad_update(&mut st, true, &vec![user("Lead.1", UserRole::SquadLeader, true)], Some(2), 0));
    assert!(on_squad_update(&mut st, true, &vec![user("B.2", UserRole::Member, true)], Some(2), 0));
}

#[test]
fn disabled_feature_does_nothing() {
    let mut st = ReadyCheckState::new();
    assert!(!on_squad_update(&mut st, false, &vec![user("Lead.1", UserRole::SquadLeader, true)], Some(1), 0));
    assert!(on_squad_update(&mut st, true, &vec![user("Lead.1", UserRole::Member, true)], Some(1), 0));
}

#[test]
fn falls_back_to_roster_size_and_needs_some_count() {
    let mut st = ReadyCheckState::new();
    assert!(!on_squad_update(&mut st, true, &vec![user("A.1", UserRole::Member, true)], None, 0));
    assert!(!on_squad_update(&mut st, true, &vec![user("B.2", UserRole::Member, true)], None, 3));
    assert!(on_squad_update(&mut st, true, &vec![user("C.3", UserRole::Member, true)], None, 3));
}

#[test]
fn zero_members_never_triggers_and_duplicates_count_once() {
    let mut st = ReadyCheckState::new();
    assert!(!on_squad_update(&mut st, true, &vec![user("A.1", UserRole::Member, true)], Some(0), 0));
    assert!(!on_squad_update(
        &mut st,
        true,
        &vec![user("A.1", UserRole::Member, true), user("A.1", UserRole::Member, true)],
        Some(2),
        0
    ));
    assert!(on_squad_update(&mut st, true, &vec![user("B.1", UserRole::Member, true)], Some(2), 0));
}

#[test]
fn not_ready_users_are_not_counted() {
    let mut st = ReadyCheckState::new();
    assert!(!on_squad_update(
        &mut st,
        true,
        &vec![user("A.1", UserRole::Member, false), user("B.2", UserRole::Member, true)],
        Some(2),
        0
    ));
}

use pullsync::extras_squad::{may_control_pull, normalize, on_squad_update, roster_len, Roster, SquadUser, UserRole};
use pullsync::squad::{
    am_i_allowed_to_pull, am_i_commander, am_i_lieutenant, current_channel, ChatChannel, GroupKind,
    SquadMember,
};
use pullsync::state::{remove_squad_member, update_squad_member};

fn user(name: Option<&str>, role: UserRole, ready: bool) -> SquadUser {
    SquadUser { account_name: name.map(|s| s.to_string()), role, ready_status: ready }
}

fn member(name: &str, is_self: bool, commander: bool, lieutenant: bool) -> SquadMember {
    SquadMember {
        account_name: name.to_string(),
        is_self,
        is_commander: commander,
        is_lieutenant: lieutenant,
    }
}

#[test]
fn normalize_trims_colon_and_case() {
    assert_eq!(normalize("  :Foo.1234\t"), "foo.1234");
    assert_eq!(normalize("::Bar"), "bar");
    assert_eq!(normalize("\u{3000}Ünï.1\u{2003}"), "Ünï.1");
    assert_eq!(normalize(""), "");
    assert_eq!(normalize("  "), "");
    assert_eq!(normalize("a : b"), "a : b");
}

#[test]
fn roster_tracks_joins_roles_and_leaves() {
    let mut r = Roster::new();
    assert_eq!(roster_len(&r), 0);
    on_squad_update(
        &mut r,
        &vec![
            user(Some(":Lead.1"), UserRole::SquadLeader, false),
            user(Some("Mem.2"), UserRole::Member, false),
            user(None, UserRole::Lieutenant, false),
        ],
    );
    assert_eq!(roster_len(&r), 2);
    assert!(may_control_pull(&r, "lead.1"));
    assert!(!may_control_pull(&r, "Mem.2"));
    on_squad_update(&mut r, &vec![user(Some("mem.2"), UserRole::Lieutenant, false)]);
    assert_eq!(roster_len(&r), 2);
    assert!(may_control_pull(&r, ":MEM.2"));
    on_squad_update(&mut r, &vec![user(Some("Mem.2"), UserRole::NoRole, false)]);
    assert_eq!(roster_len(&r), 1);
    assert!(!may_control_pull(&r, "Mem.2"));
    on_squad_update(&mut r, &vec![user(Some("Lead.1"), UserRole::Invalid, false)]);
    assert_eq!(roster_len(&r), 0);
    assert!(!may_control_pull(&r, "Lead.1"));
}

#[test]
fn later_entries_of_one_update_win() {
    let mut r = Roster::new();
    on_squad_update(
        &mut r,
        &vec![
            user(Some("A.1"), UserRole::Member, false),
            user(Some("A.1"), UserRole::SquadLeader, false),
            user(Some("B.2"), UserRole::Lieutenant, false),
            user(Some("B.2"), UserRole::NoRole, false),
        ],
    );
    assert_eq!(roster_len(&r), 1);
    assert!(may_control_pull(&r, "a.1"));
    assert!(!may_control_pull(&r, "b.2"));
}

#[test]
fn commander_and_lieutenant_checks_need_self() {
    let squad = vec![member("Other.1", false, true, false), member("Me.2", true, false, false)];
    assert!(!am_i_commander(&squad));
    assert!(!am_i_lieutenant(&squad));
    let squad = vec![member("Me.2", true, true, false)];
    assert!(am_i_commander(&squad));
    let squad = vec![member("Me.2", true, false, true)];
    assert!(am_i_lieutenant(&squad));
}

#[test]
fn allowed_to_pull_rules() {
    let plain = vec![member("Me.2", true, false, false)];
    let cmdr = vec![member("Me.2", true, true, false)];
    let lt = vec![member("Me.2", true, false, true)];
    // Fails open without RTAPI.
    assert!(am_i_allowed_to_pull(false, ChatChannel::Squad, &plain));
    assert!(am_i_allowed_to_pull(true, ChatChannel::Party, &plain));
    assert!(!am_i_allowed_to_pull(true, ChatChannel::Squad, &plain));
    assert!(am_i_allowed_to_pull(true, ChatChannel::Squad, &cmdr));
    assert!(am_i_allowed_to_pull(true, ChatChannel::Squad, &lt));
}

#[test]
fn current_channel_prefers_rtapi_then_extras_roster() {
    assert_eq!(current_channel(Some(GroupKind::Party), 5), ChatChannel::Party);
    assert_eq!(current_channel(Some(GroupKind::Squad), 0), ChatChannel::Squad);
    assert_eq!(current_channel(Some(GroupKind::RaidSquad), 0), ChatChannel::Squad);
    assert_eq!(current_channel(Some(GroupKind::Other), 3), ChatChannel::Squad);
    assert_eq!(current_channel(None, 3), ChatChannel::Squad);
    assert_eq!(current_channel(None, 0), ChatChannel::Party);
}

#[test]
fn command_words() {
    assert_eq!(ChatChannel::Party.command_word(), "party");
    assert_eq!(ChatChannel::Squad.command_word(), "squad");
}

#[test]
fn squad_member_update_replaces_or_appends() {
    let mut squad = Vec::new();
    update_squad_member(&mut squad, member("A.1", false, false, false));
    update_squad_member(&mut squad, member("B.2", true, false, false));
    update_squad_member(&mut squad, member("A.1", false, true, false));
    assert_eq!(squad.len(), 2);
    assert_eq!(squad[0].account_name, "A.1");
    assert!(squad[0].is_commander);
    assert_eq!(squad[1].account_name, "B.2");
}

#[test]
fn squad_member_remove_drops_all_with_name() {
    let mut squad = vec![
        member("A.1", false, false, false),
        member("B.2", false, false, false),
        member("A.1", true, false, false),
    ];
    remove_squad_member(&mut squad, "A.1");
    assert_eq!(squad.len(), 1);
    assert_eq!(squad[0].account_name, "B.2");
    remove_squad_member(&mut squad, "nobody");
    assert_eq!(squad.len(), 1);
}

use pullsync::chat_listen::{
    is_cancel, marked_body_of, on_squad_message, parse_count, sender_may_control, ListenOutcome,
    MessageChannel, SquadMessage,
};
use pullsync::chat_send::{
    compose_chat_line, on_pull_pressed, on_ready_check_succeeded, plan_chat_sequence,
    render_message, return_key_lparams, next_line_action, focus_poll, ChatBind, FocusPoll, LineAction, CHAT_FOCUS_TIMEOUT_NANOS, PullPress, CHAT_MARKER,
};
use pullsync::countdown::{self, CountdownState};
use pullsync::extras_squad::{self, Roster, SquadUser, UserRole};
use pullsync::squad::ChatChannel;

fn msg(channel: MessageChannel, account: &str, text: &str) -> SquadMessage {
    SquadMessage {
        channel_type: channel,
        account_name: account.to_string(),
        text: text.to_string(),
    }
}

fn roster_with(name: &str, role: UserRole) -> Roster {
    let mut r = Roster::new();
    extras_squad::on_squad_update(
        &mut r,
        &vec![SquadUser { account_name: Some(name.to_string()), role, ready_status: false }],
    );
    r
}

#[test]
fn render_message_substitutes_every_placeholder() {
    assert_eq!(render_message("Pulling in {n}...", 10), "Pulling in 10...");
    assert_eq!(render_message("{n}/{n}", 7), "7/7");
    assert_eq!(render_message("no placeholder", 3), "no placeholder");
    assert_eq!(render_message("{n}", 0), "0");
    assert_eq!(render_message("{n}", u32::MAX), "4294967295");
    assert_eq!(render_message("{{n}}", 5), "{5}");
    assert_eq!(render_message("", 5), "");
}

#[test]
fn parse_count_reads_first_digit_run() {
    assert_eq!(parse_count(" Pulling in 10..."), Some(10));
    assert_eq!(parse_count("12 then 34"), Some(12));
    assert_eq!(parse_count("Pull!"), None);
    assert_eq!(parse_count(""), None);
    assert_eq!(parse_count("007"), Some(7));
    assert_eq!(parse_count("x4294967295y"), Some(u32::MAX));
    assert_eq!(parse_count("x4294967296y"), None);
    assert_eq!(parse_count("99999999999999999999 5"), None);
}

#[test]
fn is_cancel_ignores_ascii_case() {
    assert!(is_cancel(" Pull cancelled."));
    assert!(is_cancel("CANCEL"));
    assert!(is_cancel("xCaNcElx"));
    assert!(!is_cancel("Pulling in 5"));
    assert!(!is_cancel("cance"));
}

#[test]
fn marked_body_is_text_after_first_marker() {
    let body: String = marked_body_of("[PullSync] Pulling in 10...").unwrap().into_iter().collect();
    assert_eq!(body, " Pulling in 10...");
    let body: String = marked_body_of("x[PullSync][PullSync]y").unwrap().into_iter().collect();
    assert_eq!(body, "[PullSync]y");
    assert!(marked_body_of("Pulling in 10...").is_none());
    assert_eq!(CHAT_MARKER, "[PullSync]");
}

#[test]
fn compose_chat_line_prefixes_channel_and_marker() {
    let l = compose_chat_line(ChatChannel::Squad, "Pulling in 10...", false);
    assert_eq!(l.bind, ChatBind::ChatCommand);
    assert_eq!(l.text, "squad [PullSync] Pulling in 10...");
    let l = compose_chat_line(ChatChannel::Party, "Pull!", false);
    assert_eq!(l.text, "party [PullSync] Pull!");
    let l = compose_chat_line(ChatChannel::Squad, "Pull!", true);
    assert_eq!(l.bind, ChatBind::SquadBroadcast);
    assert_eq!(l.text, "[PullSync] Pull!");
    // Broadcast doesn't exist for parties: falls back to normal chat.
    let l = compose_chat_line(ChatChannel::Party, "Pull!", true);
    assert_eq!(l.bind, ChatBind::ChatCommand);
    assert_eq!(l.text, "party [PullSync] Pull!");
}

#[test]
fn plan_without_chat_countdown_is_one_heads_up() {
    let plan = plan_chat_sequence("Pulling in {n}...", "Pull!", false, 5, true, 10);
    assert_eq!(plan.len(), 1);
    assert_eq!(plan[0].delay_secs, None);
    assert_eq!(plan[0].text, "Pulling in 10...");
    assert!(plan[0].broadcast);
    assert!(plan[0].alert_on_failure);
}

#[test]
fn plan_with_chat_countdown_ticks_in_sync() {
    let plan = plan_chat_sequence("Pulling in {n}...", "Pull!", true, 3, true, 10);
    let texts: Vec<&str> = plan.iter().map(|l| l.text.as_str()).collect();
    assert_eq!(texts, vec!["Pulling in 10...", "Pulling in 3...", "Pulling in 2...", "Pulling in 1...", "Pull!"]);
    let delays: Vec<Option<u32>> = plan.iter().map(|l| l.delay_secs).collect();
    assert_eq!(delays, vec![None, Some(7), Some(8), Some(9), Some(10)]);
    let broadcasts: Vec<bool> = plan.iter().map(|l| l.broadcast).collect();
    assert_eq!(broadcasts, vec![true, false, false, false, true]);
    assert!(plan[0].alert_on_failure);
    assert!(plan[1..].iter().all(|l| !l.alert_on_failure));
}

#[test]
fn plan_covering_whole_count_skips_heads_up_and_broadcasts_first_tick() {
    let plan = plan_chat_sequence("P{n}", "Go", true, 20, true, 3);
    let texts: Vec<&str> = plan.iter().map(|l| l.text.as_str()).collect();
    assert_eq!(texts, vec!["P3", "P2", "P1", "Go"]);
    let delays: Vec<Option<u32>> = plan.iter().map(|l| l.delay_secs).collect();
    assert_eq!(delays, vec![Some(0), Some(1), Some(2), Some(3)]);
    let broadcasts: Vec<bool> = plan.iter().map(|l| l.broadcast).collect();
    assert_eq!(broadcasts, vec![true, false, false, true]);
}

#[test]
fn plan_without_broadcast_never_broadcasts() {
    let plan = plan_chat_sequence("P{n}", "Go", true, 2, false, 5);
    assert!(plan.iter().all(|l| !l.broadcast));
    assert_eq!(plan.len(), 4);
}

#[test]
fn pull_button_toggles_and_rejects() {
    let mut slot: Option<CountdownState> = None;
    assert_eq!(on_pull_pressed(false, &mut slot, 10, 0), PullPress::Rejected);
    assert!(slot.is_none());
    assert_eq!(on_pull_pressed(true, &mut slot, 10, 0), PullPress::Started);
    assert_eq!(countdown::start_instant(&slot), Some(0));
    assert_eq!(on_pull_pressed(false, &mut slot, 10, 1), PullPress::Rejected);
    assert!(slot.is_some());
    assert_eq!(on_pull_pressed(true, &mut slot, 10, 1), PullPress::Cancelled);
    assert!(slot.is_none());
}

#[test]
fn ready_check_start_is_silent_and_never_cancels() {
    let mut slot: Option<CountdownState> = None;
    assert!(!on_ready_check_succeeded(false, &mut slot, 10, 0));
    assert!(slot.is_none());
    assert!(on_ready_check_succeeded(true, &mut slot, 10, 0));
    assert!(on_ready_check_succeeded(true, &mut slot, 8, 5));
    assert_eq!(countdown::start_instant(&slot), Some(5));
}

#[test]
fn return_key_lparams_values() {
    let (down, up) = return_key_lparams();
    assert_eq!(down, 0x001C_0001);
    assert_eq!(up, 0xC01C_0001);
}

#[test]
fn listener_mirrors_announced_count() {
    let roster = Roster::new();
    let mut slot: Option<CountdownState> = None;
    let text = format!("{} {}", CHAT_MARKER, render_message("Pulling in {n}...", 12));
    let m = msg(MessageChannel::Party, "Anyone.1234", &text);
    assert_eq!(on_squad_message(&m, &roster, &mut slot, 42), ListenOutcome::Started(12));
    assert_eq!(countdown::start_instant(&slot), Some(42));
    // The echo of the same line does not restart it.
    assert_eq!(on_squad_message(&m, &roster, &mut slot, 50), ListenOutcome::Ignored);
    assert_eq!(countdown::start_instant(&slot), Some(42));
    // A cancellation applies.
    let c = msg(MessageChannel::Party, "Anyone.1234", "[PullSync] Pull cancelled.");
    assert_eq!(on_squad_message(&c, &roster, &mut slot, 51), ListenOutcome::Cancelled);
    assert!(slot.is_none());
}

#[test]
fn listener_ignores_unmarked_and_other_channels() {
    let roster = Roster::new();
    let mut slot = None;
    let m = msg(MessageChannel::Party, "A.1", "pull 10");
    assert_eq!(on_squad_message(&m, &roster, &mut slot, 0), ListenOutcome::Ignored);
    let m = msg(MessageChannel::Other, "A.1", "[PullSync] Pulling in 10...");
    assert_eq!(on_squad_message(&m, &roster, &mut slot, 0), ListenOutcome::Ignored);
    let m = msg(MessageChannel::Party, "A.1", "[PullSync] Pull!");
    assert_eq!(on_squad_message(&m, &roster, &mut slot, 0), ListenOutcome::Ignored);
    let m = msg(MessageChannel::Party, "A.1", "[PullSync] Pull cancelled.");
    assert_eq!(on_squad_message(&m, &roster, &mut slot, 0), ListenOutcome::Ignored);
    assert!(slot.is_none());
}

#[test]
fn squad_messages_need_leader_or_lieutenant() {
    let mut slot = None;
    let line = "[PullSync] Pulling in 10...";
    let member = roster_with(":Member.1234", UserRole::Member);
    let m = msg(MessageChannel::Squad, "Member.1234", line);
    assert!(!sender_may_control(&m, &member));
    assert_eq!(on_squad_message(&m, &member, &mut slot, 0), ListenOutcome::Ignored);
    let unknown = Roster::new();
    assert_eq!(on_squad_message(&m, &unknown, &mut slot, 0), ListenOutcome::Ignored);
    let lead = roster_with(":Lead.1234", UserRole::SquadLeader);
    let m = msg(MessageChannel::Squad, "  lead.1234 ", line);
    assert!(sender_may_control(&m, &lead));
    assert_eq!(on_squad_message(&m, &lead, &mut slot, 0), ListenOutcome::Started(10));
    let lt = roster_with("Lt.5678", UserRole::Lieutenant);
    let c = msg(MessageChannel::Squad, "LT.5678", "[PullSync] Pull cancelled.");
    assert_eq!(on_squad_message(&c, &lt, &mut slot, 1), ListenOutcome::Cancelled);
}

#[test]
fn party_messages_from_anyone_may_control() {
    let roster = Roster::new();
    let m = msg(MessageChannel::Party, "Nobody.1", "x");
    assert!(sender_may_control(&m, &roster));
}

#[test]
fn line_actions_wait_send_or_stop() {
    const SEC: u64 = 1_000_000_000;
    assert_eq!(next_line_action(None, None, false, 0), LineAction::Send);
    assert_eq!(next_line_action(Some(3), None, true, 0), LineAction::Stop);
    assert_eq!(next_line_action(Some(3), Some(SEC), true, 2 * SEC), LineAction::WaitUntil(4 * SEC));
    assert_eq!(next_line_action(Some(3), Some(SEC), true, 4 * SEC), LineAction::Send);
    assert_eq!(next_line_action(Some(3), Some(SEC), false, 4 * SEC), LineAction::Stop);
    // A cancelled countdown still waits for the line's moment before stopping.
    assert_eq!(next_line_action(Some(3), Some(SEC), false, 2 * SEC), LineAction::WaitUntil(4 * SEC));
    assert_eq!(next_line_action(Some(u32::MAX), Some(u64::MAX - 1), true, 0), LineAction::WaitUntil(u64::MAX));
}

#[test]
fn focus_poll_waits_until_deadline() {
    assert_eq!(CHAT_FOCUS_TIMEOUT_NANOS, 300_000_000);
    assert_eq!(focus_poll(true, 5, 10), FocusPoll::Focused);
    assert_eq!(focus_poll(false, 5, 10), FocusPoll::Poll);
    assert_eq!(focus_poll(false, 10, 10), FocusPoll::TimedOut);
    assert_eq!(focus_poll(true, 11, 10), FocusPoll::TimedOut);
}

//! Announcing a pull in chat: the text of each line, the plan of lines for a pull, and the
//! decisions taken when the pull button is pressed.

use vstd::prelude::*;
use crate::countdown::{self, CountdownState, NANOS_PER_SEC};
use crate::squad::{command_word_spec, ChatChannel};
use crate::text::{chars_of, decimal, push_decimal, replace_all, replace_chars, string_of};

verus! {

/// Tag that every chat line this addon sends starts with. Receivers only act on lines that
/// carry it, so ordinary chat mentioning "pull" or "cancel" never triggers anything.
pub const CHAT_MARKER: &'static str = "[PullSync]";

/// The characters of `CHAT_MARKER`.
pub open spec fn chat_marker() -> Seq<char> {
    seq!['[', 'P', 'u', 'l', 'l', 'S', 'y', 'n', 'c', ']']
}

/// The characters of `CHAT_MARKER`, as a vector.
pub fn chat_marker_chars() -> (r: Vec<char>)
    ensures
        r@ == chat_marker(),
{
    let r = chars_of(CHAT_MARKER);
    proof {
        reveal_strlit("[PullSync]");
        assert(r@ =~= chat_marker());
    }
    r
}

/// The placeholder that `{n}` templates use for the count.
pub open spec fn placeholder() -> Seq<char> {
    seq!['{', 'n', '}']
}

/// A template with every `{n}` replaced by the decimal count.
pub open spec fn rendered(template: Seq<char>, n: u32) -> Seq<char> {
    replace_all(template, placeholder(), decimal(n as nat))
}

/// Substitutes `{n}` in a template with the given count.
pub fn render_message(template: &str, n: u32) -> (r: String)
    ensures
        r@ == rendered(template@, n),
{
    let t = chars_of(template);
    let pat: Vec<char> = vec!['{', 'n', '}'];
    let mut digits: Vec<char> = Vec::new();
    push_decimal(&mut digits, n);
    assert(pat@ =~= placeholder());
    assert(digits@ =~= decimal(n as nat));
    let out = replace_chars(&t, &pat, &digits);
    string_of(&out)
}

/// A line as it goes out: the marker, a space, then the message.
pub open spec fn tagged(message: Seq<char>) -> Seq<char> {
    chat_marker() + seq![' '] + message
}

/// How a line is typed into the game.
#[derive(Debug, Clone, Copy, PartialEq, Eq, Structural)]
pub enum ChatBind {
    /// The chat-command bind, which opens the chat box with "/" already typed.
    ChatCommand,
    /// The squad-broadcast bind (Shift+Enter).
    SquadBroadcast,
}

/// A composed chat line: which bind opens the box and what is typed into it.
#[derive(Debug, Clone)]
pub struct ComposedLine {
    pub bind: ChatBind,
    pub text: String,
}

/// Whether a line goes out as a squad broadcast: only when asked for and in a squad (squad
/// broadcast doesn't exist for parties, which fall back to normal chat).
pub open spec fn goes_as_broadcast(channel: ChatChannel, use_broadcast: bool) -> bool {
    use_broadcast && channel == ChatChannel::Squad
}

/// The text typed for a line: the tagged message, preceded by the channel command word unless
/// it is a broadcast (which isn't a `/`-routed channel).
pub open spec fn typed_text(channel: ChatChannel, message: Seq<char>, use_broadcast: bool) -> Seq<
    char,
> {
    if goes_as_broadcast(channel, use_broadcast) {
        tagged(message)
    } else {
        command_word_spec(channel) + seq![' '] + tagged(message)
    }
}

/// Composes one line for `send_chat_line`: picks the bind and builds the typed text.
/// `message` is the raw content, without any channel-command prefix or marker.
pub fn compose_chat_line(channel: ChatChannel, message: &str, use_broadcast: bool) -> (r:
    ComposedLine)
    ensures
        r.bind == (if goes_as_broadcast(channel, use_broadcast) {
            ChatBind::SquadBroadcast
        } else {
            ChatBind::ChatCommand
        }),
        r.text@ == typed_text(channel, message@, use_broadcast),
{
    let broadcast = use_broadcast && channel == ChatChannel::Squad;
    let mut out: Vec<char> = Vec::new();
    if !broadcast {
        out = chars_of(channel.command_word());
        out.push(' ');
    }
    let marker = chat_marker_chars();
    let msg = chars_of(message);
    let mut k: usize = 0;
    let ghost prefix = out@;
    while k < marker.len()
        invariant
            k <= marker.len(),
            out@ == prefix + marker@.take(k as int),
        decreases marker.len() - k,
    {
        out.push(marker[k]);
        k = k + 1;
        assert(out@ =~= prefix + marker@.take(k as int));
    }
    out.push(' ');
    let ghost prefix2 = out@;
    let mut k: usize = 0;
    while k < msg.len()
        invariant
            k <= msg.len(),
            out@ == prefix2 + msg@.take(k as int),
        decreases msg.len() - k,
    {
        out.push(msg[k]);
        k = k + 1;
        assert(out@ =~= prefix2 + msg@.take(k as int));
    }
    assert(marker@.take(marker@.len() as int) =~= marker@);
    assert(msg@.take(msg@.len() as int) =~= msg@);
    assert(out@ =~= typed_text(channel, message@, use_broadcast));
    let bind = if broadcast {
        ChatBind::SquadBroadcast
    } else {
        ChatBind::ChatCommand
    };
    ComposedLine { bind, text: string_of(&out) }
}

/// One chat line of a pull announcement.
#[derive(Debug, Clone)]
pub struct PlannedLine {
    /// `None`: send straight away. `Some(d)`: send `d` seconds after the countdown started,
    /// and only if the countdown is still running then.
    pub delay_secs: Option<u32>,
    /// The message (without marker or channel prefix).
    pub text: String,
    /// Whether to ask for squad broadcast for this line.
    pub broadcast: bool,
    /// Whether a failure to send it is worth an alert.
    pub alert_on_failure: bool,
}

/// A planned line as plain values.
pub struct PlannedLineView {
    pub delay_secs: Option<u32>,
    pub text: Seq<char>,
    pub broadcast: bool,
    pub alert_on_failure: bool,
}

impl View for PlannedLine {
    type V = PlannedLineView;

    open spec fn view(&self) -> PlannedLineView {
        PlannedLineView {
            delay_secs: self.delay_secs,
            text: self.text@,
            broadcast: self.broadcast,
            alert_on_failure: self.alert_on_failure,
        }
    }
}

/// The lines of a plan, as plain values.
pub open spec fn plan_view(lines: Seq<PlannedLine>) -> Seq<PlannedLineView> {
    lines.map_values(|l: PlannedLine| l@)
}

/// The number the chat countdown starts from: the configured one, capped to the total.
pub open spec fn chat_start_from(countdown_start: u32, total: u32) -> u32 {
    if countdown_start < total { countdown_start } else { total }
}

/// The tick line for count `n` (counting down from `start_from`).
pub open spec fn tick_line(
    template: Seq<char>,
    pull_text: Seq<char>,
    use_broadcast: bool,
    start_from: u32,
    total: u32,
    n: u32,
) -> PlannedLineView {
    PlannedLineView {
        delay_secs: Some((total - n) as u32),
        text: if n == 0 { pull_text } else { rendered(template, n) },
        // Squad broadcast stays on screen for several seconds and queues up if sent faster than
        // that - so only the final "pull now" tick broadcasts, plus the first tick when it
        // stands in for the upfront message.
        broadcast: use_broadcast && (n == 0 || (start_from >= total && n == start_from)),
        alert_on_failure: false,
    }
}

/// The upfront heads-up line announcing the full count.
pub open spec fn upfront_line(template: Seq<char>, use_broadcast: bool, total: u32) -> PlannedLineView {
    PlannedLineView {
        delay_secs: None,
        text: rendered(template, total),
        broadcast: use_broadcast,
        alert_on_failure: true,
    }
}

/// The chat lines announcing a pull from `total`.
pub open spec fn chat_plan(
    template: Seq<char>,
    pull_text: Seq<char>,
    countdown_enabled: bool,
    countdown_start: u32,
    use_broadcast: bool,
    total: u32,
) -> Seq<PlannedLineView> {
    if !countdown_enabled {
        seq![upfront_line(template, use_broadcast, total)]
    } else {
        let sf = chat_start_from(countdown_start, total);
        let upfront = if sf < total {
            seq![upfront_line(template, use_broadcast, total)]
        } else {
            Seq::empty()
        };
        upfront + Seq::new(
            (sf + 1) as nat,
            |j: int| tick_line(template, pull_text, use_broadcast, sf, total, (sf - j) as u32),
        )
    }
}

/// Plans the chat lines that announce a pull from `total`.
///
/// Without chat countdown it is one heads-up message. With it, the heads-up (skipped when the
/// chat countdown covers the whole range, so it isn't sent twice back to back) is followed by
/// one line per second from the chat countdown's start down to the pull text, each timed to
/// land when the overlay shows the same number.
pub fn plan_chat_sequence(
    template: &str,
    pull_text: &str,
    countdown_enabled: bool,
    countdown_start: u32,
    use_broadcast: bool,
    total: u32,
) -> (r: Vec<PlannedLine>)
    ensures
        plan_view(r@) == chat_plan(
            template@,
            pull_text@,
            countdown_enabled,
            countdown_start,
            use_broadcast,
            total,
        ),
{
    let mut lines: Vec<PlannedLine> = Vec::new();
    if !countdown_enabled {
        lines.push(
            PlannedLine {
                delay_secs: None,
                text: render_message(template, total),
                broadcast: use_broadcast,
                alert_on_failure: true,
            },
        );
        assert(plan_view(lines@) =~= chat_plan(
            template@,
            pull_text@,
            countdown_enabled,
            countdown_start,
            use_broadcast,
            total,
        ));
        return lines;
    }
    let start_from = if countdown_start < total {
        countdown_start
    } else {
        total
    };
    if start_from < total {
        lines.push(
            PlannedLine {
                delay_secs: None,
                text: render_message(template, total),
                broadcast: use_broadcast,
                alert_on_failure: true,
            },
        );
    }
    let ghost upfront = plan_view(lines@);
    let ghost ticks = Seq::new(
        (start_from + 1) as nat,
        |j: int|
            tick_line(template@, pull_text@, use_broadcast, start_from, total, (start_from - j) as u32),
    );
    assert(upfront == (if start_from < total {
        seq![upfront_line(template@, use_broadcast, total)]
    } else {
        Seq::<PlannedLineView>::empty()
    }));
    let mut j: u64 = 0;
    while j <= start_from as u64
        invariant
            start_from <= total,
            j <= start_from + 1,
            ticks.len() == start_from + 1,
            ticks == Seq::new(
                (start_from + 1) as nat,
                |j: int|
                    tick_line(
                        template@,
                        pull_text@,
                        use_broadcast,
                        start_from,
                        total,
                        (start_from - j) as u32,
                    ),
            ),
            plan_view(lines@) == upfront + ticks.take(j as int),
        decreases start_from + 1 - j,
    {
        let n: u32 = start_from - j as u32;
        let text = if n == 0 {
            string_of(&chars_of(pull_text))
        } else {
            render_message(template, n)
        };
        let is_first_tick = start_from >= total && n == start_from;
        let line = PlannedLine {
            delay_secs: Some(total - n),
            text,
            broadcast: use_broadcast && (n == 0 || is_first_tick),
            alert_on_failure: false,
        };
        let ghost before = lines@;
        let ghost lv = line@;
        assert(lv == tick_line(template@, pull_text@, use_broadcast, start_from, total, n));
        lines.push(line);
        assert(plan_view(lines@) =~= plan_view(before).push(lv));
        assert(ticks[j as int] == tick_line(template@, pull_text@, use_broadcast, start_from, total, n));
        assert(ticks.take(j + 1) =~= ticks.take(j as int).push(ticks[j as int]));
        assert(plan_view(lines@) =~= upfront + ticks.take(j + 1));
        j = j + 1;
    }
    assert(ticks.take(ticks.len() as int) =~= ticks);
    lines
}

/// What to do next about a planned chat line.
#[derive(Debug, Clone, Copy, PartialEq, Eq, Structural)]
pub enum LineAction {
    /// Send the line now.
    Send,
    /// Wait until this clock reading, then ask again.
    WaitUntil(u64),
    /// Stop announcing: the countdown is gone.
    Stop,
}

/// The clock reading `delay_secs` seconds after `start` (capped at the largest reading).
pub open spec fn line_due_at(start: u64, delay_secs: u32) -> u64 {
    if start + delay_secs * NANOS_PER_SEC > u64::MAX {
        u64::MAX
    } else {
        (start + delay_secs * NANOS_PER_SEC) as u64
    }
}

/// What to do about a planned line with the given delay.
pub open spec fn line_action(
    delay_secs: Option<u32>,
    start: Option<u64>,
    countdown_active: bool,
    now: u64,
) -> LineAction {
    match delay_secs {
        None => LineAction::Send,
        Some(d) => match start {
            None => LineAction::Stop,
            Some(st) => if now < line_due_at(st, d) {
                LineAction::WaitUntil(line_due_at(st, d))
            } else if !countdown_active {
                LineAction::Stop
            } else {
                LineAction::Send
            },
        },
    }
}

/// Decides, at clock reading `now`, what to do about a planned line: an immediate line is sent;
/// a timed line waits for its moment (`delay_secs` after the countdown's `start`), and is then
/// sent only if the countdown is still running - once the countdown is gone (cancelled, or no
/// start reading at all), announcing stops, so no tail tick is posted for a pull that no longer
/// exists.
pub fn next_line_action(
    delay_secs: Option<u32>,
    start: Option<u64>,
    countdown_active: bool,
    now: u64,
) -> (r: LineAction)
    ensures
        r == line_action(delay_secs, start, countdown_active, now),
{
    match delay_secs {
        None => LineAction::Send,
        Some(d) => match start {
            None => LineAction::Stop,
            Some(st) => {
                let offset: u64 = d as u64 * NANOS_PER_SEC;
                let due = st.saturating_add(offset);
                if now < due {
                    LineAction::WaitUntil(due)
                } else if !countdown_active {
                    LineAction::Stop
                } else {
                    LineAction::Send
                }
            },
        },
    }
}

/// How long to wait for the chat box to gain focus after opening it, in nanoseconds.
pub const CHAT_FOCUS_TIMEOUT_NANOS: u64 = 300_000_000;

/// One poll while waiting for the chat box to gain focus.
#[derive(Debug, Clone, Copy, PartialEq, Eq, Structural)]
pub enum FocusPoll {
    /// The box has focus: go on typing.
    Focused,
    /// Not yet: wait a little and poll again.
    Poll,
    /// The deadline passed: give up on this line.
    TimedOut,
}

/// Decides one poll at clock reading `now` of the wait for focus that ends at `deadline`: while
/// the deadline is ahead, focus ends the wait and its absence means polling again; once it is
/// reached, the wait has timed out.
pub fn focus_poll(textbox_focused: bool, now: u64, deadline: u64) -> (r: FocusPoll)
    ensures
        r == (if now < deadline {
            if textbox_focused {
                FocusPoll::Focused
            } else {
                FocusPoll::Poll
            }
        } else {
            FocusPoll::TimedOut
        }),
{
    if now < deadline {
        if textbox_focused {
            FocusPoll::Focused
        } else {
            FocusPoll::Poll
        }
    } else {
        FocusPoll::TimedOut
    }
}

/// What pressing the pull button (quick access icon or keybind) did.
#[derive(Debug, Clone, Copy, PartialEq, Eq, Structural)]
pub enum PullPress {
    /// The player may not control the pull; nothing changed (the caller shows the "only the
    /// squad commander" alert).
    Rejected,
    /// The running countdown was cancelled (the caller stops the sound and posts the cancel line).
    Cancelled,
    /// A countdown was started (the caller announces it in chat).
    Started,
}

/// What pressing the pull button does, and the countdown it leaves.
pub open spec fn press_step(allowed: bool, slot: Option<CountdownState>, total: u32, now: u64) -> (
    PullPress,
    Option<CountdownState>,
) {
    if !allowed {
        (PullPress::Rejected, slot)
    } else if slot.is_some() {
        (PullPress::Cancelled, None)
    } else {
        (PullPress::Started, Some(CountdownState::fresh(now, total)))
    }
}

/// Handles an explicit Pull trigger (quick access icon/keybind) at clock reading `now`: toggles
/// between starting a pull from `total` and cancelling one already in progress, if the player
/// is `allowed` to control the pull.
pub fn on_pull_pressed(
    allowed: bool,
    slot: &mut Option<CountdownState>,
    total: u32,
    now: u64,
) -> (r: PullPress)
    ensures
        (r, *final(slot)) == press_step(allowed, *old(slot), total, now),
{
    if !allowed {
        return PullPress::Rejected;
    }
    if countdown::is_active(slot) {
        countdown::cancel(slot);
        PullPress::Cancelled
    } else {
        countdown::start(slot, total, now);
        PullPress::Started
    }
}

/// Handles an automatic Pull trigger (after a successful ready check). Every squad member's
/// client sees the same ready-check event, so rejection here is silent. Never cancels: it
/// starts a countdown from `total` (restarting any running one) when `allowed`, and returns
/// whether it did.
pub fn on_ready_check_succeeded(
    allowed: bool,
    slot: &mut Option<CountdownState>,
    total: u32,
    now: u64,
) -> (r: bool)
    ensures
        r == allowed,
        *final(slot) == (if allowed {
            Some(CountdownState::fresh(now, total))
        } else {
            *old(slot)
        }),
{
    if !allowed {
        return false;
    }
    countdown::start(slot, total, now);
    true
}

/// The `lParam` words of the Return key-down and key-up messages that submit a typed line:
/// repeat count 1, scan code 0x1C; key-up also sets the previous-state and transition bits.
pub fn return_key_lparams() -> (r: (u32, u32))
    ensures
        r.0 == 1 + 0x1C * 0x10000,
        r.1 == r.0 + 0x4000_0000 + 0x8000_0000,
{
    let scancode: u32 = 0x1C;
    let down: u32 = 1 | (scancode << 16);
    let up: u32 = down | (1 << 30) | (1 << 31);
    assert(down == 1 + 0x1C * 0x10000) by (bit_vector)
        requires
            scancode == 0x1C,
            down == 1 | (scancode << 16),
    ;
    assert(up == down + 0x4000_0000 + 0x8000_0000) by (bit_vector)
        requires
            down == 1 + 0x1C * 0x10000,
            up == down | (1u32 << 30) | (1u32 << 31),
    ;
    (down, up)
}

/// Pressing the button twice while allowed starts a countdown and then cancels it: the button
/// toggles.
pub proof fn lemma_press_toggles(slot: Option<CountdownState>, total: u32, t1: u64, t2: u64)
    requires
        slot is None,
    ensures
        ({
            let (r1, s1) = press_step(true, slot, total, t1);
            let (r2, s2) = press_step(true, s1, total, t2);
            r1 == PullPress::Started && s1 == Some(CountdownState::fresh(t1, total)) && r2
                == PullPress::Cancelled && s2 is None
        }),
{
}

/// A player who may not control the pull changes nothing by pressing the button.
pub proof fn lemma_rejected_press_changes_nothing(
    slot: Option<CountdownState>,
    total: u32,
    now: u64,
)
    ensures
        press_step(false, slot, total, now) == (PullPress::Rejected, slot),
{
}

/// A plan's last line is the pull text, timed for the moment the overlay reaches zero; with
/// chat countdown off the plan is the single heads-up line.
pub proof fn lemma_plan_ends_with_pull(
    template: Seq<char>,
    pull_text: Seq<char>,
    countdown_enabled: bool,
    countdown_start: u32,
    use_broadcast: bool,
    total: u32,
)
    ensures
        ({
            let plan = chat_plan(
                template,
                pull_text,
                countdown_enabled,
                countdown_start,
                use_broadcast,
                total,
            );
            &&& countdown_enabled ==> plan.len() >= 1 && plan.last().text == pull_text
                && plan.last().delay_secs == Some(total)
            &&& !countdown_enabled ==> plan.len() == 1 && plan[0].text == rendered(template, total)
        }),
{
    if countdown_enabled {
        let sf = chat_start_from(countdown_start, total);
        let plan = chat_plan(template, pull_text, countdown_enabled, countdown_start, use_broadcast, total);
        let upfront = if sf < total {
            seq![upfront_line(template, use_broadcast, total)]
        } else {
            Seq::<PlannedLineView>::empty()
        };
        let ticks = Seq::new(
            (sf + 1) as nat,
            |j: int| tick_line(template, pull_text, use_broadcast, sf, total, (sf - j) as u32),
        );
        assert(plan == upfront + ticks);
        assert(plan.last() == ticks[sf as int]);
    }
}

/// Chat countdown ticks are one second apart, counting down in step with the overlay: every
/// timed line for count `n` is sent `total - n` seconds after the start, and only the first
/// and last lines of a plan can go out as squad broadcast.
pub proof fn lemma_plan_timing_and_broadcast(
    template: Seq<char>,
    pull_text: Seq<char>,
    countdown_start: u32,
    use_broadcast: bool,
    total: u32,
)
    ensures
        ({
            let plan = chat_plan(template, pull_text, true, countdown_start, use_broadcast, total);
            let sf = chat_start_from(countdown_start, total);
            let first_tick = plan.len() - (sf + 1);
            &&& forall|j: int|
                first_tick <= j < plan.len() ==> #[trigger] plan[j].delay_secs == Some(
                    (total - sf + (j - first_tick)) as u32,
                )
            &&& forall|j: int| 0 <= j < first_tick ==> #[trigger] plan[j].delay_secs is None
            &&& forall|j: int|
                0 < j < plan.len() - 1 ==> !(#[trigger] plan[j].broadcast)
        }),
{
    let sf = chat_start_from(countdown_start, total);
    let upfront = if sf < total {
        seq![upfront_line(template, use_broadcast, total)]
    } else {
        Seq::<PlannedLineView>::empty()
    };
    let ticks = Seq::new(
        (sf + 1) as nat,
        |j: int| tick_line(template, pull_text, use_broadcast, sf, total, (sf - j) as u32),
    );
    let plan = chat_plan(template, pull_text, true, countdown_start, use_broadcast, total);
    assert(plan == upfront + ticks);
    let first_tick = plan.len() - (sf + 1);
    assert forall|j: int| first_tick <= j < plan.len() implies #[trigger] plan[j].delay_secs
        == Some((total - sf + (j - first_tick)) as u32) by {
        assert(plan[j] == ticks[j - first_tick]);
    }
    assert forall|j: int| 0 < j < plan.len() - 1 implies !(#[trigger] plan[j].broadcast) by {
        if j >= first_tick {
            assert(plan[j] == ticks[j - first_tick]);
        }
    }
}

/// Squad broadcast is only ever asked for when the setting is on: no line of any plan asks for it
/// otherwise. The heads-up line (the whole plan, with chat countdown off) and the final pull
/// line ask for it exactly when the setting is on.
pub proof fn lemma_plan_broadcast_follows_setting(
    template: Seq<char>,
    pull_text: Seq<char>,
    countdown_enabled: bool,
    countdown_start: u32,
    use_broadcast: bool,
    total: u32,
)
    ensures
        ({
            let plan = chat_plan(
                template,
                pull_text,
                countdown_enabled,
                countdown_start,
                use_broadcast,
                total,
            );
            &&& forall|j: int| 0 <= j < plan.len() && #[trigger] plan[j].broadcast ==> use_broadcast
            &&& plan.len() >= 1
            &&& plan[0].broadcast == use_broadcast
            &&& plan.last().broadcast == use_broadcast
            &&& !countdown_enabled ==> plan.len() == 1 && plan[0].delay_secs is None
                && plan[0].alert_on_failure
        }),
{
    let plan = chat_plan(template, pull_text, countdown_enabled, countdown_start, use_broadcast, total);
    if countdown_enabled {
        let sf = chat_start_from(countdown_start, total);
        let upfront = if sf < total {
            seq![upfront_line(template, use_broadcast, total)]
        } else {
            Seq::<PlannedLineView>::empty()
        };
        let ticks = Seq::new(
            (sf + 1) as nat,
            |j: int| tick_line(template, pull_text, use_broadcast, sf, total, (sf - j) as u32),
        );
        assert(plan == upfront + ticks);
        assert(plan.last() == ticks[sf as int]);
        assert forall|j: int| 0 <= j < plan.len() && #[trigger] plan[j].broadcast implies use_broadcast by {
            if j >= upfront.len() {
                assert(plan[j] == ticks[j - upfront.len()]);
            }
        }
        if sf >= total {
            assert(plan[0] == ticks[0]);
        }
    }
}

} // verus!

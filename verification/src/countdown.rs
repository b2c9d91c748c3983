//! The countdown clock: a countdown started at some instant counts whole seconds down to zero,
//! shows "PULL!" for a short linger period, then disappears.
//!
//! Time is a reading of a monotonic clock in nanoseconds, taken by the caller; a countdown
//! remembers the reading at which it started.

use vstd::prelude::*;

verus! {

/// Nanoseconds in one second.
pub const NANOS_PER_SEC: u64 = 1_000_000_000;

/// How long the "PULL!" banner lingers after hitting zero before disappearing, in seconds.
pub const LINGER_SECS: u64 = 2;

/// Length of the bundled countdown sound, in seconds. It's a fixed five one-second beats, so it
/// has to start exactly this far from zero to line up with the overlay's digits, and countdowns
/// shorter than this can't use it at all.
pub const COUNTDOWN_SOUND_SECS: u32 = 5;

/// A running countdown.
#[derive(Debug, Clone, Copy)]
pub struct CountdownState {
    /// Clock reading (nanoseconds) at which the countdown started.
    pub start: u64,
    /// Number of seconds counted down.
    pub total: u32,
    /// Whether `snapshot()` has already reported hitting zero once for this countdown - lets it
    /// tell the caller the *moment* it first reaches "PULL!", instead of every frame during the
    /// linger period (used to fire the alert sound exactly once).
    pub pull_reported: bool,
    /// Same idea for the countdown sound's one-shot start trigger.
    pub countdown_sound_started: bool,
}

/// What the overlay shows at one instant.
#[derive(Debug, Clone, Copy)]
pub struct CountdownSnapshot {
    pub remaining: u32,
    pub is_pull: bool,
    /// True only on the single `snapshot()` call where `is_pull` first becomes true.
    pub just_reached_pull: bool,
    /// True only on the single `snapshot()` call where the countdown first enters its last
    /// `COUNTDOWN_SOUND_SECS` seconds - and only for countdowns long enough to fit the sound.
    pub just_entered_countdown_sound_window: bool,
}

impl CountdownState {
    /// A countdown of `total` seconds that started at clock reading `start`, nothing reported yet.
    pub open spec fn fresh(start: u64, total: u32) -> CountdownState {
        CountdownState { start, total, pull_reported: false, countdown_sound_started: false }
    }
}

/// Nanoseconds since the countdown started (zero if the clock reads earlier than the start).
pub open spec fn elapsed_at(st: CountdownState, now: u64) -> int {
    if now >= st.start { now - st.start } else { 0 }
}

/// Length of the countdown in nanoseconds.
pub open spec fn total_nanos(st: CountdownState) -> int {
    st.total * NANOS_PER_SEC
}

/// Whether the countdown, linger included, is over.
pub open spec fn expired_at(st: CountdownState, now: u64) -> bool {
    elapsed_at(st, now) >= total_nanos(st) + LINGER_SECS * NANOS_PER_SEC
}

/// Whole seconds left, rounded up; zero once the countdown has run out.
pub open spec fn remaining_at(st: CountdownState, now: u64) -> int {
    if elapsed_at(st, now) < total_nanos(st) {
        (total_nanos(st) - elapsed_at(st, now) + NANOS_PER_SEC - 1) / (NANOS_PER_SEC as int)
    } else {
        0
    }
}

/// Whether the countdown is inside its last `COUNTDOWN_SOUND_SECS` seconds (before zero), and
/// long enough for the countdown sound at all.
pub open spec fn in_sound_window_at(st: CountdownState, now: u64) -> bool {
    &&& st.total >= COUNTDOWN_SOUND_SECS
    &&& elapsed_at(st, now) < total_nanos(st)
    &&& total_nanos(st) - elapsed_at(st, now) <= COUNTDOWN_SOUND_SECS * NANOS_PER_SEC
}

/// What `snapshot` reports, and the countdown it leaves behind, when called at `now`.
pub open spec fn snapshot_step(slot: Option<CountdownState>, now: u64) -> (
    Option<CountdownSnapshot>,
    Option<CountdownState>,
) {
    match slot {
        None => (None, None),
        Some(st) => if expired_at(st, now) {
            (None, None)
        } else {
            let remaining = remaining_at(st, now);
            let reached = remaining == 0 && !st.pull_reported;
            let entered = !st.countdown_sound_started && in_sound_window_at(st, now);
            (
                Some(
                    CountdownSnapshot {
                        remaining: remaining as u32,
                        is_pull: remaining == 0,
                        just_reached_pull: reached,
                        just_entered_countdown_sound_window: entered,
                    },
                ),
                Some(
                    CountdownState {
                        pull_reported: st.pull_reported || reached,
                        countdown_sound_started: st.countdown_sound_started || entered,
                        ..st
                    },
                ),
            )
        },
    }
}

/// Starts a new countdown from `total` seconds at clock reading `now`, overwriting any
/// countdown already running.
pub fn start(slot: &mut Option<CountdownState>, total: u32, now: u64)
    ensures
        *final(slot) == Some(CountdownState::fresh(now, total)),
{
    *slot = Some(
        CountdownState { start: now, total, pull_reported: false, countdown_sound_started: false },
    );
}

/// Whether a countdown is running (or lingering on "PULL!").
pub fn is_active(slot: &Option<CountdownState>) -> (r: bool)
    ensures
        r == slot.is_some(),
{
    slot.is_some()
}

/// Stops the current countdown immediately (no linger - it just disappears).
pub fn cancel(slot: &mut Option<CountdownState>)
    ensures
        *final(slot) == None::<CountdownState>,
{
    *slot = None;
}

/// The clock reading at which the currently running countdown started, if any - used to
/// schedule the per-second chat countdown in sync with the overlay.
pub fn start_instant(slot: &Option<CountdownState>) -> (r: Option<u64>)
    ensures
        r == match *slot {
            Some(st) => Some(st.start),
            None => None,
        },
{
    match slot {
        Some(st) => Some(st.start),
        None => None,
    }
}

/// The seconds shown never exceed the starting number.
pub proof fn lemma_remaining_fits(st: CountdownState, now: u64)
    ensures
        0 <= remaining_at(st, now) <= st.total,
{
    let t = total_nanos(st);
    let e = elapsed_at(st, now);
    if e < t {
        let n = NANOS_PER_SEC as int;
        assert(0 <= (t - e + n - 1) / n <= st.total) by (nonlinear_arith)
            requires
                t == st.total * n,
                0 <= e < t,
                n == 1_000_000_000,
        ;
    }
}

/// Computes the current countdown state at clock reading `now`, clearing it once the linger
/// period has elapsed.
pub fn snapshot(slot: &mut Option<CountdownState>, now: u64) -> (r: Option<CountdownSnapshot>)
    ensures
        (r, *final(slot)) == snapshot_step(*old(slot), now),
{
    let st = match *slot {
        None => {
            return None;
        },
        Some(st) => st,
    };
    let elapsed: u64 = if now >= st.start { now - st.start } else { 0 };
    let total_ns: u64 = st.total as u64 * NANOS_PER_SEC;
    let linger_ns: u64 = LINGER_SECS * NANOS_PER_SEC;

    if elapsed >= total_ns + linger_ns {
        *slot = None;
        return None;
    }

    proof {
        lemma_remaining_fits(st, now);
    }
    let remaining: u32 = if elapsed < total_ns {
        ((total_ns - elapsed + (NANOS_PER_SEC - 1)) / NANOS_PER_SEC) as u32
    } else {
        0
    };
    let is_pull = remaining == 0;

    let just_reached_pull = is_pull && !st.pull_reported;

    // Fire once, when there's exactly COUNTDOWN_SOUND_SECS left, so the sound's beats land on
    // the overlay's digits. Requires a countdown at least that long, and deliberately doesn't
    // fire if we've somehow already passed zero (e.g. the game was frozen through the window) -
    // starting a 5s countdown sound at "PULL!" would just talk over the pull.
    let secs_left_ns: u64 = if elapsed < total_ns { total_ns - elapsed } else { 0 };
    let just_entered_countdown_sound_window = !st.countdown_sound_started && st.total
        >= COUNTDOWN_SOUND_SECS && secs_left_ns > 0 && secs_left_ns <= COUNTDOWN_SOUND_SECS as u64
        * NANOS_PER_SEC;

    *slot = Some(
        CountdownState {
            pull_reported: st.pull_reported || just_reached_pull,
            countdown_sound_started: st.countdown_sound_started
                || just_entered_countdown_sound_window,
            ..st
        },
    );

    Some(
        CountdownSnapshot {
            remaining,
            is_pull,
            just_reached_pull,
            just_entered_countdown_sound_window,
        },
    )
}

/// The countdown shows its full starting number at the instant it starts.
pub proof fn lemma_starts_at_total(st: CountdownState)
    ensures
        remaining_at(st, st.start) == st.total,
{
    let t = total_nanos(st);
    let n = NANOS_PER_SEC as int;
    if st.total > 0 {
        assert((t + n - 1) / n == st.total) by (nonlinear_arith)
            requires
                t == st.total * n,
                n == 1_000_000_000,
        ;
    }
}

/// The seconds shown never go up as the clock moves forward; once "PULL!" (zero) is shown it
/// stays.
pub proof fn lemma_remaining_never_increases(st: CountdownState, t1: u64, t2: u64)
    requires
        t1 <= t2,
    ensures
        remaining_at(st, t2) <= remaining_at(st, t1),
        remaining_at(st, t1) == 0 ==> remaining_at(st, t2) == 0,
{
    let t = total_nanos(st);
    let e1 = elapsed_at(st, t1);
    let e2 = elapsed_at(st, t2);
    let n = NANOS_PER_SEC as int;
    assert(e1 <= e2);
    if e2 < t {
        assert((t - e2 + n - 1) / n <= (t - e1 + n - 1) / n) by (nonlinear_arith)
            requires
                e1 <= e2 < t,
                n == 1_000_000_000,
        ;
    }
}

/// Reaching "PULL!" is reported on exactly one snapshot: a snapshot taken after one that
/// reported it never reports it again, whenever it is taken.
pub proof fn lemma_pull_reported_once(slot: Option<CountdownState>, t1: u64, t2: u64)
    ensures
        ({
            let (r1, s1) = snapshot_step(slot, t1);
            let (r2, s2) = snapshot_step(s1, t2);
            (r1 matches Some(a) && a.just_reached_pull) ==> !(r2 matches Some(b)
                && b.just_reached_pull)
        }),
{
}

/// The countdown sound is triggered by at most one snapshot of a countdown.
pub proof fn lemma_sound_started_once(slot: Option<CountdownState>, t1: u64, t2: u64)
    ensures
        ({
            let (r1, s1) = snapshot_step(slot, t1);
            let (r2, s2) = snapshot_step(s1, t2);
            (r1 matches Some(a) && a.just_entered_countdown_sound_window) ==> !(r2 matches Some(
                b,
            ) && b.just_entered_countdown_sound_window)
        }),
{
}

/// A snapshot never changes which countdown is running: start and length stay as they were.
pub proof fn lemma_snapshot_keeps_countdown(slot: Option<CountdownState>, now: u64)
    ensures
        ({
            let (r, s) = snapshot_step(slot, now);
            s matches Some(b) ==> (slot matches Some(a) && a.start == b.start && a.total
                == b.total)
        }),
{
}

/// The countdown sound starts on the first snapshot inside its window, not only at an exact
/// instant: for a countdown of at least `COUNTDOWN_SOUND_SECS` seconds whose sound has not
/// started, a snapshot taken when more than zero and at most `COUNTDOWN_SOUND_SECS` seconds are
/// left starts it, and shows the seconds left.
pub proof fn lemma_sound_fires_anywhere_in_window(st: CountdownState, now: u64)
    requires
        st.total >= COUNTDOWN_SOUND_SECS,
        !st.countdown_sound_started,
        ({
            let elapsed: int = if now >= st.start { now - st.start } else { 0 };
            let left: int = st.total * 1_000_000_000 - elapsed;
            0 < left <= COUNTDOWN_SOUND_SECS * 1_000_000_000
        }),
    ensures
        ({
            let (r, s) = snapshot_step(Some(st), now);
            &&& r matches Some(x)
            &&& x.just_entered_countdown_sound_window
            &&& !x.is_pull
            &&& 1 <= x.remaining <= COUNTDOWN_SOUND_SECS
            &&& s matches Some(n) && n.countdown_sound_started
        }),
{
    let elapsed: int = if now >= st.start { now - st.start } else { 0 };
    let left: int = st.total * 1_000_000_000 - elapsed;
    let n = NANOS_PER_SEC as int;
    assert(elapsed == elapsed_at(st, now));
    assert(1 <= (left + n - 1) / n <= 5) by (nonlinear_arith)
        requires
            0 < left <= 5 * n,
            n == 1_000_000_000,
    ;
}

/// The snapshots taken at each of `times` in turn, and the countdown left after the last.
pub open spec fn snapshot_run(slot: Option<CountdownState>, times: Seq<u64>) -> (
    Seq<Option<CountdownSnapshot>>,
    Option<CountdownState>,
)
    decreases times.len(),
{
    if times.len() == 0 {
        (Seq::empty(), slot)
    } else {
        let (rs, s) = snapshot_run(slot, times.drop_last());
        let (r, s2) = snapshot_step(s, times.last());
        (rs.push(r), s2)
    }
}

/// The snapshot shows "PULL!".
pub open spec fn shows_pull(r: Option<CountdownSnapshot>) -> bool {
    r matches Some(x) && x.is_pull
}

/// The snapshot reports the moment of reaching "PULL!".
pub open spec fn reports_reached(r: Option<CountdownSnapshot>) -> bool {
    r matches Some(x) && x.just_reached_pull
}

/// The snapshot starts the countdown sound.
pub open spec fn reports_sound(r: Option<CountdownSnapshot>) -> bool {
    r matches Some(x) && x.just_entered_countdown_sound_window
}

proof fn lemma_no_pull_before(rs: Seq<Option<CountdownSnapshot>>, r: Option<CountdownSnapshot>, i: int)
    requires
        0 <= i <= rs.len(),
    ensures
        (forall|j: int| 0 <= j < i ==> !shows_pull(#[trigger] rs.push(r)[j])) == (forall|j: int|
            0 <= j < i ==> !shows_pull(#[trigger] rs[j])),
{
    if forall|j: int| 0 <= j < i ==> !shows_pull(#[trigger] rs[j]) {
        assert forall|j: int| 0 <= j < i implies !shows_pull(#[trigger] rs.push(r)[j]) by {
            assert(rs.push(r)[j] == rs[j]);
        }
    }
    if forall|j: int| 0 <= j < i ==> !shows_pull(#[trigger] rs.push(r)[j]) {
        assert forall|j: int| 0 <= j < i implies !shows_pull(#[trigger] rs[j]) by {
            assert(rs.push(r)[j] == rs[j]);
        }
    }
}

/// What holds of every run of snapshots of one countdown.
pub open spec fn run_facts(start: u64, total: u32, times: Seq<u64>) -> bool {
    let (rs, s) = snapshot_run(Some(CountdownState::fresh(start, total)), times);
    &&& rs.len() == times.len()
    &&& forall|i: int|
        0 <= i < rs.len() ==> (reports_reached(#[trigger] rs[i]) <==> (shows_pull(rs[i])
            && forall|j: int| 0 <= j < i ==> !shows_pull(#[trigger] rs[j])))
    &&& forall|i: int, j: int|
        0 <= i < rs.len() && 0 <= j < rs.len() && reports_sound(#[trigger] rs[i])
            && reports_sound(#[trigger] rs[j]) ==> i == j
    &&& forall|i: int|
        0 <= i < rs.len() && reports_sound(#[trigger] rs[i]) ==> in_sound_window_at(
            CountdownState::fresh(start, total),
            times[i],
        )
    &&& s matches Some(st) ==> {
        &&& st.start == start
        &&& st.total == total
        &&& st.pull_reported == exists|j: int| 0 <= j < rs.len() && shows_pull(#[trigger] rs[j])
        &&& st.countdown_sound_started == exists|j: int|
            0 <= j < rs.len() && reports_sound(#[trigger] rs[j])
    }
}

proof fn lemma_run_facts(start: u64, total: u32, times: Seq<u64>)
    ensures
        run_facts(start, total, times),
    decreases times.len(),
{
    let slot = Some(CountdownState::fresh(start, total));
    if times.len() > 0 {
        let prev = times.drop_last();
        lemma_run_facts(start, total, prev);
        let (rs, s) = snapshot_run(slot, prev);
        let (r, s2) = snapshot_step(s, times.last());
        let rs2 = rs.push(r);
        assert(snapshot_run(slot, times) == (rs2, s2));
        let n = rs.len() as int;
        assert(rs2[n] == r);
        assert forall|j: int| 0 <= j < n implies #[trigger] rs2[j] == rs[j] by {}
        assert(times[n] == times.last());
        assert forall|i: int| 0 <= i < n implies #[trigger] times[i] == prev[i] by {}
        match s {
            None => {
                assert(r is None);
            },
            Some(st) => {
                if !expired_at(st, times.last()) {
                    // The flags recorded so far say whether "PULL!" was shown or the sound started.
                    if st.pull_reported {
                        let j = choose|j: int| 0 <= j < n && shows_pull(#[trigger] rs[j]);
                        assert(shows_pull(rs2[j]));
                    }
                    if st.countdown_sound_started {
                        let j = choose|j: int| 0 <= j < n && reports_sound(#[trigger] rs[j]);
                        assert(reports_sound(rs2[j]));
                    }
                    let s2v = s2->0;
                    assert(s2v.pull_reported == exists|j: int|
                        0 <= j < rs2.len() && shows_pull(#[trigger] rs2[j])) by {
                        if exists|j: int| 0 <= j < rs2.len() && shows_pull(#[trigger] rs2[j]) {
                            let j = choose|j: int| 0 <= j < rs2.len() && shows_pull(#[trigger] rs2[j]);
                            if j < n {
                                assert(shows_pull(rs[j]));
                            }
                        }
                    }
                    assert(s2v.countdown_sound_started == exists|j: int|
                        0 <= j < rs2.len() && reports_sound(#[trigger] rs2[j])) by {
                        if exists|j: int| 0 <= j < rs2.len() && reports_sound(#[trigger] rs2[j]) {
                            let j = choose|j: int| 0 <= j < rs2.len() && reports_sound(#[trigger] rs2[j]);
                            if j < n {
                                assert(reports_sound(rs[j]));
                            }
                        }
                    }
                }
            },
        }
        assert forall|i: int| 0 <= i < rs2.len() implies (reports_reached(#[trigger] rs2[i]) <==> (
        shows_pull(rs2[i]) && forall|j: int| 0 <= j < i ==> !shows_pull(#[trigger] rs2[j]))) by {
            lemma_no_pull_before(rs, r, i);
            if i < n {
                assert(rs2[i] == rs[i]);
            }
        }
        assert forall|i: int, j: int|
            0 <= i < rs2.len() && 0 <= j < rs2.len() && reports_sound(#[trigger] rs2[i])
                && reports_sound(#[trigger] rs2[j]) implies i == j by {
            if i < n && j < n {
                assert(reports_sound(rs[i]) && reports_sound(rs[j]));
            }
        }
        assert forall|i: int|
            0 <= i < rs2.len() && reports_sound(#[trigger] rs2[i]) implies in_sound_window_at(
            CountdownState::fresh(start, total),
            times[i],
        ) by {
            if i < n {
                assert(reports_sound(rs[i]));
            }
        }
        assert(rs2.len() == times.len());
        assert(s2 matches Some(st) ==> st.start == start && st.total == total);
        assert(s2 matches Some(st) ==> st.pull_reported == exists|j: int| 0 <= j < rs2.len() && shows_pull(#[trigger] rs2[j]));
        assert(s2 matches Some(st) ==> st.countdown_sound_started == exists|j: int| 0 <= j < rs2.len() && reports_sound(#[trigger] rs2[j]));
        assert(snapshot_run(slot, times).0 == rs2);
        assert(snapshot_run(slot, times).1 == s2);
        assert(run_facts(start, total, times));
    } else {
        let (rs, s) = snapshot_run(slot, times);
        assert(rs.len() == 0);
        assert(s == slot);
        assert(run_facts(start, total, times));
    }
}

/// Over a whole run of snapshots of one countdown (taken at any clock readings, with no start or
/// cancel in between), the moment of "PULL!" is reported exactly by the first snapshot that
/// shows "PULL!", and by no other.
pub proof fn lemma_pull_reported_once_per_countdown(start: u64, total: u32, times: Seq<u64>)
    ensures
        ({
            let (rs, s) = snapshot_run(Some(CountdownState::fresh(start, total)), times);
            forall|i: int|
                0 <= i < rs.len() ==> (reports_reached(#[trigger] rs[i]) <==> (shows_pull(rs[i])
                    && forall|j: int| 0 <= j < i ==> !shows_pull(#[trigger] rs[j])))
        }),
{
    lemma_run_facts(start, total, times);
}

/// Over a whole run of snapshots of one countdown, at most one snapshot starts the countdown
/// sound; the one that does is inside the last `COUNTDOWN_SOUND_SECS` seconds before zero, and
/// a countdown shorter than that never starts it.
pub proof fn lemma_sound_started_once_per_countdown(start: u64, total: u32, times: Seq<u64>)
    ensures
        ({
            let (rs, s) = snapshot_run(Some(CountdownState::fresh(start, total)), times);
            let st = CountdownState::fresh(start, total);
            &&& forall|i: int, j: int|
                0 <= i < rs.len() && 0 <= j < rs.len() && reports_sound(#[trigger] rs[i])
                    && reports_sound(#[trigger] rs[j]) ==> i == j
            &&& forall|i: int|
                0 <= i < rs.len() && reports_sound(#[trigger] rs[i]) ==> total >= COUNTDOWN_SOUND_SECS
                    && 0 < total_nanos(st) - elapsed_at(st, times[i]) <= COUNTDOWN_SOUND_SECS
                    * NANOS_PER_SEC
            &&& total < COUNTDOWN_SOUND_SECS ==> forall|i: int|
                0 <= i < rs.len() ==> !reports_sound(#[trigger] rs[i])
        }),
{
    lemma_run_facts(start, total, times);
}

} // verus!

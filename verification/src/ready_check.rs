//! Detecting a squad ready check that finished with everyone ready, from Unofficial Extras
//! squad updates.

use vstd::prelude::*;
use crate::extras_squad::{SquadUser, UserRole};
use crate::text::{chars_of, vec_eq};

verus! {

/// The current ready-check round: who has readied up, and whether it already triggered a pull.
pub struct ReadyCheckState {
    ready_accounts: Vec<String>,
    triggered: bool,
}

/// A ready-check round as plain values.
pub struct ReadyView {
    pub ready: Set<Seq<char>>,
    pub triggered: bool,
}

impl View for ReadyCheckState {
    type V = ReadyView;

    closed spec fn view(&self) -> ReadyView {
        ReadyView {
            ready: self.ready_accounts@.map_values(|s: String| s@).to_set(),
            triggered: self.triggered,
        }
    }
}

/// The round after one user entry: the leader's own ready status turning true starts a new
/// round (the leader still counts as ready), and every ready user is recorded.
pub open spec fn ready_user_step(v: ReadyView, user: SquadUser) -> ReadyView {
    let v1 = if user.role == UserRole::SquadLeader && user.ready_status {
        ReadyView { ready: Set::empty(), triggered: false }
    } else {
        v
    };
    match user.account_name {
        Some(name) => if user.ready_status {
            ReadyView { ready: v1.ready.insert(name@), ..v1 }
        } else {
            v1
        },
        None => v1,
    }
}

/// The round after a whole squad update, entry by entry.
pub open spec fn ready_users_step(v: ReadyView, users: Seq<SquadUser>) -> ReadyView
    decreases users.len(),
{
    if users.len() == 0 {
        v
    } else {
        ready_user_step(ready_users_step(v, users.drop_last()), users.last())
    }
}

/// The group size used to decide "everyone": RTAPI's member count if it reports one, else the
/// size of the Extras squad roster if non-empty.
pub open spec fn group_size(member_count: Option<u32>, roster_len: usize) -> Option<u32> {
    match member_count {
        Some(c) => Some(c),
        None => if roster_len > 0 {
            Some(roster_len as u32)
        } else {
            None
        },
    }
}

/// What a squad update does: whether it triggers the pull, and the round it leaves.
pub open spec fn ready_step(
    v: ReadyView,
    auto_pull: bool,
    users: Seq<SquadUser>,
    member_count: Option<u32>,
    roster_len: usize,
) -> (bool, ReadyView) {
    if !auto_pull {
        (false, v)
    } else {
        let w = ready_users_step(v, users);
        if w.triggered {
            (false, w)
        } else {
            match group_size(member_count, roster_len) {
                None => (false, w),
                Some(total) => if total > 0 && (w.ready.len() as u32) >= total {
                    (true, ReadyView { triggered: true, ..w })
                } else {
                    (false, w)
                },
            }
        }
    }
}

impl ReadyCheckState {
    /// No ready check seen yet.
    pub fn new() -> (r: ReadyCheckState)
        ensures
            r.wf(),
            r@.ready == Set::<Seq<char>>::empty(),
            !r@.triggered,
    {
        let r = ReadyCheckState { ready_accounts: Vec::new(), triggered: false };
        assert(r.ready_accounts@.map_values(|s: String| s@).to_set() =~= Set::<Seq<char>>::empty());
        r
    }

    /// No account is recorded twice.
    pub closed spec fn wf(self) -> bool {
        self.ready_accounts@.map_values(|s: String| s@).no_duplicates()
    }

    fn clear(&mut self)
        ensures
            final(self).wf(),
            final(self)@.ready == Set::<Seq<char>>::empty(),
            final(self)@.triggered == old(self)@.triggered,
    {
        self.ready_accounts = Vec::new();
        assert(self.ready_accounts@.map_values(|s: String| s@).to_set() =~= Set::<Seq<char>>::empty());
    }

    fn insert(&mut self, name: &String)
        requires
            old(self).wf(),
        ensures
            final(self).wf(),
            final(self)@.ready == old(self)@.ready.insert(name@),
            final(self)@.triggered == old(self)@.triggered,
    {
        let ghost names = self.ready_accounts@.map_values(|s: String| s@);
        let key = chars_of(name.as_str());
        let mut i: usize = 0;
        while i < self.ready_accounts.len()
            invariant
                i <= self.ready_accounts.len(),
                names == self.ready_accounts@.map_values(|s: String| s@),
                names.no_duplicates(),
                self.triggered == old(self).triggered,
                key@ == name@,
                forall|j: int| 0 <= j < i ==> names[j] != key@,
            decreases self.ready_accounts.len() - i,
        {
            let other = chars_of(self.ready_accounts[i].as_str());
            assert(names[i as int] == self.ready_accounts@[i as int]@);
            if vec_eq(&other, &key) {
                assert(names.to_set().insert(name@) =~= names.to_set());
                return;
            }
            i = i + 1;
        }
        self.ready_accounts.push(name.clone());
        let ghost new_names = self.ready_accounts@.map_values(|s: String| s@);
        assert(new_names =~= names.push(name@));
        assert forall|x: Seq<char>| #[trigger] new_names.contains(x) == (names.contains(x) || x
            == name@) by {
            if names.contains(x) {
                let j = choose|j: int| 0 <= j < names.len() && names[j] == x;
                assert(new_names[j] == x);
            }
            if x == name@ {
                assert(new_names[names.len() as int] == x);
            }
            if new_names.contains(x) {
                let j = choose|j: int| 0 <= j < new_names.len() && new_names[j] == x;
                if j < names.len() {
                    assert(names[j] == x);
                }
            }
        }
        assert(new_names.to_set() =~= names.to_set().insert(name@));
        assert forall|a: int, b: int|
            0 <= a < new_names.len() && 0 <= b < new_names.len() && a != b implies new_names[a]
            != new_names[b] by {
            if a < names.len() && b < names.len() {
                assert(names[a] != names[b]);
            }
        }
    }

    fn count(&self) -> (r: usize)
        requires
            self.wf(),
        ensures
            r == self@.ready.len(),
    {
        proof {
            self.ready_accounts@.map_values(|s: String| s@).unique_seq_to_set();
        }
        self.ready_accounts.len()
    }
}

/// Handles an Extras squad update for the auto-pull feature; returns whether the ready check
/// just succeeded with everyone ready, so the caller triggers a pull.
///
/// Does nothing unless `auto_pull` (the setting) is on. The leader's own ready status flipping
/// to true signals that a ready check was just started, which resets tracking for the new
/// round. "Everyone" is `member_count` (RTAPI's group member count) if known, else the size of
/// the Extras squad roster (`roster_len`) if non-empty; without either, nothing triggers. A
/// round triggers at most once.
pub fn on_squad_update(
    state: &mut ReadyCheckState,
    auto_pull: bool,
    update: &Vec<SquadUser>,
    member_count: Option<u32>,
    roster_len: usize,
) -> (r: bool)
    requires
        old(state).wf(),
    ensures
        final(state).wf(),
        (r, final(state)@) == ready_step(old(state)@, auto_pull, update@, member_count, roster_len),
{
    if !auto_pull {
        return false;
    }
    let mut i: usize = 0;
    while i < update.len()
        invariant
            state.wf(),
            i <= update.len(),
            state@ == ready_users_step(old(state)@, update@.take(i as int)),
        decreases update.len() - i,
    {
        let user = &update[i];
        assert(update@.take(i + 1).drop_last() =~= update@.take(i as int));
        if user.role == UserRole::SquadLeader && user.ready_status {
            // Per Unofficial Extras' docs, the leader's own ready_status flipping to true
            // signals that a ready check was just started - reset tracking for the new round.
            // The leader still counts as ready: falling through to the insert below.
            state.clear();
            state.triggered = false;
        }
        if user.ready_status {
            match &user.account_name {
                Some(name) => {
                    state.insert(name);
                },
                None => {},
            }
        }
        i = i + 1;
    }
    assert(update@.take(i as int) =~= update@);
    if state.triggered {
        return false;
    }
    let total_members = match member_count {
        Some(c) => c,
        None => {
            if roster_len > 0 {
                roster_len as u32
            } else {
                return false;
            }
        },
    };
    if total_members > 0 && state.count() as u32 >= total_members {
        state.triggered = true;
        return true;
    }
    false
}

/// A round triggers a pull at most once: after an update that triggered, later updates that
/// start no new round (no ready leader in them) never trigger again.
pub proof fn lemma_triggers_once_per_round(
    v: ReadyView,
    users1: Seq<SquadUser>,
    users2: Seq<SquadUser>,
    count1: Option<u32>,
    count2: Option<u32>,
    len1: usize,
    len2: usize,
)
    requires
        forall|j: int|
            0 <= j < users2.len() ==> !(#[trigger] users2[j].role == UserRole::SquadLeader
                && users2[j].ready_status),
    ensures
        ({
            let (t1, w1) = ready_step(v, true, users1, count1, len1);
            let (t2, w2) = ready_step(w1, true, users2, count2, len2);
            t1 ==> !t2
        }),
{
    let (t1, w1) = ready_step(v, true, users1, count1, len1);
    if t1 {
        lemma_no_new_round_keeps_triggered(w1, users2);
    }
}

/// Updates with no ready leader keep the round's triggered flag.
pub proof fn lemma_no_new_round_keeps_triggered(v: ReadyView, users: Seq<SquadUser>)
    requires
        forall|j: int|
            0 <= j < users.len() ==> !(#[trigger] users[j].role == UserRole::SquadLeader
                && users[j].ready_status),
    ensures
        ready_users_step(v, users).triggered == v.triggered,
    decreases users.len(),
{
    if users.len() > 0 {
        assert forall|j: int| 0 <= j < users.drop_last().len() implies !(
        #[trigger] users.drop_last()[j].role == UserRole::SquadLeader
            && users.drop_last()[j].ready_status) by {
            assert(users.drop_last()[j] == users[j]);
        }
        lemma_no_new_round_keeps_triggered(v, users.drop_last());
        assert(users.last() == users[users.len() - 1]);
    }
}

/// With the feature off, squad updates change nothing and never trigger.
pub proof fn lemma_disabled_does_nothing(
    v: ReadyView,
    users: Seq<SquadUser>,
    count: Option<u32>,
    len: usize,
)
    ensures
        ready_step(v, false, users, count, len) == (false, v),
{
}

/// Whether an update starts a new round: it has the leader's ready status turning true.
pub open spec fn starts_round(users: Seq<SquadUser>) -> bool {
    exists|p: int|
        0 <= p < users.len() && #[trigger] users[p].role == UserRole::SquadLeader
            && users[p].ready_status
}

/// The effect of whole updates applied in turn with the feature on: whether each triggered,
/// the round after each, and the round after the last.
pub open spec fn ready_run(
    v: ReadyView,
    updates: Seq<Seq<SquadUser>>,
    member_count: Option<u32>,
    roster_len: usize,
) -> (Seq<bool>, Seq<ReadyView>, ReadyView)
    decreases updates.len(),
{
    if updates.len() == 0 {
        (Seq::empty(), Seq::empty(), v)
    } else {
        let (ts, vs, w) = ready_run(v, updates.drop_last(), member_count, roster_len);
        let (t, w2) = ready_step(w, true, updates.last(), member_count, roster_len);
        (ts.push(t), vs.push(w2), w2)
    }
}

/// Whether at least `m` accounts are recorded ready.
pub open spec fn enough_ready(w: ReadyView, m: u32) -> bool {
    (w.ready.len() as u32) >= m
}

/// A round is reset by an update that starts one; otherwise its triggered flag is kept.
proof fn lemma_users_step_triggered(v: ReadyView, users: Seq<SquadUser>)
    ensures
        ready_users_step(v, users).triggered == (v.triggered && !starts_round(users)),
    decreases users.len(),
{
    if users.len() > 0 {
        let d = users.drop_last();
        lemma_users_step_triggered(v, d);
        if starts_round(d) {
            let p = choose|p: int|
                0 <= p < d.len() && #[trigger] d[p].role == UserRole::SquadLeader && d[p].ready_status;
            assert(users[p] == d[p]);
        }
        if starts_round(users) && !starts_round(d) {
            let p = choose|p: int|
                0 <= p < users.len() && #[trigger] users[p].role == UserRole::SquadLeader
                    && users[p].ready_status;
            if p < d.len() {
                assert(d[p] == users[p]);
            }
        }
        assert(users.last() == users[users.len() - 1]);
    }
}

proof fn lemma_round_prefix(
    v: ReadyView,
    updates: Seq<Seq<SquadUser>>,
    member_count: Option<u32>,
    roster_len: usize,
    m: u32,
)
    requires
        updates.len() >= 1,
        starts_round(updates[0]),
        forall|k: int| 1 <= k < updates.len() ==> !starts_round(#[trigger] updates[k]),
        group_size(member_count, roster_len) == Some(m),
        m > 0,
    ensures
        ({
            let (ts, vs, w) = ready_run(v, updates, member_count, roster_len);
            &&& ts.len() == updates.len() && vs.len() == updates.len()
            &&& w == vs.last()
            &&& forall|k: int|
                0 <= k < ts.len() ==> (#[trigger] ts[k] <==> (enough_ready(vs[k], m) && forall|j: int|
                    0 <= j < k ==> !enough_ready(#[trigger] vs[j], m)))
            &&& w.triggered == exists|j: int| 0 <= j < vs.len() && enough_ready(#[trigger] vs[j], m)
        }),
    decreases updates.len(),
{
    let d = updates.drop_last();
    let last = updates.last();
    assert(last == updates[updates.len() - 1]);
    if updates.len() == 1 {
        let (ts0, vs0, w0) = ready_run(v, d, member_count, roster_len);
        assert(d.len() == 0);
        assert(w0 == v);
        lemma_users_step_triggered(v, last);
        let (ts, vs, w) = ready_run(v, updates, member_count, roster_len);
        assert(vs[0] == w);
        assert forall|k: int| 0 <= k < ts.len() implies (#[trigger] ts[k] <==> (enough_ready(vs[k], m)
            && forall|j: int| 0 <= j < k ==> !enough_ready(#[trigger] vs[j], m))) by {}
        if w.triggered {
            assert(enough_ready(vs[0], m));
        }
    } else {
        assert forall|k: int| 1 <= k < d.len() implies !starts_round(#[trigger] d[k]) by {
            assert(d[k] == updates[k]);
        }
        assert(d[0] == updates[0]);
        lemma_round_prefix(v, d, member_count, roster_len, m);
        let (ts0, vs0, w0) = ready_run(v, d, member_count, roster_len);
        let n = ts0.len() as int;
        assert(!starts_round(updates[n]));
        lemma_users_step_triggered(w0, last);
        let (t, w2) = ready_step(w0, true, last, member_count, roster_len);
        let (ts, vs, w) = ready_run(v, updates, member_count, roster_len);
        assert(ts == ts0.push(t) && vs == vs0.push(w2) && w == w2);
        assert forall|j: int| 0 <= j < n implies #[trigger] vs[j] == vs0[j] && ts[j] == ts0[j] by {}
        if w0.triggered {
            let j0 = choose|j: int| 0 <= j < vs0.len() && enough_ready(#[trigger] vs0[j], m);
            assert(enough_ready(vs[j0], m));
        } else {
            assert forall|j: int| 0 <= j < n implies !enough_ready(#[trigger] vs[j], m) by {
                assert(vs[j] == vs0[j]);
            }
        }
        assert forall|k: int| 0 <= k < ts.len() implies (#[trigger] ts[k] <==> (enough_ready(vs[k], m)
            && forall|j: int| 0 <= j < k ==> !enough_ready(#[trigger] vs[j], m))) by {
            if k < n {
                assert(ts[k] == ts0[k] && vs[k] == vs0[k]);
                if forall|j: int| 0 <= j < k ==> !enough_ready(#[trigger] vs0[j], m) {
                    assert forall|j: int| 0 <= j < k implies !enough_ready(#[trigger] vs[j], m) by {
                        assert(vs[j] == vs0[j]);
                    }
                }
                if forall|j: int| 0 <= j < k ==> !enough_ready(#[trigger] vs[j], m) {
                    assert forall|j: int| 0 <= j < k implies !enough_ready(#[trigger] vs0[j], m) by {
                        assert(vs[j] == vs0[j]);
                    }
                }
            }
        }
        if w.triggered {
            if !w0.triggered {
                assert(enough_ready(vs[n], m));
            } else {
                let j0 = choose|j: int| 0 <= j < vs0.len() && enough_ready(#[trigger] vs0[j], m);
                assert(enough_ready(vs[j0], m));
            }
        } else {
            assert forall|j: int| 0 <= j < vs.len() implies !enough_ready(#[trigger] vs[j], m) by {
                if j < n {
                    assert(vs[j] == vs0[j]);
                }
            }
        }
    }
}

/// A ready-check round triggers the pull exactly once: once a round is started (an update with
/// the leader's ready status turning true) and while no update starts another, with the feature
/// on and the group size `m > 0` fixed, an update triggers exactly when it is the first after
/// which at least `m` accounts are recorded ready; no other update of the round triggers.
pub proof fn lemma_triggers_exactly_once_per_round(
    v: ReadyView,
    updates: Seq<Seq<SquadUser>>,
    member_count: Option<u32>,
    roster_len: usize,
    m: u32,
)
    requires
        updates.len() >= 1,
        starts_round(updates[0]),
        forall|k: int| 1 <= k < updates.len() ==> !starts_round(#[trigger] updates[k]),
        group_size(member_count, roster_len) == Some(m),
        m > 0,
    ensures
        ({
            let (ts, vs, w) = ready_run(v, updates, member_count, roster_len);
            forall|k: int|
                0 <= k < ts.len() ==> (#[trigger] ts[k] <==> (enough_ready(vs[k], m) && forall|j: int|
                    0 <= j < k ==> !enough_ready(#[trigger] vs[j], m)))
        }),
{
    lemma_round_prefix(v, updates, member_count, roster_len, m);
}

/// The accounts of `users` from index `p` on that are reported ready.
pub open spec fn ready_names_from(users: Seq<SquadUser>, p: int) -> Set<Seq<char>> {
    Set::new(
        |x: Seq<char>|
            exists|i: int|
                p <= i < users.len() && #[trigger] users[i].ready_status && (users[i].account_name matches Some(
                    nm,
                ) && nm@ == x),
    )
}

/// A new round always clears the previous round's tally, whether or not it triggered: after an
/// update whose last entry with the leader's ready status true is at `p`, the accounts recorded
/// ready are exactly those reported ready at or after `p`, and the round has not triggered
/// before this update's count is checked.
pub proof fn lemma_new_round_clears_tally(v: ReadyView, users: Seq<SquadUser>, p: int)
    requires
        0 <= p < users.len(),
        users[p].role == UserRole::SquadLeader && users[p].ready_status,
        forall|i: int|
            p < i < users.len() ==> !(#[trigger] users[i].role == UserRole::SquadLeader
                && users[i].ready_status),
    ensures
        ready_users_step(v, users).ready == ready_names_from(users, p),
        !ready_users_step(v, users).triggered,
    decreases users.len(),
{
    let d = users.drop_last();
    let last = users.last();
    let n = users.len() - 1;
    assert(last == users[n]);
    if p == n {
        let w = ready_users_step(v, d);
        assert(ready_users_step(v, users) == ready_user_step(w, last));
        assert forall|x: Seq<char>| #[trigger] ready_names_from(users, p).contains(x) == (
        last.account_name matches Some(nm) && nm@ == x) by {}
        assert(ready_users_step(v, users).ready =~= ready_names_from(users, p));
    } else {
        assert forall|i: int| p < i < d.len() implies !(#[trigger] d[i].role
            == UserRole::SquadLeader && d[i].ready_status) by {
            assert(d[i] == users[i]);
        }
        assert(d[p] == users[p]);
        lemma_new_round_clears_tally(v, d, p);
        let w = ready_users_step(v, d);
        assert(ready_users_step(v, users) == ready_user_step(w, last));
        assert forall|x: Seq<char>| #[trigger] ready_names_from(users, p).contains(x) == (
        ready_names_from(d, p).contains(x) || (last.ready_status && (last.account_name matches Some(
            nm,
        ) && nm@ == x))) by {
            if ready_names_from(d, p).contains(x) {
                let i = choose|i: int|
                    p <= i < d.len() && #[trigger] d[i].ready_status && (d[i].account_name matches Some(
                        nm,
                    ) && nm@ == x);
                assert(users[i] == d[i]);
            }
            if ready_names_from(users, p).contains(x) {
                let i = choose|i: int|
                    p <= i < users.len() && #[trigger] users[i].ready_status && (
                    users[i].account_name matches Some(nm) && nm@ == x);
                if i < n {
                    assert(d[i] == users[i]);
                }
            }
        }
        assert(ready_users_step(v, users).ready =~= ready_names_from(users, p));
    }
}

/// The same holds of a whole squad update with the feature on: the round's tally after it holds
/// only the accounts reported ready since the last leader entry that started a round.
pub proof fn lemma_update_new_round_tally(
    v: ReadyView,
    users: Seq<SquadUser>,
    p: int,
    member_count: Option<u32>,
    roster_len: usize,
)
    requires
        0 <= p < users.len(),
        users[p].role == UserRole::SquadLeader && users[p].ready_status,
        forall|i: int|
            p < i < users.len() ==> !(#[trigger] users[i].role == UserRole::SquadLeader
                && users[i].ready_status),
    ensures
        ({
            let (t, w) = ready_step(v, true, users, member_count, roster_len);
            &&& w.ready == ready_names_from(users, p)
            &&& t == (match group_size(member_count, roster_len) {
                Some(m) => m > 0 && (ready_names_from(users, p).len() as u32) >= m,
                None => false,
            })
        }),
{
    lemma_new_round_clears_tally(v, users, p);
}

} // verus!

//! The squad roster reported by Unofficial Extras: account name -> role in the current squad.
//!
//! Sourced from Unofficial Extras rather than RTAPI deliberately: Extras is already required
//! for the chat listener to work at all, and its account names come from the same helper as
//! the chat message's sender, so the two match without any normalisation guesswork.

use vstd::prelude::*;
use crate::text::{
    ascii_lower, chars_of, drop_leading, lemma_drop_leading, lowercase_chars, slice_chars,
    string_of, trim_bounds, trimmed, vec_eq,
};

verus! {

/// A squad member's role, as Unofficial Extras reports it.
#[derive(Debug, Clone, Copy, PartialEq, Eq, Structural)]
pub enum UserRole {
    SquadLeader,
    Lieutenant,
    Member,
    Invalid,
    /// Extras reports this for someone who left the squad.
    NoRole,
}

/// One user entry of an Extras squad update.
#[derive(Debug, Clone)]
pub struct SquadUser {
    pub account_name: Option<String>,
    pub role: UserRole,
    pub ready_status: bool,
}

/// One tracked roster entry (the account name is stored normalised).
#[derive(Debug)]
pub struct RosterEntry {
    pub account: String,
    pub role: UserRole,
}

/// Account name (normalised, without the leading ':') -> role in the current squad.
pub struct Roster {
    entries: Vec<RosterEntry>,
    roles: Ghost<Map<Seq<char>, UserRole>>,
}

/// Whether a character is the `:` that leads GW2 account names.
pub open spec fn is_colon(c: char) -> bool {
    c == ':'
}

/// The form account names are compared in: surrounding whitespace trimmed, leading `:`
/// removed, ASCII letters lower-cased.
pub open spec fn normalized(name: Seq<char>) -> Seq<char> {
    ascii_lower(drop_leading(trimmed(name), |c: char| is_colon(c)))
}

impl View for Roster {
    type V = Map<Seq<char>, UserRole>;

    closed spec fn view(&self) -> Map<Seq<char>, UserRole> {
        self.roles@
    }
}

impl Roster {
    /// The account names held, in stored order.
    spec fn keys(self) -> Seq<Seq<char>> {
        self.entries@.map_values(|e: RosterEntry| e.account@)
    }

    /// The entries hold each account once, and agree with the roster's view.
    pub closed spec fn wf(self) -> bool {
        &&& self.keys().no_duplicates()
        &&& forall|i: int|
            0 <= i < self.entries@.len() ==> #[trigger] self.roles@.dom().contains(
                self.entries@[i].account@,
            ) && self.roles@[self.entries@[i].account@] == self.entries@[i].role
        &&& forall|k: Seq<char>| #[trigger] self.roles@.dom().contains(k) ==> self.keys().contains(k)
    }

    /// An empty roster.
    pub fn new() -> (r: Roster)
        ensures
            r.wf(),
            r@ == Map::<Seq<char>, UserRole>::empty(),
    {
        let r = Roster { entries: Vec::new(), roles: Ghost(Map::empty()) };
        assert(r.keys() =~= Seq::<Seq<char>>::empty());
        r
    }

    /// Index of the entry for `key`, if any.
    fn find(&self, key: &Vec<char>) -> (r: Option<usize>)
        requires
            self.wf(),
        ensures
            match r {
                Some(i) => i < self.entries@.len() && self.entries@[i as int].account@ == key@,
                None => !self@.dom().contains(key@),
            },
    {
        let mut i: usize = 0;
        while i < self.entries.len()
            invariant
                self.wf(),
                i <= self.entries@.len(),
                forall|j: int| 0 <= j < i ==> self.entries@[j].account@ != key@,
            decreases self.entries.len() - i,
        {
            let account = chars_of(self.entries[i].account.as_str());
            if vec_eq(&account, key) {
                return Some(i);
            }
            i = i + 1;
        }
        proof {
            if self@.dom().contains(key@) {
                assert(self.keys().contains(key@));
                let j = choose|j: int| 0 <= j < self.keys().len() && self.keys()[j] == key@;
                assert(self.entries@[j].account@ == key@);
            }
        }
        None
    }

    /// The role recorded for `key`, if any.
    fn get(&self, key: &Vec<char>) -> (r: Option<UserRole>)
        requires
            self.wf(),
        ensures
            r == (if self@.dom().contains(key@) { Some(self@[key@]) } else { None }),
    {
        match self.find(key) {
            Some(i) => Some(self.entries[i].role),
            None => None,
        }
    }

    /// Records `role` for `key`, replacing any role it had.
    fn insert(&mut self, key: Vec<char>, role: UserRole)
        requires
            old(self).wf(),
        ensures
            final(self).wf(),
            final(self)@ == old(self)@.insert(key@, role),
    {
        let ghost old_keys = self.keys();
        let ghost new_roles = self.roles@.insert(key@, role);
        match self.find(&key) {
            Some(i) => {
                let account = string_of(&key);
                self.entries.set(i, RosterEntry { account, role });
                self.roles = Ghost(new_roles);
                assert(self.keys() =~= old_keys.update(i as int, key@));
                proof {
                    assert forall|a: int, b: int|
                        0 <= a < self.keys().len() && 0 <= b < self.keys().len() && a != b
                        implies self.keys()[a] != self.keys()[b] by {
                        if a != i && b != i {
                            assert(old_keys[a] != old_keys[b]);
                        } else if a == i {
                            assert(old_keys[b] != old_keys[i as int]);
                        } else {
                            assert(old_keys[a] != old_keys[i as int]);
                        }
                    }
                    assert forall|j: int| 0 <= j < self.entries@.len() implies #[trigger]
                        self.roles@.dom().contains(self.entries@[j].account@)
                        && self.roles@[self.entries@[j].account@] == self.entries@[j].role by {
                        assert(self.keys()[j] == self.entries@[j].account@);
                        if j != i {
                            assert(old_keys[j] != old_keys[i as int]);
                            assert(self.entries@[j] == old(self).entries@[j]);
                            assert(old_keys[j] == old(self).entries@[j].account@);
                            assert(old(self).roles@.dom().contains(old(self).entries@[j].account@));
                        }
                    }
                    assert forall|k: Seq<char>| #[trigger] self.roles@.dom().contains(k)
                        implies self.keys().contains(k) by {
                        if k == key@ {
                            assert(self.keys()[i as int] == k);
                        } else {
                            assert(old_keys.contains(k));
                            let j = choose|j: int| 0 <= j < old_keys.len() && old_keys[j] == k;
                            assert(self.keys()[j] == k);
                        }
                    }
                }
            },
            None => {
                let account = string_of(&key);
                self.entries.push(RosterEntry { account, role });
                self.roles = Ghost(new_roles);
                assert(self.keys() =~= old_keys.push(key@));
                proof {
                    assert(!old_keys.contains(key@));
                    assert forall|a: int, b: int|
                        0 <= a < self.keys().len() && 0 <= b < self.keys().len() && a != b
                        implies self.keys()[a] != self.keys()[b] by {
                        if a < old_keys.len() && b < old_keys.len() {
                            assert(old_keys[a] != old_keys[b]);
                        } else if a < old_keys.len() {
                            assert(old_keys[a] == old_keys[a]);
                        } else {
                            assert(old_keys[b] == old_keys[b]);
                        }
                    }
                    assert forall|j: int| 0 <= j < self.entries@.len() implies #[trigger]
                        self.roles@.dom().contains(self.entries@[j].account@)
                        && self.roles@[self.entries@[j].account@] == self.entries@[j].role by {
                        assert(self.keys()[j] == self.entries@[j].account@);
                        if j < old_keys.len() {
                            assert(old_keys[j] != key@);
                            assert(self.entries@[j] == old(self).entries@[j]);
                            assert(old_keys[j] == old(self).entries@[j].account@);
                            assert(old(self).roles@.dom().contains(old(self).entries@[j].account@));
                        }
                    }
                    assert forall|k: Seq<char>| #[trigger] self.roles@.dom().contains(k)
                        implies self.keys().contains(k) by {
                        if k == key@ {
                            assert(self.keys()[old_keys.len() as int] == k);
                        } else {
                            assert(old_keys.contains(k));
                            let j = choose|j: int| 0 <= j < old_keys.len() && old_keys[j] == k;
                            assert(self.keys()[j] == k);
                        }
                    }
                }
            },
        }
    }

    /// Forgets `key`.
    fn remove(&mut self, key: &Vec<char>)
        requires
            old(self).wf(),
        ensures
            final(self).wf(),
            final(self)@ == old(self)@.remove(key@),
    {
        let ghost old_keys = self.keys();
        let ghost new_roles = self.roles@.remove(key@);
        match self.find(key) {
            Some(i) => {
                self.entries.remove(i);
                self.roles = Ghost(new_roles);
                assert(self.keys() =~= old_keys.remove(i as int));
                proof {
                    assert forall|a: int, b: int|
                        0 <= a < self.keys().len() && 0 <= b < self.keys().len() && a != b
                        implies self.keys()[a] != self.keys()[b] by {
                        let oa = if a < i { a } else { a + 1 };
                        let ob = if b < i { b } else { b + 1 };
                        assert(old_keys[oa] != old_keys[ob]);
                    }
                    assert forall|j: int| 0 <= j < self.entries@.len() implies #[trigger]
                        self.roles@.dom().contains(self.entries@[j].account@)
                        && self.roles@[self.entries@[j].account@] == self.entries@[j].role by {
                        let oj = if j < i { j } else { j + 1 };
                        assert(old_keys[oj] != old_keys[i as int]);
                        assert(self.entries@[j] == old(self).entries@[oj]);
                        assert(old_keys[oj] == old(self).entries@[oj].account@);
                        assert(old_keys[i as int] == old(self).entries@[i as int].account@);
                        assert(old(self).roles@.dom().contains(old(self).entries@[oj].account@));
                    }
                    assert forall|k: Seq<char>| #[trigger] self.roles@.dom().contains(k)
                        implies self.keys().contains(k) by {
                        assert(old_keys.contains(k));
                        let j = choose|j: int| 0 <= j < old_keys.len() && old_keys[j] == k;
                        assert(j != i);
                        let nj = if j < i { j } else { j - 1 };
                        assert(self.keys()[nj] == k);
                    }
                }
            },
            None => {
                assert(self.roles@ =~= new_roles);
            },
        }
    }

    /// Number of accounts held.
    fn len(&self) -> (r: usize)
        requires
            self.wf(),
        ensures
            r == self@.len(),
    {
        proof {
            assert(self.roles@.dom() =~= self.keys().to_set());
            self.keys().unique_seq_to_set();
        }
        self.entries.len()
    }
}

/// Account names come from the same Extras helper on both sides, so this is belt-and-braces:
/// it just guards against stray whitespace or case differences silently breaking the match.
pub fn normalize(account_name: &str) -> (r: String)
    ensures
        r@ == normalized(account_name@),
{
    let v = chars_of(account_name);
    let (a, b) = trim_bounds(&v);
    let mut c: usize = a;
    while c < b && v[c] == ':'
        invariant
            a <= c <= b <= v@.len(),
            forall|i: int| a <= i < c ==> is_colon(#[trigger] v@[i]),
        decreases b - c,
    {
        c = c + 1;
    }
    let out = lowercase_chars(&slice_chars(&v, c, b));
    proof {
        let colon = |ch: char| is_colon(ch);
        let s2 = v@.subrange(a as int, b as int);
        assert forall|i: int| 0 <= i < c - a implies colon(#[trigger] s2[i]) by {
            assert(s2[i] == v@[i + a]);
        }
        if c < b {
            assert(s2[c - a] == v@[c as int]);
        }
        lemma_drop_leading(s2, colon, c - a);
        assert(s2.skip(c - a) =~= v@.subrange(c as int, b as int));
    }
    string_of(&out)
}

/// The roster after one user entry of a squad update.
pub open spec fn apply_user(roster: Map<Seq<char>, UserRole>, user: SquadUser) -> Map<
    Seq<char>,
    UserRole,
> {
    match user.account_name {
        None => roster,
        Some(name) => match user.role {
            UserRole::NoRole | UserRole::Invalid => roster.remove(normalized(name@)),
            role => roster.insert(normalized(name@), role),
        },
    }
}

/// The roster after a whole squad update, applied entry by entry in order.
pub open spec fn apply_update(roster: Map<Seq<char>, UserRole>, users: Seq<SquadUser>) -> Map<
    Seq<char>,
    UserRole,
>
    decreases users.len(),
{
    if users.len() == 0 {
        roster
    } else {
        apply_user(apply_update(roster, users.drop_last()), users.last())
    }
}

/// Applies an Extras squad update: users reported with no role (left the squad) or an invalid
/// one are dropped, everyone else is recorded with their role.
pub fn on_squad_update(roster: &mut Roster, update: &Vec<SquadUser>)
    requires
        old(roster).wf(),
    ensures
        final(roster).wf(),
        final(roster)@ == apply_update(old(roster)@, update@),
{
    let mut i: usize = 0;
    while i < update.len()
        invariant
            roster.wf(),
            i <= update.len(),
            roster@ == apply_update(old(roster)@, update@.take(i as int)),
        decreases update.len() - i,
    {
        let user = &update[i];
        assert(update@.take(i + 1).drop_last() =~= update@.take(i as int));
        match &user.account_name {
            None => {},
            Some(name) => {
                let key = chars_of(normalize(name.as_str()).as_str());
                match user.role {
                    UserRole::NoRole | UserRole::Invalid => {
                        roster.remove(&key);
                    },
                    role => {
                        roster.insert(key, role);
                    },
                }
            },
        }
        i = i + 1;
    }
    assert(update@.take(i as int) =~= update@);
}

/// Whether `role` may start or cancel a pull for everyone else.
pub open spec fn role_may_control(role: UserRole) -> bool {
    role == UserRole::SquadLeader || role == UserRole::Lieutenant
}

/// Whether the given account is allowed to start or cancel a pull for everyone else.
///
/// Only squad leaders and lieutenants qualify. Someone we have no role for is rejected: in a
/// squad Extras always pushes the roster, so an unknown sender means either a tracking gap or
/// someone who isn't really in the squad, and neither should be able to drive the countdown.
pub fn may_control_pull(roster: &Roster, account_name: &str) -> (r: bool)
    requires
        roster.wf(),
    ensures
        r == (roster@.dom().contains(normalized(account_name@)) && role_may_control(
            roster@[normalized(account_name@)],
        )),
{
    let key = chars_of(normalize(account_name).as_str());
    match roster.get(&key) {
        Some(UserRole::SquadLeader) | Some(UserRole::Lieutenant) => true,
        Some(_) => false,
        None => false,
    }
}

/// Number of squad members currently tracked.
///
/// Extras only ever populates this roster for real squads - the in-game squad panel it reads
/// doesn't exist for a plain party - so a non-zero count is also usable as a "we're in a squad,
/// not just a party" signal.
pub fn roster_len(roster: &Roster) -> (r: usize)
    requires
        roster.wf(),
    ensures
        r == roster@.len(),
{
    roster.len()
}

} // verus!

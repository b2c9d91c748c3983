//! The group roster accumulated from RealTime API membership events (there is no synchronous
//! "give me all current members" call, so it is built from join/update/leave events).

use vstd::prelude::*;
use crate::squad::SquadMember;
use crate::text::{chars_of, vec_eq};

verus! {

/// Index of the first member whose account name is `name`, if any.
pub open spec fn first_member_index(squad: Seq<SquadMember>, name: Seq<char>) -> Option<int> {
    if exists|i: int| 0 <= i < squad.len() && #[trigger] squad[i].account_name@ == name {
        Some(
            choose|i: int|
                0 <= i < squad.len() && #[trigger] squad[i].account_name@ == name && forall|
                    j: int,
                | 0 <= j < i ==> #[trigger] squad[j].account_name@ != name,
        )
    } else {
        None
    }
}

/// Whether `m` does not carry the account name `name`.
pub open spec fn other_account(m: SquadMember, name: Seq<char>) -> bool {
    m.account_name@ != name
}

/// Records a joined or updated member: replaces the first member with the same account name,
/// or appends the member if there is none.
pub fn update_squad_member(squad: &mut Vec<SquadMember>, member: SquadMember)
    ensures
        final(squad)@ == match first_member_index(old(squad)@, member.account_name@) {
            Some(i) => old(squad)@.update(i, member),
            None => old(squad)@.push(member),
        },
{
    let ghost name = member.account_name@;
    let mut i: usize = 0;
    while i < squad.len()
        invariant
            squad@ == old(squad)@,
            name == member.account_name@,
            i <= squad.len(),
            forall|j: int| 0 <= j < i ==> #[trigger] squad@[j].account_name@ != name,
        decreases squad.len() - i,
    {
        if squad[i].account_name == member.account_name {
            let ghost idx = i as int;
            proof {
                let s = old(squad)@;
                assert(s[idx].account_name@ == name);
                let c = first_member_index(s, name)->0;
                assert(0 <= c < s.len() && s[c].account_name@ == name && forall|j: int|
                    0 <= j < c ==> #[trigger] s[j].account_name@ != name);
                if c < idx {
                    assert(s[c].account_name@ != name);
                } else if c > idx {
                    assert(s[idx].account_name@ != name);
                }
            }
            squad.set(i, member);
            return;
        }
        i = i + 1;
    }
    squad.push(member);
}

/// Records a member leaving: drops every member with that account name.
pub fn remove_squad_member(squad: &mut Vec<SquadMember>, account_name: &str)
    ensures
        final(squad)@ == old(squad)@.filter(|m: SquadMember| other_account(m, account_name@)),
{
    let ghost pred = |m: SquadMember| other_account(m, account_name@);
    let mut old_members: Vec<SquadMember> = Vec::new();
    std::mem::swap(&mut old_members, squad);
    let ghost all = old_members@;
    let name = chars_of(account_name);
    let mut kept: Vec<SquadMember> = Vec::new();
    for m in it: old_members
        invariant
            it.seq() == all,
            pred == (|m: SquadMember| other_account(m, account_name@)),
            name@ == account_name@,
            kept@ == all.take(it.index() as int).filter(pred),
    {
        let ghost k = it.index() as int;
        assert(all.take(k + 1).drop_last() =~= all.take(k));
        proof {
            reveal(Seq::filter);
        }
        let member_name = chars_of(m.account_name.as_str());
        assert(m == all[k]);
        assert(all.take(k + 1).last() == all[k]);
        assert(all.take(k + 1).filter(pred) == if pred(all[k]) {
            all.take(k).filter(pred).push(all[k])
        } else {
            all.take(k).filter(pred)
        });
        let ghost before = kept@;
        assert(pred(all[k]) == (all[k].account_name@ != account_name@));
        if !vec_eq(&member_name, &name) {
            kept.push(m);
            assert(kept@ == before.push(all[k]));
        }
        assert(kept@ == all.take(k + 1).filter(pred));
    }
    assert(all.take(all.len() as int) =~= all);
    *squad = kept;
}

} // verus!

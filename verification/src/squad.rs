//! Who is in the group, which chat channel reaches it, and whether the local player may
//! trigger a pull.

use vstd::prelude::*;

verus! {

/// The chat channel a pull message goes to.
#[derive(Debug, Clone, Copy, PartialEq, Eq, Structural)]
pub enum ChatChannel {
    Party,
    Squad,
}

/// One group member, as the RealTime API reports it (the parts the addon reads).
#[derive(Debug, Clone)]
pub struct SquadMember {
    pub account_name: String,
    pub is_self: bool,
    pub is_commander: bool,
    pub is_lieutenant: bool,
}

/// The kind of group the RealTime API reports the player to be in.
#[derive(Debug, Clone, Copy, PartialEq, Eq, Structural)]
pub enum GroupKind {
    Party,
    Squad,
    RaidSquad,
    /// Anything the API reports that is not one of the above.
    Other,
}

/// The chat command that addresses a channel.
pub open spec fn command_word_spec(channel: ChatChannel) -> Seq<char> {
    match channel {
        ChatChannel::Party => seq!['p', 'a', 'r', 't', 'y'],
        ChatChannel::Squad => seq!['s', 'q', 'u', 'a', 'd'],
    }
}

impl ChatChannel {
    /// The chat command word for this channel (`party` or `squad`).
    pub fn command_word(self) -> (r: &'static str)
        ensures
            r@ == command_word_spec(self),
    {
        match self {
            ChatChannel::Party => {
                let r = "party";
                proof {
                    reveal_strlit("party");
                }
                r
            },
            ChatChannel::Squad => {
                let r = "squad";
                proof {
                    reveal_strlit("squad");
                }
                r
            },
        }
    }
}

/// Whether the roster shows the local player as commander.
pub open spec fn roster_has_self_commander(squad: Seq<SquadMember>) -> bool {
    exists|i: int| 0 <= i < squad.len() && #[trigger] squad[i].is_self && squad[i].is_commander
}

/// Whether the roster shows the local player as lieutenant.
pub open spec fn roster_has_self_lieutenant(squad: Seq<SquadMember>) -> bool {
    exists|i: int| 0 <= i < squad.len() && #[trigger] squad[i].is_self && squad[i].is_lieutenant
}

/// Whether the local player is the commander of the current squad, based on the roster
/// accumulated from RTAPI group events.
pub fn am_i_commander(squad: &Vec<SquadMember>) -> (r: bool)
    ensures
        r == roster_has_self_commander(squad@),
{
    let mut i: usize = 0;
    while i < squad.len()
        invariant
            i <= squad.len(),
            forall|j: int| 0 <= j < i ==> !(#[trigger] squad@[j].is_self && squad@[j].is_commander),
        decreases squad.len() - i,
    {
        if squad[i].is_self && squad[i].is_commander {
            return true;
        }
        i = i + 1;
    }
    false
}

/// Whether the local player is a squad lieutenant, based on the same RTAPI-accumulated roster.
pub fn am_i_lieutenant(squad: &Vec<SquadMember>) -> (r: bool)
    ensures
        r == roster_has_self_lieutenant(squad@),
{
    let mut i: usize = 0;
    while i < squad.len()
        invariant
            i <= squad.len(),
            forall|j: int|
                0 <= j < i ==> !(#[trigger] squad@[j].is_self && squad@[j].is_lieutenant),
        decreases squad.len() - i,
    {
        if squad[i].is_self && squad[i].is_lieutenant {
            return true;
        }
        i = i + 1;
    }
    false
}

/// The rule for triggering a pull locally.
pub open spec fn allowed_to_pull(
    rtapi_available: bool,
    channel: ChatChannel,
    squad: Seq<SquadMember>,
) -> bool {
    !rtapi_available || channel == ChatChannel::Party || roster_has_self_commander(squad)
        || roster_has_self_lieutenant(squad)
}

/// Whether the local player is allowed to trigger a pull: fails open if RTAPI can't confirm
/// group state at all. Otherwise mirrors the rule applied to received messages - a party has no
/// leader to check against, so anyone in it may; a squad requires being the commander or a
/// lieutenant.
pub fn am_i_allowed_to_pull(
    rtapi_available: bool,
    channel: ChatChannel,
    squad: &Vec<SquadMember>,
) -> (r: bool)
    ensures
        r == allowed_to_pull(rtapi_available, channel, squad@),
{
    if !rtapi_available {
        return true;
    }
    match channel {
        ChatChannel::Party => true,
        ChatChannel::Squad => am_i_commander(squad) || am_i_lieutenant(squad),
    }
}

/// The channel chosen from what RTAPI reports and the size of the Extras squad roster.
pub open spec fn channel_for(group: Option<GroupKind>, extras_roster_len: usize) -> ChatChannel {
    match group {
        Some(GroupKind::Party) => ChatChannel::Party,
        Some(GroupKind::Squad) | Some(GroupKind::RaidSquad) => ChatChannel::Squad,
        _ => if extras_roster_len > 0 {
            ChatChannel::Squad
        } else {
            ChatChannel::Party
        },
    }
}

/// The chat channel to use for the pull message.
///
/// RTAPI (`group`, `None` when it is not installed or reports no group) can tell for certain
/// whether it's a party or a squad. Without it, fall back to Unofficial Extras' squad roster:
/// it's only ever populated for real squads, so a non-empty roster means squad, empty means
/// party. (GW2 silently drops a `/squad` command typed while not in a squad, so guessing
/// "squad" unconditionally would be wrong for a plain party.)
pub fn current_channel(group: Option<GroupKind>, extras_roster_len: usize) -> (r: ChatChannel)
    ensures
        r == channel_for(group, extras_roster_len),
{
    match group {
        Some(GroupKind::Party) => ChatChannel::Party,
        Some(GroupKind::Squad) | Some(GroupKind::RaidSquad) => ChatChannel::Squad,
        _ => if extras_roster_len > 0 {
            ChatChannel::Squad
        } else {
            ChatChannel::Party
        },
    }
}

} // verus!

//! Mirroring a countdown announced in squad/party chat: only lines this addon generated, from
//! a sender allowed to drive the countdown, start or cancel it.

use vstd::prelude::*;
use crate::chat_send::{chat_marker, chat_marker_chars, placeholder, rendered, tagged};
use crate::countdown::{self, CountdownState};
use crate::extras_squad::{self, normalized, role_may_control, Roster};
use crate::text::{
    ascii_lower, chars_of, contains_seq, digit_value, digits_value, find_first,
    find_from, is_ascii_digit, occurs_at, decimal, lemma_decimal, replace_all, is_digit, lemma_find_from, lowercase_chars,
};

verus! {

/// The chat channel a received message was posted in.
#[derive(Debug, Clone, Copy, PartialEq, Eq, Structural)]
pub enum MessageChannel {
    Party,
    Squad,
    /// Any other channel (map, guild, whisper, ...).
    Other,
}

/// A squad or party chat message, as Unofficial Extras reports it.
#[derive(Debug, Clone)]
pub struct SquadMessage {
    pub channel_type: MessageChannel,
    pub account_name: String,
    pub text: String,
}

/// What receiving a chat message did to the local countdown.
#[derive(Debug, Clone, Copy, PartialEq, Eq, Structural)]
pub enum ListenOutcome {
    /// Nothing changed.
    Ignored,
    /// The running countdown was cancelled (the caller also stops the countdown sound).
    Cancelled,
    /// A countdown from this many seconds was started.
    Started(u32),
}

/// The digits at the very start of `s`.
pub open spec fn leading_digits(s: Seq<char>) -> Seq<char>
    decreases s.len(),
{
    if s.len() > 0 && is_digit(s[0]) {
        seq![s[0]] + leading_digits(s.skip(1))
    } else {
        Seq::empty()
    }
}

/// The first run of ASCII digits in `s` (empty if it has none).
pub open spec fn first_digit_run(s: Seq<char>) -> Seq<char>
    decreases s.len(),
{
    if s.len() == 0 {
        Seq::empty()
    } else if is_digit(s[0]) {
        leading_digits(s)
    } else {
        first_digit_run(s.skip(1))
    }
}

/// The starting number a message body announces: its first run of digits read in base ten,
/// if there is one and it fits a `u32`.
pub open spec fn count_in(body: Seq<char>) -> Option<u32> {
    let run = first_digit_run(body);
    if run.len() > 0 && digits_value(run) <= u32::MAX {
        Some(digits_value(run) as u32)
    } else {
        None
    }
}

/// The word whose presence marks a cancellation.
pub open spec fn cancel_word() -> Seq<char> {
    seq!['c', 'a', 'n', 'c', 'e', 'l']
}

/// Whether a message body announces a cancellation: it contains "cancel", ignoring ASCII case.
pub open spec fn is_cancel_spec(body: Seq<char>) -> bool {
    contains_seq(ascii_lower(body), cancel_word())
}

/// What follows the first `CHAT_MARKER` in a message's text, if it carries one.
pub open spec fn marked_body(text: Seq<char>) -> Option<Seq<char>> {
    match find_from(text, chat_marker(), 0) {
        Some(i) => Some(text.skip(i + chat_marker().len())),
        None => None,
    }
}

proof fn lemma_leading_digits(s: Seq<char>, j: int)
    requires
        0 <= j <= s.len(),
        forall|k: int| 0 <= k < j ==> is_digit(#[trigger] s[k]),
        j < s.len() ==> !is_digit(s[j]),
    ensures
        leading_digits(s) == s.take(j),
    decreases j,
{
    if j > 0 {
        assert forall|k: int| 0 <= k < j - 1 implies is_digit(#[trigger] s.skip(1)[k]) by {
            assert(s.skip(1)[k] == s[k + 1]);
        }
        lemma_leading_digits(s.skip(1), j - 1);
        assert(seq![s[0]] + s.skip(1).take(j - 1) =~= s.take(j));
    } else {
        assert(s.take(0) =~= Seq::<char>::empty());
    }
}

proof fn lemma_first_digit_run(s: Seq<char>, i: int)
    requires
        0 <= i <= s.len(),
        forall|k: int| 0 <= k < i ==> !is_digit(#[trigger] s[k]),
    ensures
        first_digit_run(s) == first_digit_run(s.skip(i)),
    decreases i,
{
    if i > 0 {
        assert forall|k: int| 0 <= k < i - 1 implies !is_digit(#[trigger] s.skip(1)[k]) by {
            assert(s.skip(1)[k] == s[k + 1]);
        }
        lemma_first_digit_run(s.skip(1), i - 1);
        assert(s.skip(1).skip(i - 1) =~= s.skip(i));
    } else {
        assert(s.skip(0) =~= s);
    }
}

/// Pulls the countdown's starting number out of an addon-generated message.
///
/// The wording around it is user-configurable, so this only looks for the first run of digits -
/// which is what `{n}` expands to. Messages with no number (the final "Pull!" line, or a
/// cancellation) yield `None`, as does a number too large for a `u32`.
pub fn parse_count(body: &str) -> (r: Option<u32>)
    ensures
        r == count_in(body@),
{
    let v = chars_of(body);
    let n = v.len();
    let mut i: usize = 0;
    while i < n && !is_ascii_digit(v[i])
        invariant
            n == v@.len(),
            i <= n,
            forall|k: int| 0 <= k < i ==> !is_digit(#[trigger] v@[k]),
        decreases n - i,
    {
        i = i + 1;
    }
    let mut j: usize = i;
    let mut value: u64 = 0;
    let mut overflow = false;
    while j < n && is_ascii_digit(v[j])
        invariant
            n == v@.len(),
            i <= j <= n,
            forall|k: int| i <= k < j ==> is_digit(#[trigger] v@[k]),
            overflow == (digits_value(v@.subrange(i as int, j as int)) > u32::MAX),
            !overflow ==> value == digits_value(v@.subrange(i as int, j as int)),
        decreases n - j,
    {
        let ghost prev = v@.subrange(i as int, j as int);
        assert(v@.subrange(i as int, j + 1).drop_last() =~= prev);
        assert(v@.subrange(i as int, j + 1).last() == v@[j as int]);
        let d: u64 = (v[j] as u32 - '0' as u32) as u64;
        assert(d == digit_value(v@[j as int]));
        if !overflow {
            let next = value * 10 + d;
            if next > u32::MAX as u64 {
                overflow = true;
            } else {
                value = next;
            }
        }
        j = j + 1;
    }
    proof {
        let s = v@;
        lemma_first_digit_run(s, i as int);
        let t = s.skip(i as int);
        if i < n {
            assert forall|k: int| 0 <= k < j - i implies is_digit(#[trigger] t[k]) by {
                assert(t[k] == s[k + i]);
            }
            if j < n {
                assert(t[j - i] == s[j as int]);
            }
            lemma_leading_digits(t, j - i);
            assert(t.take(j - i) =~= s.subrange(i as int, j as int));
            assert(t[0] == s[i as int]);
        } else {
            assert(t.len() == 0);
        }
    }
    if j == i || overflow {
        None
    } else {
        Some(value as u32)
    }
}

/// Whether an addon-generated message is a cancellation. Only reached for messages already
/// carrying the marker and from an authorised sender, so matching on the word is safe here.
pub fn is_cancel(body: &str) -> (r: bool)
    ensures
        r == is_cancel_spec(body@),
{
    let lowered = lowercase_chars(&chars_of(body));
    let word: Vec<char> = vec!['c', 'a', 'n', 'c', 'e', 'l'];
    assert(word@ =~= cancel_word());
    let found = find_first(&lowered, &word);
    proof {
        lemma_find_from(lowered@, word@, 0);
    }
    found.is_some()
}

/// What follows the first `CHAT_MARKER` in `text`, if it carries one.
pub fn marked_body_of(text: &str) -> (r: Option<Vec<char>>)
    ensures
        match r {
            Some(b) => marked_body(text@) == Some(b@),
            None => marked_body(text@) is None,
        },
{
    let v = chars_of(text);
    let vlen = v.len();
    let marker = chat_marker_chars();
    match find_first(&v, &marker) {
        Some(i) => {
            proof {
                lemma_find_from(v@, marker@, 0);
                assert(occurs_at(v@, marker@, i as int));
            }
            let mut body: Vec<char> = Vec::new();
            let start = i + marker.len();
            let mut k: usize = start;
            while k < v.len()
                invariant
                    start <= k <= v@.len(),
                    body@ == v@.subrange(start as int, k as int),
                decreases v.len() - k,
            {
                body.push(v[k]);
                k = k + 1;
                assert(body@ =~= v@.subrange(start as int, k as int));
            }
            assert(body@ =~= v@.skip(start as int));
            Some(body)
        },
        None => None,
    }
}

/// Whether the sender may drive everyone else's countdown: anyone in a plain party, a squad
/// leader or lieutenant in a squad.
pub open spec fn sender_allowed(msg: SquadMessage, roster: Map<Seq<char>, extras_squad::UserRole>) -> bool {
    match msg.channel_type {
        MessageChannel::Party => true,
        _ => roster.dom().contains(normalized(msg.account_name@)) && role_may_control(
            roster[normalized(msg.account_name@)],
        ),
    }
}

/// Whether the sender is allowed to drive everyone else's countdown.
///
/// In a squad that means a commander or lieutenant - otherwise any member could start or cancel
/// pulls for the whole squad. In a plain party there is no leader to check against (and Extras
/// reports no squad roster), so anyone in the party may. Extras reports messages sent to party
/// chat *while in a squad* as squad messages, so this genuinely distinguishes the two.
pub fn sender_may_control(msg: &SquadMessage, roster: &Roster) -> (r: bool)
    requires
        roster.wf(),
    ensures
        r == sender_allowed(*msg, roster@),
{
    match msg.channel_type {
        MessageChannel::Party => true,
        _ => extras_squad::may_control_pull(roster, msg.account_name.as_str()),
    }
}

/// What a received message does, given whether a countdown is running.
pub open spec fn listen_outcome(
    msg: SquadMessage,
    roster: Map<Seq<char>, extras_squad::UserRole>,
    active: bool,
) -> ListenOutcome {
    if msg.channel_type == MessageChannel::Other {
        ListenOutcome::Ignored
    } else {
        match marked_body(msg.text@) {
            None => ListenOutcome::Ignored,
            Some(body) => if !sender_allowed(msg, roster) {
                ListenOutcome::Ignored
            } else if active {
                if is_cancel_spec(body) {
                    ListenOutcome::Cancelled
                } else {
                    ListenOutcome::Ignored
                }
            } else {
                match count_in(body) {
                    Some(total) => ListenOutcome::Started(total),
                    None => ListenOutcome::Ignored,
                }
            },
        }
    }
}

/// The countdown after an outcome, at clock reading `now`.
pub open spec fn countdown_after(
    slot: Option<CountdownState>,
    outcome: ListenOutcome,
    now: u64,
) -> Option<CountdownState> {
    match outcome {
        ListenOutcome::Ignored => slot,
        ListenOutcome::Cancelled => None,
        ListenOutcome::Started(total) => Some(CountdownState::fresh(now, total)),
    }
}

/// Handles one squad/party chat message at clock reading `now`.
///
/// Only messages this addon generated (carrying `CHAT_MARKER`) from an allowed sender act. While
/// a countdown is running a repeated start is just the sender's own message echoing back (or a
/// duplicate), so it is ignored rather than restarting everyone; a cancellation still applies.
/// Otherwise a message announcing a number starts a countdown from it.
pub fn on_squad_message(
    msg: &SquadMessage,
    roster: &Roster,
    slot: &mut Option<CountdownState>,
    now: u64,
) -> (r: ListenOutcome)
    requires
        roster.wf(),
    ensures
        r == listen_outcome(*msg, roster@, old(slot).is_some()),
        *final(slot) == countdown_after(*old(slot), r, now),
{
    if msg.channel_type == MessageChannel::Other {
        return ListenOutcome::Ignored;
    }
    // Only act on messages this addon generated. Anything a human typed by hand is ignored,
    // however much it looks like a countdown.
    let body = match marked_body_of(msg.text.as_str()) {
        Some(b) => crate::text::string_of(&b),
        None => {
            return ListenOutcome::Ignored;
        },
    };
    if !sender_may_control(msg, roster) {
        return ListenOutcome::Ignored;
    }
    if countdown::is_active(slot) {
        if is_cancel(body.as_str()) {
            countdown::cancel(slot);
            return ListenOutcome::Cancelled;
        }
        return ListenOutcome::Ignored;
    }
    match parse_count(body.as_str()) {
        Some(total) => {
            countdown::start(slot, total, now);
            ListenOutcome::Started(total)
        },
        None => ListenOutcome::Ignored,
    }
}

/// Replacing starts with the first occurrence: everything before it is kept, the occurrence
/// becomes `rep`, and replacing carries on after it.
pub proof fn lemma_replace_first(s: Seq<char>, pat: Seq<char>, rep: Seq<char>, k: int)
    requires
        pat.len() > 0,
        occurs_at(s, pat, k),
        forall|j: int| 0 <= j < k ==> !occurs_at(s, pat, j),
    ensures
        replace_all(s, pat, rep) == s.take(k) + rep + replace_all(s.skip(k + pat.len()), pat, rep),
    decreases k,
{
    if k == 0 {
        assert(s.take(pat.len() as int) =~= s.subrange(0, pat.len() as int));
        assert(s.take(0) + rep =~= rep);
    } else {
        assert(!occurs_at(s, pat, 0));
        assert(s.take(pat.len() as int) =~= s.subrange(0, pat.len() as int));
        let t = s.skip(1);
        assert(t.subrange(k - 1, k - 1 + pat.len()) =~= s.subrange(k, k + pat.len()));
        assert forall|j: int| 0 <= j < k - 1 implies !occurs_at(t, pat, j) by {
            assert(t.subrange(j, j + pat.len()) =~= s.subrange(j + 1, j + 1 + pat.len()));
            assert(!occurs_at(s, pat, j + 1));
        }
        lemma_replace_first(t, pat, rep, k - 1);
        assert(t.skip(k - 1 + pat.len()) =~= s.skip(k + pat.len()));
        assert(seq![s[0]] + t.take(k - 1) =~= s.take(k));
    }
}

/// A template the listener can read a count back from: it has a `{n}` placeholder, nothing
/// before the first one is a digit, and what follows it does not start with a digit or another
/// placeholder (which would run into the number).
pub open spec fn template_announces_count(t: Seq<char>) -> bool {
    match find_from(t, placeholder(), 0) {
        None => false,
        Some(k) => {
            &&& forall|i: int| 0 <= i < k ==> !is_digit(#[trigger] t[i])
            &&& ({
                let post = t.skip(k + 3);
                post.len() == 0 || (!is_digit(post[0]) && !occurs_at(post, placeholder(), 0))
            })
        },
    }
}

/// The sync signal works: a line announcing `n` through such a template, as other clients
/// receive it, carries the marker, and the number read back from its body is `n`.
pub proof fn lemma_count_read_back(t: Seq<char>, n: u32)
    requires
        template_announces_count(t),
    ensures
        marked_body(tagged(rendered(t, n))) == Some(seq![' '] + rendered(t, n)),
        count_in(seq![' '] + rendered(t, n)) == Some(n),
{
    let m = rendered(t, n);
    let line = tagged(m);
    let mk = chat_marker();
    assert(line.subrange(0, mk.len() as int) =~= mk);
    assert(occurs_at(line, mk, 0));
    assert(find_from(line, mk, 0) == Some(0int));
    assert(line.skip(mk.len() as int) =~= seq![' '] + m);

    let ph = placeholder();
    let k = find_from(t, ph, 0)->0;
    lemma_find_from(t, ph, 0);
    let dec = decimal(n as nat);
    lemma_decimal(n as nat);
    let post = t.skip(k + 3);
    let rest = replace_all(post, ph, dec);
    lemma_replace_first(t, ph, dec, k);
    assert(m == t.take(k) + dec + rest);
    if post.len() > 0 {
        if post.len() < 3 {
            assert(rest == post);
        } else {
            assert(post.take(3) =~= post.subrange(0, 3));
            assert(rest == seq![post[0]] + replace_all(post.skip(1), ph, dec));
        }
        assert(rest[0] == post[0]);
    } else {
        assert(rest == post);
    }
    let body = seq![' '] + m;
    let tail = dec + rest;
    assert(body =~= seq![' '] + t.take(k) + tail);
    assert forall|i: int| 0 <= i < k + 1 implies !is_digit(#[trigger] body[i]) by {
        if i > 0 {
            assert(body[i] == t[i - 1]);
        }
    }
    lemma_first_digit_run(body, k + 1);
    assert(body.skip(k + 1) =~= tail);
    assert(tail[0] == dec[0]);
    assert forall|i: int| 0 <= i < dec.len() implies is_digit(#[trigger] tail[i]) by {
        assert(tail[i] == dec[i]);
    }
    if rest.len() > 0 {
        assert(tail[dec.len() as int] == rest[0]);
    }
    lemma_leading_digits(tail, dec.len() as int);
    assert(tail.take(dec.len() as int) =~= dec);
}

/// Only addon lines from an allowed sender act: a line without the marker, or from a squad
/// member who is neither leader nor lieutenant, changes nothing; and while a countdown runs, a
/// line that is not a cancellation (such as the sender's own announcement echoing back) does
/// not restart it.
pub proof fn lemma_listen_rules(
    msg: SquadMessage,
    roster: Map<Seq<char>, extras_squad::UserRole>,
    active: bool,
)
    ensures
        marked_body(msg.text@) is None ==> listen_outcome(msg, roster, active)
            == ListenOutcome::Ignored,
        !sender_allowed(msg, roster) ==> listen_outcome(msg, roster, active)
            == ListenOutcome::Ignored,
        active ==> !(listen_outcome(msg, roster, active) is Started),
        !active ==> listen_outcome(msg, roster, active) != ListenOutcome::Cancelled,
{
}

/// A countdown announced in chat is mirrored: when a client with no countdown running receives
/// the line announcing `n` (through a template the listener can read back) from a sender
/// allowed to drive the pull, it starts a countdown from `n` at the moment it receives it.
pub proof fn lemma_announcement_mirrored(
    msg: SquadMessage,
    roster: Map<Seq<char>, extras_squad::UserRole>,
    template: Seq<char>,
    n: u32,
    slot: Option<CountdownState>,
    now: u64,
)
    requires
        msg.channel_type != MessageChannel::Other,
        msg.text@ == tagged(rendered(template, n)),
        template_announces_count(template),
        sender_allowed(msg, roster),
        slot is None,
    ensures
        listen_outcome(msg, roster, false) == ListenOutcome::Started(n),
        countdown_after(slot, ListenOutcome::Started(n), now) == Some(
            CountdownState::fresh(now, n),
        ),
{
    lemma_count_read_back(template, n);
}

} // verus!

//! Settings and named profiles: the active profile's settings, every saved profile, and which
//! one is active - and the operations that switch, create, rename and delete profiles.
//!
//! The overlay's position, size and colour are `f32` values; they are held here as their
//! IEEE-754 bit patterns (`f32::to_bits`), which the library only stores and copies.

use vstd::prelude::*;
use crate::text::{chars_of, string_of, trim, trimmed, vec_eq};

verus! {

broadcast use vstd::string::group_string_axioms;

/// Name of the profile created when there is nothing else to load.
pub const DEFAULT_PROFILE_NAME: &'static str = "Default";

/// One profile's settings.
#[derive(Debug, Clone)]
pub struct Settings {
    pub start_count: u32,
    /// Center point of the overlay window, as a fraction of screen size (0.0-1.0 each axis),
    /// as `f32` bit patterns.
    pub overlay_pos_frac: [u32; 2],
    /// Point size of the dedicated overlay font, as an `f32` bit pattern.
    pub overlay_font_size: u32,
    /// RGB color of the overlay countdown numbers (not the "PULL!" flash, which is always red),
    /// as `f32` bit patterns.
    pub overlay_color: [u32; 3],
    /// Whether the overlay is pinned in place. While unlocked, it can be dragged and shows a
    /// preview even with no countdown running.
    pub overlay_locked: bool,
    /// On by default: plays the local alert sounds (the countdown beeps and the "PULL!" sound).
    pub sound_enabled: bool,
    /// Template for each chat line, with `{n}` replaced by the count.
    pub chat_message_template: String,
    /// Sent instead of the template once the count reaches 0.
    pub chat_pull_text: String,
    /// Sent when an in-progress pull is cancelled. Keep the word "cancel" in there somewhere.
    pub chat_cancel_text: String,
    /// Off by default: post one heads-up chat message instead of a per-second countdown.
    pub chat_countdown_enabled: bool,
    /// Only used when `chat_countdown_enabled` is on: chat starts counting down from this number
    /// (capped to the overlay's starting number).
    pub chat_countdown_start: u32,
    /// Automatically trigger a pull the moment a squad ready check finishes with everyone ready.
    pub auto_pull_after_ready_check: bool,
    /// Off by default: send the upfront message and the final "pull now" line through GW2's
    /// squad broadcast instead of a normal chat line (squads only).
    pub use_squad_broadcast: bool,
}

impl Settings {
    /// The defaults, with the three chat texts left empty (the real text defaults come from
    /// `Settings::default`).
    pub fn const_default() -> (r: Settings)
        ensures
            r.start_count == 10,
            r.overlay_pos_frac == [0x3ED7_0A3Du32, 0x3DF5_C28Fu32],
            r.overlay_font_size == 0x4290_0000,
            r.overlay_color == [0x3F80_0000u32, 0x3F80_0000u32, 0x3F80_0000u32],
            r.overlay_locked,
            r.sound_enabled,
            r.chat_message_template@ == Seq::<char>::empty(),
            r.chat_pull_text@ == Seq::<char>::empty(),
            r.chat_cancel_text@ == Seq::<char>::empty(),
            !r.chat_countdown_enabled,
            r.chat_countdown_start == 5,
            !r.auto_pull_after_ready_check,
            !r.use_squad_broadcast,
    {
        Settings {
            start_count: 10,
            overlay_pos_frac: [0x3ED7_0A3D, 0x3DF5_C28F],
            overlay_font_size: 0x4290_0000,
            overlay_color: [0x3F80_0000, 0x3F80_0000, 0x3F80_0000],
            overlay_locked: true,
            sound_enabled: true,
            chat_message_template: String::new(),
            chat_pull_text: String::new(),
            chat_cancel_text: String::new(),
            chat_countdown_enabled: false,
            chat_countdown_start: 5,
            auto_pull_after_ready_check: false,
            use_squad_broadcast: false,
        }
    }

    /// An exact copy.
    pub fn duplicate(&self) -> (r: Settings)
        ensures
            r == *self,
    {
        Settings {
            start_count: self.start_count,
            overlay_pos_frac: self.overlay_pos_frac,
            overlay_font_size: self.overlay_font_size,
            overlay_color: self.overlay_color,
            overlay_locked: self.overlay_locked,
            sound_enabled: self.sound_enabled,
            chat_message_template: self.chat_message_template.clone(),
            chat_pull_text: self.chat_pull_text.clone(),
            chat_cancel_text: self.chat_cancel_text.clone(),
            chat_countdown_enabled: self.chat_countdown_enabled,
            chat_countdown_start: self.chat_countdown_start,
            auto_pull_after_ready_check: self.auto_pull_after_ready_check,
            use_squad_broadcast: self.use_squad_broadcast,
        }
    }
}

impl Default for Settings {
    /// The defaults, with the real chat texts.
    fn default() -> (r: Settings)
        ensures
            r.start_count == 10,
            r.overlay_pos_frac == [0x3ED7_0A3Du32, 0x3DF5_C28Fu32],
            r.overlay_font_size == 0x4290_0000,
            r.overlay_color == [0x3F80_0000u32, 0x3F80_0000u32, 0x3F80_0000u32],
            r.overlay_locked,
            r.sound_enabled,
            r.chat_message_template@ == "Pulling in {n}..."@,
            r.chat_pull_text@ == "Pull!"@,
            r.chat_cancel_text@ == "Pull cancelled."@,
            !r.chat_countdown_enabled,
            r.chat_countdown_start == 5,
            !r.auto_pull_after_ready_check,
            !r.use_squad_broadcast,
    {
        Settings {
            chat_message_template: "Pulling in {n}...".to_string(),
            chat_pull_text: "Pull!".to_string(),
            chat_cancel_text: "Pull cancelled.".to_string(),
            ..Settings::const_default()
        }
    }
}

/// One named, independently switchable configuration.
#[derive(Debug, Clone)]
pub struct Profile {
    pub name: String,
    pub settings: Settings,
}

/// On-disk shape: every saved profile, plus which one is active.
#[derive(Debug, Clone)]
pub struct ProfileStore {
    pub active: String,
    pub profiles: Vec<Profile>,
}

/// What the settings file held when it was read.
#[derive(Debug)]
pub enum StoredSettings {
    /// No file (or it could not be read).
    Missing,
    /// A file in the profile format.
    Profiles(ProfileStore),
    /// A file in the old pre-profile format: a bare `Settings` object.
    Legacy(Settings),
    /// A file in neither format.
    Corrupt,
}

/// The settings in force: the active profile's settings (edited in place), every saved
/// profile in stored order, and the active profile's name.
#[derive(Debug)]
pub struct ProfileState {
    pub settings: Settings,
    pub profiles: Vec<Profile>,
    pub active: String,
}

/// A profile as plain values: its name and its settings.
pub type ProfileView = (Seq<char>, Settings);

/// The settings in force as plain values.
pub struct ProfileStateView {
    pub settings: Settings,
    pub profiles: Seq<ProfileView>,
    pub active: Seq<char>,
}

/// Profiles as plain values.
pub open spec fn profiles_view(ps: Seq<Profile>) -> Seq<ProfileView> {
    ps.map_values(|p: Profile| (p.name@, p.settings))
}

impl View for ProfileState {
    type V = ProfileStateView;

    open spec fn view(&self) -> ProfileStateView {
        ProfileStateView {
            settings: self.settings,
            profiles: profiles_view(self.profiles@),
            active: self.active@,
        }
    }
}

/// The store a state writes: its profiles and active name.
pub open spec fn store_of(v: ProfileStateView) -> (Seq<char>, Seq<ProfileView>) {
    (v.active, v.profiles)
}

/// A store as plain values.
pub open spec fn store_view(s: ProfileStore) -> (Seq<char>, Seq<ProfileView>) {
    (s.active@, profiles_view(s.profiles@))
}

/// The characters of `DEFAULT_PROFILE_NAME`.
pub open spec fn default_name() -> Seq<char> {
    seq!['D', 'e', 'f', 'a', 'u', 'l', 't']
}

/// The names of the profiles, in order.
pub open spec fn names(ps: Seq<ProfileView>) -> Seq<Seq<char>> {
    ps.map_values(|p: ProfileView| p.0)
}

/// Index of the first profile at or after `i` named `name`.
pub open spec fn first_named(ps: Seq<ProfileView>, name: Seq<char>, i: int) -> Option<int>
    decreases ps.len() - i,
{
    if i < 0 || i >= ps.len() {
        None
    } else if ps[i].0 == name {
        Some(i)
    } else {
        first_named(ps, name, i + 1)
    }
}

/// `first_named` finds the earliest profile with that name.
pub proof fn lemma_first_named(ps: Seq<ProfileView>, name: Seq<char>, i: int)
    requires
        0 <= i,
    ensures
        match first_named(ps, name, i) {
            Some(k) => i <= k < ps.len() && ps[k].0 == name && forall|j: int|
                i <= j < k ==> #[trigger] ps[j].0 != name,
            None => forall|j: int| i <= j < ps.len() ==> #[trigger] ps[j].0 != name,
        },
    decreases ps.len() - i,
{
    if i < ps.len() && ps[i].0 != name {
        lemma_first_named(ps, name, i + 1);
    }
}

/// `save`: the in-memory settings written back into the active profile's slot.
pub open spec fn saved(v: ProfileStateView) -> ProfileStateView {
    match first_named(v.profiles, v.active, 0) {
        Some(i) => ProfileStateView {
            profiles: v.profiles.update(i, (v.profiles[i].0, v.settings)),
            ..v
        },
        None => v,
    }
}

/// The state `load` activates from the profiles and active name read from disk.
pub open spec fn activated(active: Seq<char>, ps: Seq<ProfileView>, default_settings: Settings) -> ProfileStateView {
    let index = match first_named(ps, active, 0) {
        Some(i) => i,
        None => 0,
    };
    if index < ps.len() {
        ProfileStateView { settings: ps[index].1, profiles: ps, active: ps[index].0 }
    } else {
        ProfileStateView {
            settings: default_settings,
            profiles: seq![(default_name(), default_settings)],
            active: default_name(),
        }
    }
}

/// There is at least one profile, and the active name is a profile whose (first) entry holds
/// the settings in force.
pub open spec fn active_profile_holds_settings(v: ProfileStateView) -> bool {
    &&& v.profiles.len() >= 1
    &&& first_named(v.profiles, v.active, 0) matches Some(i) && v.profiles[i].1 == v.settings
}

/// Whatever was read, the activated state has a profile, and the active one holds the settings.
pub proof fn lemma_activated_holds_settings(active: Seq<char>, ps: Seq<ProfileView>, d: Settings)
    ensures
        active_profile_holds_settings(activated(active, ps, d)),
{
    lemma_first_named(ps, active, 0);
    let v = activated(active, ps, d);
    match first_named(ps, active, 0) {
        Some(i) => {
            lemma_first_named_at(ps, ps[i].0, 0, i);
        },
        None => {
            if ps.len() > 0 {
                lemma_first_named_at(ps, ps[0].0, 0, 0);
            } else {
                lemma_first_named_at(v.profiles, default_name(), 0, 0);
            }
        },
    }
}

/// Whether a settings value holds the defaults that `Settings::default` gives.
pub open spec fn is_default_settings(s: Settings) -> bool {
    &&& s.start_count == 10
    &&& s.overlay_pos_frac == [0x3ED7_0A3Du32, 0x3DF5_C28Fu32]
    &&& s.overlay_font_size == 0x4290_0000
    &&& s.overlay_color == [0x3F80_0000u32, 0x3F80_0000u32, 0x3F80_0000u32]
    &&& s.overlay_locked
    &&& s.sound_enabled
    &&& s.chat_message_template@ == "Pulling in {n}..."@
    &&& s.chat_pull_text@ == "Pull!"@
    &&& s.chat_cancel_text@ == "Pull cancelled."@
    &&& !s.chat_countdown_enabled
    &&& s.chat_countdown_start == 5
    &&& !s.auto_pull_after_ready_check
    &&& !s.use_squad_broadcast
}

fn default_name_string() -> (r: String)
    ensures
        r@ == default_name(),
{
    let r = DEFAULT_PROFILE_NAME.to_string();
    proof {
        reveal_strlit("Default");
        assert(r@ =~= default_name());
    }
    r
}

fn clone_profile(p: &Profile) -> (r: Profile)
    ensures
        r == *p,
{
    Profile { name: p.name.clone(), settings: p.settings.duplicate() }
}

fn clone_profiles(ps: &Vec<Profile>) -> (r: Vec<Profile>)
    ensures
        r@ == ps@,
{
    let mut out: Vec<Profile> = Vec::new();
    let mut i: usize = 0;
    while i < ps.len()
        invariant
            i <= ps.len(),
            out@ == ps@.take(i as int),
        decreases ps.len() - i,
    {
        out.push(clone_profile(&ps[i]));
        i = i + 1;
        assert(out@ =~= ps@.take(i as int));
    }
    assert(ps@.take(i as int) =~= ps@);
    out
}

/// Index of the first profile named `name`.
fn find_profile(ps: &Vec<Profile>, name: &Vec<char>) -> (r: Option<usize>)
    ensures
        match r {
            Some(i) => first_named(profiles_view(ps@), name@, 0) == Some(i as int),
            None => first_named(profiles_view(ps@), name@, 0) is None,
        },
{
    let ghost pv = profiles_view(ps@);
    let mut i: usize = 0;
    while i < ps.len()
        invariant
            i <= ps.len(),
            pv == profiles_view(ps@),
            first_named(pv, name@, 0) == first_named(pv, name@, i as int),
        decreases ps.len() - i,
    {
        let pname = chars_of(ps[i].name.as_str());
        assert(pv[i as int].0 == ps@[i as int].name@);
        if vec_eq(&pname, name) {
            return Some(i);
        }
        i = i + 1;
    }
    None
}

/// The profile store a state is written out as.
fn store_from(st: &ProfileState) -> (r: ProfileStore)
    ensures
        store_view(r) == store_of(st@),
{
    ProfileStore { active: st.active.clone(), profiles: clone_profiles(&st.profiles) }
}

/// The fallback store: a single "Default" profile with the default settings.
pub fn fallback_store() -> (r: ProfileStore)
    ensures
        r.active@ == default_name(),
        r.profiles@.len() == 1,
        r.profiles@[0].name@ == default_name(),
        is_default_settings(r.profiles@[0].settings),
{
    let mut profiles: Vec<Profile> = Vec::new();
    profiles.push(Profile { name: default_name_string(), settings: Settings::default() });
    ProfileStore { active: default_name_string(), profiles }
}

/// Loads all profiles read from disk and activates whichever one was last active, falling back
/// to a single "Default" profile if the file is missing/corrupt - or if it's still in the old
/// pre-profile format (a bare `Settings` object), which gets migrated into a "Default" profile.
/// If the recorded active name matches no profile, the first profile is activated; a file with
/// no profiles at all also falls back to the single "Default" profile - there must always be at
/// least one.
pub fn load(file: StoredSettings) -> (r: ProfileState)
    ensures
        active_profile_holds_settings(r@),
        ({
            let store = match file {
                StoredSettings::Profiles(s) => Some(store_view(s)),
                StoredSettings::Legacy(s) => Some((default_name(), seq![(default_name(), s)])),
                _ => None,
            };
            match store {
                Some((active, ps)) => exists|d: Settings|
                    is_default_settings(d) && r@ == activated(active, ps, d),
                None => r@.active == default_name() && r@.profiles.len() == 1
                    && r@.profiles[0].0 == default_name() && is_default_settings(r@.settings)
                    && r@.profiles[0].1 == r@.settings,
            }
        }),
{
    let ghost input = file;
    let store = match file {
        StoredSettings::Profiles(s) => s,
        StoredSettings::Legacy(settings) => {
            let mut profiles: Vec<Profile> = Vec::new();
            profiles.push(Profile { name: default_name_string(), settings });
            let s = ProfileStore { active: default_name_string(), profiles };
            assert(profiles_view(s.profiles@) =~= seq![(default_name(), settings)]);
            s
        },
        _ => fallback_store(),
    };
    let active_chars = chars_of(store.active.as_str());
    let index = match find_profile(&store.profiles, &active_chars) {
        Some(i) => i,
        None => 0,
    };
    let d = Settings::default();
    let ghost pv = profiles_view(store.profiles@);
    proof {
        lemma_first_named(pv, active_chars@, 0);
    }
    if index < store.profiles.len() {
        let p = clone_profile(&store.profiles[index]);
        let r = ProfileState { settings: p.settings, profiles: store.profiles, active: p.name };
        assert(r@.profiles == pv);
        assert(pv[index as int] == (p.name@, p.settings));
        assert(r@ == activated(store.active@, pv, d));
        assert(is_default_settings(d));
        proof {
            lemma_activated_holds_settings(store.active@, pv, d);
            match input {
                StoredSettings::Profiles(s0) => {},
                StoredSettings::Legacy(s0) => {},
                _ => {
                    assert(index == 0);
                    assert(r@.settings == pv[0].1);
                },
            }
        }
        r
    } else {
        let mut profiles: Vec<Profile> = Vec::new();
        profiles.push(Profile { name: default_name_string(), settings: d.duplicate() });
        let r = ProfileState { settings: d, profiles, active: default_name_string() };
        assert(pv.len() == 0);
        assert(r@.profiles =~= seq![(default_name(), d)]);
        assert(r@ == activated(store.active@, pv, d));
        assert(is_default_settings(d));
        proof {
            lemma_activated_holds_settings(store.active@, pv, d);
        }
        r
    }
}

/// Writes the in-memory settings into the active profile's slot; returns what to write to
/// disk: every profile and the active name.
pub fn save(st: &mut ProfileState) -> (r: ProfileStore)
    ensures
        final(st)@ == saved(old(st)@),
        store_view(r) == store_of(final(st)@),
{
    let active_chars = chars_of(st.active.as_str());
    let ghost pv = profiles_view(st.profiles@);
    match find_profile(&st.profiles, &active_chars) {
        Some(i) => {
            proof {
                lemma_first_named(pv, active_chars@, 0);
            }
            let name = st.profiles[i].name.clone();
            let settings = st.settings.duplicate();
            st.profiles.set(i, Profile { name, settings });
            assert(profiles_view(st.profiles@) =~= pv.update(i as int, (pv[i as int].0, st.settings)));
        },
        None => {},
    }
    store_from(st)
}

/// Names of all saved profiles, in stored order.
pub fn profile_names(st: &ProfileState) -> (r: Vec<String>)
    ensures
        r@.map_values(|s: String| s@) == names(st@.profiles),
{
    let mut out: Vec<String> = Vec::new();
    let mut i: usize = 0;
    while i < st.profiles.len()
        invariant
            i <= st.profiles.len(),
            out@.map_values(|s: String| s@) == names(st@.profiles).take(i as int),
        decreases st.profiles.len() - i,
    {
        let ghost prev = out@;
        let name = st.profiles[i].name.clone();
        out.push(name);
        assert(names(st@.profiles)[i as int] == st.profiles@[i as int].name@);
        assert(out@.map_values(|s: String| s@) =~= prev.map_values(|s: String| s@).push(name@));
        assert(names(st@.profiles).take(i + 1) =~= names(st@.profiles).take(i as int).push(names(st@.profiles)[i as int]));
        i = i + 1;
        assert(out@.map_values(|s: String| s@) =~= names(st@.profiles).take(i as int));
    }
    assert(names(st@.profiles).take(i as int) =~= names(st@.profiles));
    out
}

/// Name of the active profile.
pub fn active_profile_name(st: &ProfileState) -> (r: String)
    ensures
        r@ == st@.active,
{
    st.active.clone()
}

/// What a profile operation did.
#[derive(Debug)]
pub enum ProfileOutcome {
    /// Nothing to do (blank name, or renaming to the current name).
    Unchanged,
    /// Refused: another profile already has that name (the caller alerts).
    NameTaken,
    /// Refused: the only profile can't be deleted (the caller alerts).
    OnlyProfile,
    /// Saved; write this store to disk.
    Saved(ProfileStore),
    /// Saved after loading another profile's settings; write this store to disk and reapply
    /// the settings' side effects (the overlay font size).
    Activated(ProfileStore),
}

/// The kind of a profile outcome.
#[derive(Debug, Clone, Copy, PartialEq, Eq, Structural)]
pub enum OutcomeKind {
    Unchanged,
    NameTaken,
    OnlyProfile,
    Saved,
    Activated,
}

impl ProfileOutcome {
    /// The kind of this outcome.
    pub open spec fn kind(self) -> OutcomeKind {
        match self {
            ProfileOutcome::Unchanged => OutcomeKind::Unchanged,
            ProfileOutcome::NameTaken => OutcomeKind::NameTaken,
            ProfileOutcome::OnlyProfile => OutcomeKind::OnlyProfile,
            ProfileOutcome::Saved(_) => OutcomeKind::Saved,
            ProfileOutcome::Activated(_) => OutcomeKind::Activated,
        }
    }

    /// The store to write matches the state left behind, whenever there is one.
    pub open spec fn writes(self, v: ProfileStateView) -> bool {
        match self {
            ProfileOutcome::Saved(s) => store_view(s) == store_of(v),
            ProfileOutcome::Activated(s) => store_view(s) == store_of(v),
            _ => true,
        }
    }
}

/// `switch_profile`: save, then load the named profile if there is one, and save again.
pub open spec fn switch_step(v: ProfileStateView, name: Seq<char>) -> (OutcomeKind, ProfileStateView) {
    let s1 = saved(v);
    match first_named(s1.profiles, name, 0) {
        None => (OutcomeKind::Saved, s1),
        Some(i) => (
            OutcomeKind::Activated,
            saved(ProfileStateView { settings: s1.profiles[i].1, active: name, profiles: s1.profiles }),
        ),
    }
}

/// `create_profile`: a new profile copying the current settings, made active.
pub open spec fn create_step(v: ProfileStateView, name: Seq<char>) -> (OutcomeKind, ProfileStateView) {
    let t = trimmed(name);
    if t.len() == 0 {
        (OutcomeKind::Unchanged, v)
    } else if names(v.profiles).contains(t) {
        (OutcomeKind::NameTaken, v)
    } else {
        let s1 = saved(v);
        (
            OutcomeKind::Saved,
            saved(
                ProfileStateView {
                    profiles: s1.profiles.push((t, s1.settings)),
                    active: t,
                    settings: s1.settings,
                },
            ),
        )
    }
}

/// `rename_active_profile`: the active profile under a new name.
pub open spec fn rename_step(v: ProfileStateView, new_name: Seq<char>) -> (OutcomeKind, ProfileStateView) {
    let t = trimmed(new_name);
    if t.len() == 0 || t == v.active {
        (OutcomeKind::Unchanged, v)
    } else if names(v.profiles).contains(t) {
        (OutcomeKind::NameTaken, v)
    } else {
        let ps = match first_named(v.profiles, v.active, 0) {
            Some(i) => v.profiles.update(i, (t, v.profiles[i].1)),
            None => v.profiles,
        };
        (OutcomeKind::Saved, saved(ProfileStateView { profiles: ps, active: t, settings: v.settings }))
    }
}

/// Whether a profile does not carry the name `name`.
pub open spec fn not_named(p: ProfileView, name: Seq<char>) -> bool {
    p.0 != name
}

/// `delete_active_profile`: drop the active profile and activate whichever remains first.
pub open spec fn delete_step(v: ProfileStateView) -> (OutcomeKind, ProfileStateView) {
    if v.profiles.len() <= 1 {
        (OutcomeKind::OnlyProfile, v)
    } else {
        let ps = v.profiles.filter(|p: ProfileView| not_named(p, v.active));
        if ps.len() == 0 {
            // Every profile carries the active name: deleting it would leave none.
            (OutcomeKind::OnlyProfile, v)
        } else {
            (
                OutcomeKind::Activated,
                saved(ProfileStateView { settings: ps[0].1, active: ps[0].0, profiles: ps }),
            )
        }
    }
}

/// Whether some profile is named `name`.
fn has_profile_named(ps: &Vec<Profile>, name: &Vec<char>) -> (r: bool)
    ensures
        r == names(profiles_view(ps@)).contains(name@),
{
    let r = find_profile(ps, name);
    proof {
        let pv = profiles_view(ps@);
        lemma_first_named(pv, name@, 0);
        match r {
            Some(i) => {
                assert(names(pv)[i as int] == name@);
            },
            None => {
                if names(pv).contains(name@) {
                    let j = choose|j: int| 0 <= j < names(pv).len() && names(pv)[j] == name@;
                    assert(pv[j].0 == name@);
                }
            },
        }
    }
    r.is_some()
}

/// Switches to a different existing profile, applying its settings (the caller reapplies
/// anything with a side effect beyond storage, like the overlay font size, on `Activated`).
/// Pending edits are saved into the profile being left first; nothing else happens if the
/// name doesn't match a saved profile.
pub fn switch_profile(st: &mut ProfileState, name: &str) -> (r: ProfileOutcome)
    ensures
        (r.kind(), final(st)@) == switch_step(old(st)@, name@),
        r.writes(final(st)@),
{
    let first = save(st);
    let name_chars = chars_of(name);
    match find_profile(&st.profiles, &name_chars) {
        None => ProfileOutcome::Saved(first),
        Some(i) => {
            proof {
                lemma_first_named(st@.profiles, name_chars@, 0);
            }
            let new_settings = st.profiles[i].settings.duplicate();
            st.settings = new_settings;
            st.active = string_of(&name_chars);
            let store = save(st);
            ProfileOutcome::Activated(store)
        },
    }
}

/// Creates a new profile as a copy of the currently active one, and switches to it. Nothing
/// happens if the (trimmed) name is blank; refused if it is already taken.
pub fn create_profile(st: &mut ProfileState, name: &str) -> (r: ProfileOutcome)
    ensures
        (r.kind(), final(st)@) == create_step(old(st)@, name@),
        r.writes(final(st)@),
{
    let t = trim(name);
    if t.len() == 0 {
        return ProfileOutcome::Unchanged;
    }
    if has_profile_named(&st.profiles, &t) {
        return ProfileOutcome::NameTaken;
    }
    let _ = save(st);
    let ghost before = st@;
    let settings = st.settings.duplicate();
    st.profiles.push(Profile { name: string_of(&t), settings });
    st.active = string_of(&t);
    assert(st@.profiles =~= before.profiles.push((t@, before.settings)));
    let store = save(st);
    ProfileOutcome::Saved(store)
}

/// Renames the currently active profile. Nothing happens if the (trimmed) new name is blank or
/// the current name; refused if another profile already has it.
pub fn rename_active_profile(st: &mut ProfileState, new_name: &str) -> (r: ProfileOutcome)
    ensures
        (r.kind(), final(st)@) == rename_step(old(st)@, new_name@),
        r.writes(final(st)@),
{
    let t = trim(new_name);
    let old_name = chars_of(st.active.as_str());
    if t.len() == 0 || vec_eq(&t, &old_name) {
        return ProfileOutcome::Unchanged;
    }
    if has_profile_named(&st.profiles, &t) {
        return ProfileOutcome::NameTaken;
    }
    let ghost before = st@;
    match find_profile(&st.profiles, &old_name) {
        Some(i) => {
            proof {
                lemma_first_named(before.profiles, old_name@, 0);
            }
            let settings = st.profiles[i].settings.duplicate();
            st.profiles.set(i, Profile { name: string_of(&t), settings });
            assert(st@.profiles =~= before.profiles.update(
                i as int,
                (t@, before.profiles[i as int].1),
            ));
        },
        None => {},
    }
    st.active = string_of(&t);
    let store = save(st);
    ProfileOutcome::Saved(store)
}

/// Deletes the currently active profile and switches to whichever remains first. Refuses to
/// delete the last remaining profile - there must always be at least one.
pub fn delete_active_profile(st: &mut ProfileState) -> (r: ProfileOutcome)
    ensures
        (r.kind(), final(st)@) == delete_step(old(st)@),
        r.writes(final(st)@),
{
    if st.profiles.len() <= 1 {
        return ProfileOutcome::OnlyProfile;
    }
    let ghost v = st@;
    let ghost pred = |p: ProfileView| not_named(p, v.active);
    let active = chars_of(st.active.as_str());
    let ghost all = v.profiles;
    let mut kept: Vec<Profile> = Vec::new();
    let mut i: usize = 0;
    while i < st.profiles.len()
        invariant
            st@ == v,
            all == v.profiles,
            i <= st.profiles.len(),
            pred == (|p: ProfileView| not_named(p, v.active)),
            active@ == v.active,
            profiles_view(kept@) == all.take(i as int).filter(pred),
        decreases st.profiles.len() - i,
    {
        let ghost k = i as int;
        assert(all.take(k + 1).drop_last() =~= all.take(k));
        proof {
            reveal(Seq::filter);
        }
        assert(all[k] == (st.profiles@[k].name@, st.profiles@[k].settings));
        assert(all.take(k + 1).last() == all[k]);
        assert(all.take(k + 1).filter(pred) == if pred(all[k]) {
            all.take(k).filter(pred).push(all[k])
        } else {
            all.take(k).filter(pred)
        });
        let ghost before = kept@;
        let pname = chars_of(st.profiles[i].name.as_str());
        if !vec_eq(&pname, &active) {
            kept.push(clone_profile(&st.profiles[i]));
            assert(profiles_view(kept@) =~= profiles_view(before).push(all[k]));
        }
        i = i + 1;
    }
    assert(all.take(all.len() as int) =~= all);
    if kept.len() == 0 {
        return ProfileOutcome::OnlyProfile;
    }
    st.profiles = kept;
    let fallback = clone_profile(&st.profiles[0]);
    st.settings = fallback.settings;
    st.active = fallback.name;
    let store = save(st);
    ProfileOutcome::Activated(store)
}

/// The profile set is well-formed: at least one profile, no two with the same name, and the
/// active name is one of them.
pub open spec fn profiles_wf(v: ProfileStateView) -> bool {
    &&& v.profiles.len() >= 1
    &&& names(v.profiles).no_duplicates()
    &&& names(v.profiles).contains(v.active)
}

/// The earliest profile named `name` is found at `k`.
pub proof fn lemma_first_named_at(ps: Seq<ProfileView>, name: Seq<char>, i: int, k: int)
    requires
        0 <= i <= k < ps.len(),
        ps[k].0 == name,
        forall|j: int| i <= j < k ==> #[trigger] ps[j].0 != name,
    ensures
        first_named(ps, name, i) == Some(k),
    decreases k - i,
{
    if i < k {
        lemma_first_named_at(ps, name, i + 1, k);
    }
}

/// With no profile named `name`, none is found.
pub proof fn lemma_first_named_none(ps: Seq<ProfileView>, name: Seq<char>, i: int)
    requires
        0 <= i,
        forall|j: int| i <= j < ps.len() ==> #[trigger] ps[j].0 != name,
    ensures
        first_named(ps, name, i) is None,
    decreases ps.len() - i,
{
    if i < ps.len() {
        lemma_first_named_none(ps, name, i + 1);
    }
}

proof fn lemma_names_index(ps: Seq<ProfileView>, j: int)
    requires
        0 <= j < ps.len(),
    ensures
        names(ps)[j] == ps[j].0,
        names(ps).len() == ps.len(),
{
}

/// Saving keeps every name and the active profile; only the active slot's settings change.
pub proof fn lemma_saved_keeps_names(v: ProfileStateView)
    ensures
        names(saved(v).profiles) == names(v.profiles),
        saved(v).active == v.active,
        saved(v).settings == v.settings,
{
    lemma_first_named(v.profiles, v.active, 0);
    assert(names(saved(v).profiles) =~= names(v.profiles));
}

/// Saving twice is the same as saving once.
pub proof fn lemma_save_idempotent(v: ProfileStateView)
    ensures
        saved(saved(v)) == saved(v),
{
    let s = saved(v);
    lemma_first_named(v.profiles, v.active, 0);
    match first_named(v.profiles, v.active, 0) {
        Some(i) => {
            assert forall|j: int| 0 <= j < i implies #[trigger] s.profiles[j].0 != s.active by {
                assert(s.profiles[j] == v.profiles[j]);
            }
            lemma_first_named_at(s.profiles, s.active, 0, i);
            assert(s.profiles.update(i, (s.profiles[i].0, s.settings)) =~= s.profiles);
        },
        None => {},
    }
}

proof fn lemma_wf_active_found(v: ProfileStateView) -> (i: int)
    requires
        profiles_wf(v),
    ensures
        first_named(v.profiles, v.active, 0) == Some(i),
        0 <= i < v.profiles.len(),
        v.profiles[i].0 == v.active,
{
    lemma_first_named(v.profiles, v.active, 0);
    match first_named(v.profiles, v.active, 0) {
        Some(i) => i,
        None => {
            let j = choose|j: int| 0 <= j < names(v.profiles).len() && names(v.profiles)[j] == v.active;
            lemma_names_index(v.profiles, j);
            0
        },
    }
}

/// Switching keeps the profile set well-formed.
pub proof fn lemma_switch_preserves_wf(v: ProfileStateView, name: Seq<char>)
    requires
        profiles_wf(v),
    ensures
        profiles_wf(switch_step(v, name).1),
{
    let s1 = saved(v);
    lemma_saved_keeps_names(v);
    lemma_first_named(s1.profiles, name, 0);
    match first_named(s1.profiles, name, 0) {
        None => {},
        Some(i) => {
            let s2 = ProfileStateView { settings: s1.profiles[i].1, active: name, profiles: s1.profiles };
            lemma_saved_keeps_names(s2);
            lemma_names_index(s1.profiles, i);
        },
    }
}

/// Creating a profile keeps the profile set well-formed.
pub proof fn lemma_create_preserves_wf(v: ProfileStateView, name: Seq<char>)
    requires
        profiles_wf(v),
    ensures
        profiles_wf(create_step(v, name).1),
{
    let t = trimmed(name);
    if t.len() > 0 && !names(v.profiles).contains(t) {
        let s1 = saved(v);
        lemma_saved_keeps_names(v);
        let s2 = ProfileStateView {
            profiles: s1.profiles.push((t, s1.settings)),
            active: t,
            settings: s1.settings,
        };
        assert(names(s2.profiles) =~= names(s1.profiles).push(t));
        lemma_saved_keeps_names(s2);
        assert(names(s2.profiles)[names(s1.profiles).len() as int] == t);
    }
}

/// Renaming keeps the profile set well-formed.
pub proof fn lemma_rename_preserves_wf(v: ProfileStateView, new_name: Seq<char>)
    requires
        profiles_wf(v),
    ensures
        profiles_wf(rename_step(v, new_name).1),
{
    let t = trimmed(new_name);
    if !(t.len() == 0 || t == v.active) && !names(v.profiles).contains(t) {
        let i = lemma_wf_active_found(v);
        let ps = v.profiles.update(i, (t, v.profiles[i].1));
        let s2 = ProfileStateView { profiles: ps, active: t, settings: v.settings };
        let old_names = names(v.profiles);
        assert(names(ps) =~= old_names.update(i, t));
        assert forall|a: int, b: int|
            0 <= a < names(ps).len() && 0 <= b < names(ps).len() && a != b implies names(ps)[a]
            != names(ps)[b] by {
            if a != i && b != i {
                assert(old_names[a] != old_names[b]);
            } else if a == i {
                assert(old_names[b] != t);
            } else {
                assert(old_names[a] != t);
            }
        }
        assert(names(ps)[i] == t);
        lemma_saved_keeps_names(s2);
    }
}

proof fn lemma_filter_names_no_dup(s: Seq<ProfileView>, pred: spec_fn(ProfileView) -> bool)
    requires
        names(s).no_duplicates(),
    ensures
        names(s.filter(pred)).no_duplicates(),
        forall|j: int|
            0 <= j < s.filter(pred).len() ==> names(s).contains(#[trigger] s.filter(pred)[j].0),
    decreases s.len(),
{
    reveal(Seq::filter);
    if s.len() > 0 {
        let d = s.drop_last();
        assert(names(d) =~= names(s).drop_last());
        lemma_filter_names_no_dup(d, pred);
        let fd = d.filter(pred);
        assert forall|j: int| 0 <= j < fd.len() implies names(s).contains(#[trigger] fd[j].0) by {
            assert(names(d).contains(fd[j].0));
            let k = choose|k: int| 0 <= k < names(d).len() && names(d)[k] == fd[j].0;
            assert(names(s)[k] == fd[j].0);
        }
        if pred(s.last()) {
            let f = fd.push(s.last());
            assert(names(f) =~= names(fd).push(s.last().0));
            assert forall|j: int| 0 <= j < fd.len() implies #[trigger] fd[j].0 != s.last().0 by {
                assert(names(d).contains(fd[j].0));
                let k = choose|k: int| 0 <= k < names(d).len() && names(d)[k] == fd[j].0;
                assert(names(s)[k] == fd[j].0);
                assert(names(s)[s.len() - 1] == s.last().0);
            }
            assert forall|a: int, b: int|
                0 <= a < names(f).len() && 0 <= b < names(f).len() && a != b implies names(f)[a]
                != names(f)[b] by {
                if a < fd.len() && b < fd.len() {
                    assert(names(fd)[a] != names(fd)[b]);
                } else if a < fd.len() {
                    assert(names(f)[a] == fd[a].0);
                } else {
                    assert(names(f)[b] == fd[b].0);
                }
            }
            assert forall|j: int| 0 <= j < f.len() implies names(s).contains(#[trigger] f[j].0) by {
                if j == fd.len() {
                    assert(names(s)[s.len() - 1] == s.last().0);
                } else {
                    assert(f[j] == fd[j]);
                }
            }
        }
    }
}

/// Deleting keeps the profile set well-formed: it never removes the last profile.
pub proof fn lemma_delete_preserves_wf(v: ProfileStateView)
    requires
        profiles_wf(v),
    ensures
        profiles_wf(delete_step(v).1),
        v.profiles.len() >= 2 ==> delete_step(v).0 == OutcomeKind::Activated,
{
    if v.profiles.len() > 1 {
        let pred = |p: ProfileView| not_named(p, v.active);
        let ps = v.profiles.filter(pred);
        lemma_filter_names_no_dup(v.profiles, pred);
        // Two distinct names: at least one of the first two profiles is not the active one.
        lemma_names_index(v.profiles, 0);
        lemma_names_index(v.profiles, 1);
        let keep = if v.profiles[0].0 != v.active { 0int } else { 1int };
        assert(pred(v.profiles[keep]));
        v.profiles.filter_lemma(pred);
        assert(ps.contains(v.profiles[keep]));
        assert(ps.len() > 0);
        let s2 = ProfileStateView { settings: ps[0].1, active: ps[0].0, profiles: ps };
        lemma_names_index(ps, 0);
        lemma_saved_keeps_names(s2);
    }
}

/// Deleting never leaves the profile set empty: a state with a profile keeps at least one.
pub proof fn lemma_delete_keeps_a_profile(v: ProfileStateView)
    requires
        v.profiles.len() >= 1,
    ensures
        delete_step(v).1.profiles.len() >= 1,
{
    if v.profiles.len() > 1 {
        let ps = v.profiles.filter(|p: ProfileView| not_named(p, v.active));
        if ps.len() > 0 {
            let s2 = ProfileStateView { settings: ps[0].1, active: ps[0].0, profiles: ps };
            lemma_first_named(s2.profiles, s2.active, 0);
        }
    }
}

proof fn lemma_filter_none(s: Seq<ProfileView>, pred: spec_fn(ProfileView) -> bool)
    requires
        forall|j: int| 0 <= j < s.len() ==> !pred(#[trigger] s[j]),
    ensures
        s.filter(pred).len() == 0,
    decreases s.len(),
{
    reveal(Seq::filter);
    if s.len() > 0 {
        let d = s.drop_last();
        assert forall|j: int| 0 <= j < d.len() implies !pred(#[trigger] d[j]) by {
            assert(d[j] == s[j]);
        }
        lemma_filter_none(d, pred);
        assert(!pred(s[s.len() - 1]));
    }
}

proof fn lemma_filter_first(s: Seq<ProfileView>, pred: spec_fn(ProfileView) -> bool, k: int)
    requires
        0 <= k < s.len(),
        pred(s[k]),
        forall|j: int| 0 <= j < k ==> !pred(#[trigger] s[j]),
    ensures
        s.filter(pred).len() > 0,
        s.filter(pred)[0] == s[k],
    decreases s.len(),
{
    reveal(Seq::filter);
    let d = s.drop_last();
    if k == s.len() - 1 {
        assert forall|j: int| 0 <= j < d.len() implies !pred(#[trigger] d[j]) by {
            assert(d[j] == s[j]);
        }
        lemma_filter_none(d, pred);
        assert(s.last() == s[k]);
    } else {
        assert(d[k] == s[k]);
        assert forall|j: int| 0 <= j < k implies !pred(#[trigger] d[j]) by {
            assert(d[j] == s[j]);
        }
        lemma_filter_first(d, pred, k);
    }
}

/// Deleting the active profile switches to whichever remains first: with at least two
/// profiles, the first profile (in stored order) not named like the active one becomes active,
/// its saved settings come into force and stay saved in its slot, which leads the list.
pub proof fn lemma_delete_activates_first_remaining(v: ProfileStateView, k: int)
    requires
        v.profiles.len() >= 2,
        0 <= k < v.profiles.len(),
        v.profiles[k].0 != v.active,
        forall|j: int| 0 <= j < k ==> #[trigger] v.profiles[j].0 == v.active,
    ensures
        ({
            let (kind, w) = delete_step(v);
            &&& kind == OutcomeKind::Activated
            &&& w.active == v.profiles[k].0
            &&& w.settings == v.profiles[k].1
            &&& w.profiles.len() >= 1
            &&& w.profiles[0] == v.profiles[k]
            &&& forall|j: int| 0 <= j < w.profiles.len() ==> #[trigger] w.profiles[j].0 != v.active
        }),
{
    let pred = |p: ProfileView| not_named(p, v.active);
    assert forall|j: int| 0 <= j < k implies !pred(#[trigger] v.profiles[j]) by {}
    lemma_filter_first(v.profiles, pred, k);
    let ps = v.profiles.filter(pred);
    let s2 = ProfileStateView { settings: ps[0].1, active: ps[0].0, profiles: ps };
    lemma_first_named_at(ps, ps[0].0, 0, 0);
    v.profiles.filter_lemma(pred);
    assert forall|j: int| 0 <= j < ps.len() implies #[trigger] ps[j].0 != v.active by {
        assert(pred(ps[j]));
    }
    let w = saved(s2);
    assert(w.profiles[0] == (ps[0].0, ps[0].1));
    assert forall|j: int| 0 <= j < w.profiles.len() implies #[trigger] w.profiles[j].0 != v.active by {
        if j != 0 {
            assert(w.profiles[j] == ps[j]);
        }
    }
}

/// Deleting the only profile is refused and changes nothing.
pub proof fn lemma_delete_refuses_last(v: ProfileStateView)
    requires
        v.profiles.len() <= 1,
    ensures
        delete_step(v) == (OutcomeKind::OnlyProfile, v),
{
}

/// Switching to an existing profile makes it active with the settings saved for it.
pub proof fn lemma_switch_to_existing(v: ProfileStateView, name: Seq<char>, i: int)
    requires
        0 <= i < v.profiles.len(),
        v.profiles[i].0 == name,
        name != v.active,
        names(v.profiles).no_duplicates(),
    ensures
        ({
            let (k, w) = switch_step(v, name);
            k == OutcomeKind::Activated && w.active == name && w.settings == v.profiles[i].1
        }),
{
    let s1 = saved(v);
    lemma_saved_keeps_names(v);
    lemma_first_named(v.profiles, v.active, 0);
    lemma_first_named(s1.profiles, name, 0);
    lemma_names_index(v.profiles, i);
    lemma_names_index(s1.profiles, i);
    let j = first_named(s1.profiles, name, 0)->0;
    lemma_names_index(s1.profiles, j);
    lemma_names_index(v.profiles, j);
    match first_named(v.profiles, v.active, 0) {
        Some(a) => {
            assert(a != j);
            assert(s1.profiles[j] == v.profiles[j]);
        },
        None => {},
    }
    let s2 = ProfileStateView { settings: s1.profiles[j].1, active: name, profiles: s1.profiles };
    lemma_saved_keeps_names(s2);
    if j != i {
        assert(names(v.profiles)[j] == names(v.profiles)[i]);
    }
}

/// Profiles keep their own settings: after creating a profile (a copy of the current one),
/// editing its settings and switching back to the original profile, the original's settings
/// are active again, and the new profile keeps the edits.
pub proof fn lemma_switch_back_restores(v: ProfileStateView, name: Seq<char>, edited: Settings)
    requires
        profiles_wf(v),
        trimmed(name).len() > 0,
        !names(v.profiles).contains(trimmed(name)),
    ensures
        ({
            let (k1, c) = create_step(v, name);
            let e = ProfileStateView { settings: edited, ..c };
            let (k2, w) = switch_step(e, v.active);
            &&& k1 == OutcomeKind::Saved
            &&& k2 == OutcomeKind::Activated
            &&& w.active == v.active
            &&& w.settings == v.settings
            &&& w.profiles.last() == (trimmed(name), edited)
        }),
{
    let t = trimmed(name);
    let i0 = lemma_wf_active_found(v);
    let s1 = saved(v);
    lemma_saved_keeps_names(v);
    assert(s1.profiles[i0] == (v.active, v.settings));
    let s2 = ProfileStateView {
        profiles: s1.profiles.push((t, s1.settings)),
        active: t,
        settings: s1.settings,
    };
    let n = s1.profiles.len() as int;
    lemma_names_index(s2.profiles, n);
    assert forall|j: int| 0 <= j < n implies #[trigger] s2.profiles[j].0 != t by {
        lemma_names_index(v.profiles, j);
        lemma_names_index(s1.profiles, j);
    }
    lemma_first_named_at(s2.profiles, t, 0, n);
    let c = saved(s2);
    assert(c.profiles == s2.profiles.update(n, (t, s1.settings)));
    assert(c.profiles[i0] == (v.active, v.settings));
    lemma_create_preserves_wf(v, name);
    let e = ProfileStateView { settings: edited, ..c };
    lemma_names_index(c.profiles, i0);
    lemma_switch_to_existing(e, v.active, i0);
    // Saving `e` writes the edits into the new profile, which is the last one.
    lemma_names_index(c.profiles, n);
    assert forall|j: int| 0 <= j < n implies #[trigger] e.profiles[j].0 != t by {
        assert(e.profiles[j] == s2.profiles[j]);
    }
    lemma_first_named_at(e.profiles, t, 0, n);
    let se = saved(e);
    assert(se.profiles[n] == (t, edited));
    lemma_saved_keeps_names(e);
    lemma_first_named(se.profiles, v.active, 0);
    let j = first_named(se.profiles, v.active, 0)->0;
    assert(j != n);
    let s3 = ProfileStateView { settings: se.profiles[j].1, active: v.active, profiles: se.profiles };
    lemma_saved_keeps_names(s3);
    lemma_first_named(se.profiles, v.active, 0);
    let w = saved(s3);
    assert(w.profiles[n] == se.profiles[n]);
}

} // verus!

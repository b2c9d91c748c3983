use pullsync::settings::{
    active_profile_name, create_profile, delete_active_profile, fallback_store, load,
    profile_names, rename_active_profile, save, switch_profile, ProfileOutcome, ProfileStore,
    Settings, StoredSettings, Profile,
};
use pullsync::ui::{clamp_count, overlay_frame, reset_appearance, OverlayText};
use pullsync::countdown::CountdownSnapshot;

fn fresh() -> pullsync::settings::ProfileState {
    load(StoredSettings::Missing)
}

#[test]
fn defaults() {
    let d = Settings::default();
    assert_eq!(d.start_count, 10);
    assert_eq!(f32::from_bits(d.overlay_pos_frac[0]), 0.42);
    assert_eq!(f32::from_bits(d.overlay_pos_frac[1]), 0.12);
    assert_eq!(f32::from_bits(d.overlay_font_size), 72.0);
    assert_eq!(f32::from_bits(d.overlay_color[2]), 1.0);
    assert!(d.overlay_locked && d.sound_enabled);
    assert_eq!(d.chat_message_template, "Pulling in {n}...");
    assert_eq!(d.chat_pull_text, "Pull!");
    assert_eq!(d.chat_cancel_text, "Pull cancelled.");
    assert!(!d.chat_countdown_enabled);
    assert_eq!(d.chat_countdown_start, 5);
    assert!(!d.auto_pull_after_ready_check && !d.use_squad_broadcast);
    let c = Settings::const_default();
    assert_eq!(c.chat_message_template, "");
    assert_eq!(c.start_count, 10);
}

#[test]
fn load_missing_or_corrupt_falls_back_to_default_profile() {
    for file in [StoredSettings::Missing, StoredSettings::Corrupt] {
        let st = load(file);
        assert_eq!(active_profile_name(&st), "Default");
        assert_eq!(profile_names(&st), vec!["Default".to_string()]);
        assert_eq!(st.settings.chat_pull_text, "Pull!");
    }
    let f = fallback_store();
    assert_eq!(f.active, "Default");
    assert_eq!(f.profiles.len(), 1);
}

#[test]
fn load_legacy_migrates_into_default_profile() {
    let mut s = Settings::default();
    s.start_count = 7;
    let st = load(StoredSettings::Legacy(s));
    assert_eq!(active_profile_name(&st), "Default");
    assert_eq!(st.settings.start_count, 7);
    assert_eq!(st.profiles.len(), 1);
}

#[test]
fn load_profiles_activates_recorded_or_first() {
    let mut a = Settings::default();
    a.start_count = 3;
    let mut b = Settings::default();
    b.start_count = 4;
    let store = ProfileStore {
        active: "Raid".to_string(),
        profiles: vec![
            Profile { name: "Fractals".to_string(), settings: a.clone() },
            Profile { name: "Raid".to_string(), settings: b.clone() },
        ],
    };
    let st = load(StoredSettings::Profiles(store.clone()));
    assert_eq!(active_profile_name(&st), "Raid");
    assert_eq!(st.settings.start_count, 4);
    let mut other = store.clone();
    other.active = "Gone".to_string();
    let st = load(StoredSettings::Profiles(other));
    assert_eq!(active_profile_name(&st), "Fractals");
    assert_eq!(st.settings.start_count, 3);
    let empty = ProfileStore { active: "X".to_string(), profiles: vec![] };
    let st = load(StoredSettings::Profiles(empty));
    assert_eq!(active_profile_name(&st), "Default");
    assert_eq!(st.settings.start_count, 10);
    assert_eq!(profile_names(&st), vec!["Default".to_string()]);
    assert_eq!(st.profiles[0].settings.start_count, 10);
}

#[test]
fn save_writes_settings_into_active_slot() {
    let mut st = fresh();
    st.settings.start_count = 42;
    let store = save(&mut st);
    assert_eq!(store.active, "Default");
    assert_eq!(store.profiles[0].settings.start_count, 42);
    assert_eq!(st.profiles[0].settings.start_count, 42);
}

#[test]
fn profiles_keep_their_own_settings() {
    let mut st = fresh();
    st.settings.start_count = 15;
    match create_profile(&mut st, "  Raid ") {
        ProfileOutcome::Saved(store) => assert_eq!(store.active, "Raid"),
        other => panic!("unexpected {:?}", other),
    }
    assert_eq!(active_profile_name(&st), "Raid");
    assert_eq!(profile_names(&st), vec!["Default".to_string(), "Raid".to_string()]);
    assert_eq!(st.settings.start_count, 15);
    st.settings.start_count = 30;
    match switch_profile(&mut st, "Default") {
        ProfileOutcome::Activated(_) => {}
        other => panic!("unexpected {:?}", other),
    }
    assert_eq!(st.settings.start_count, 15);
    match switch_profile(&mut st, "Raid") {
        ProfileOutcome::Activated(_) => {}
        other => panic!("unexpected {:?}", other),
    }
    assert_eq!(st.settings.start_count, 30);
}

#[test]
fn switch_to_unknown_profile_only_saves() {
    let mut st = fresh();
    st.settings.start_count = 9;
    match switch_profile(&mut st, "Nope") {
        ProfileOutcome::Saved(store) => assert_eq!(store.profiles[0].settings.start_count, 9),
        other => panic!("unexpected {:?}", other),
    }
    assert_eq!(active_profile_name(&st), "Default");
}

#[test]
fn create_refuses_blank_and_taken_names() {
    let mut st = fresh();
    assert!(matches!(create_profile(&mut st, "   "), ProfileOutcome::Unchanged));
    assert!(matches!(create_profile(&mut st, " Default "), ProfileOutcome::NameTaken));
    assert_eq!(st.profiles.len(), 1);
}

#[test]
fn rename_active_profile_rules() {
    let mut st = fresh();
    assert!(matches!(rename_active_profile(&mut st, " "), ProfileOutcome::Unchanged));
    assert!(matches!(rename_active_profile(&mut st, "Default"), ProfileOutcome::Unchanged));
    create_profile(&mut st, "Raid");
    assert!(matches!(rename_active_profile(&mut st, "Default"), ProfileOutcome::NameTaken));
    assert!(matches!(rename_active_profile(&mut st, " Strikes "), ProfileOutcome::Saved(_)));
    assert_eq!(active_profile_name(&st), "Strikes");
    assert_eq!(profile_names(&st), vec!["Default".to_string(), "Strikes".to_string()]);
}

#[test]
fn delete_refuses_last_and_falls_back_to_first() {
    let mut st = fresh();
    assert!(matches!(delete_active_profile(&mut st), ProfileOutcome::OnlyProfile));
    assert_eq!(st.profiles.len(), 1);
    st.settings.start_count = 11;
    save(&mut st);
    create_profile(&mut st, "Raid");
    st.settings.start_count = 25;
    match delete_active_profile(&mut st) {
        ProfileOutcome::Activated(store) => assert_eq!(store.active, "Default"),
        other => panic!("unexpected {:?}", other),
    }
    assert_eq!(active_profile_name(&st), "Default");
    assert_eq!(st.settings.start_count, 11);
    assert_eq!(profile_names(&st), vec!["Default".to_string()]);
}

#[test]
fn clamp_count_bounds() {
    assert_eq!(clamp_count(-5), 1);
    assert_eq!(clamp_count(0), 1);
    assert_eq!(clamp_count(1), 1);
    assert_eq!(clamp_count(500), 500);
    assert_eq!(clamp_count(999), 999);
    assert_eq!(clamp_count(1000), 999);
}

#[test]
fn reset_appearance_restores_defaults_only() {
    let mut s = Settings::default();
    s.overlay_font_size = 100.0f32.to_bits();
    s.overlay_color = [0, 0, 0];
    s.overlay_pos_frac = [0, 0];
    s.start_count = 33;
    reset_appearance(&mut s);
    assert_eq!(f32::from_bits(s.overlay_font_size), 72.0);
    assert_eq!(s.overlay_color, [1.0f32.to_bits(); 3]);
    assert_eq!(f32::from_bits(s.overlay_pos_frac[0]), 0.42);
    assert_eq!(s.start_count, 33);
}

#[test]
fn overlay_frames() {
    let s = Settings::default();
    let f = overlay_frame(None, true, &s);
    assert!(!f.visible);
    let f = overlay_frame(None, false, &s);
    assert!(f.visible);
    assert_eq!(f.text, OverlayText::Preview);
    let snap = CountdownSnapshot { remaining: 4, is_pull: false, just_reached_pull: false, just_entered_countdown_sound_window: true };
    let f = overlay_frame(Some(snap), true, &s);
    assert!(f.visible);
    assert_eq!(f.text, OverlayText::Count(4));
    assert!(f.play_countdown_sound && !f.play_pull_sound);
    let snap = CountdownSnapshot { remaining: 0, is_pull: true, just_reached_pull: true, just_entered_countdown_sound_window: false };
    let f = overlay_frame(Some(snap), true, &s);
    assert_eq!(f.text, OverlayText::Pull);
    assert!(f.play_pull_sound);
    let mut quiet = Settings::default();
    quiet.sound_enabled = false;
    let f = overlay_frame(Some(snap), true, &quiet);
    assert!(!f.play_pull_sound);
}

#[test]
fn delete_refuses_when_every_profile_has_the_active_name() {
    let store = ProfileStore {
        active: "A".to_string(),
        profiles: vec![
            Profile { name: "A".to_string(), settings: Settings::default() },
            Profile { name: "A".to_string(), settings: Settings::default() },
        ],
    };
    let mut st = load(StoredSettings::Profiles(store));
    assert!(matches!(delete_active_profile(&mut st), ProfileOutcome::OnlyProfile));
    assert_eq!(st.profiles.len(), 2);
    assert_eq!(active_profile_name(&st), "A");
}

//! The decisions behind what the overlay shows each frame and how edited settings are stored.

use vstd::prelude::*;
use crate::countdown::CountdownSnapshot;
use crate::settings::Settings;

verus! {

/// The text the overlay shows.
#[derive(Debug, Clone, Copy, PartialEq, Eq, Structural)]
pub enum OverlayText {
    /// "PULL!", in the fixed red flash colour.
    Pull,
    /// The seconds left, in the configured colour.
    Count(u32),
    /// The "10" preview shown while the overlay is unlocked for positioning.
    Preview,
}

/// What one frame of the overlay does.
#[derive(Debug, Clone, Copy)]
pub struct OverlayFrame {
    /// Whether the overlay is drawn at all.
    pub visible: bool,
    pub text: OverlayText,
    /// Start the countdown sound on this frame.
    pub play_countdown_sound: bool,
    /// Play the "PULL!" sound on this frame.
    pub play_pull_sound: bool,
}

/// What the overlay does for one frame, given this frame's countdown snapshot, whether the
/// overlay is locked in place, and whether sounds are enabled.
pub open spec fn frame_for(snapshot: Option<CountdownSnapshot>, locked: bool, sound: bool) -> OverlayFrame {
    match snapshot {
        None => OverlayFrame {
            visible: !locked,
            text: OverlayText::Preview,
            play_countdown_sound: false,
            play_pull_sound: false,
        },
        Some(s) => OverlayFrame {
            visible: true,
            text: if s.is_pull { OverlayText::Pull } else { OverlayText::Count(s.remaining) },
            play_countdown_sound: sound && s.just_entered_countdown_sound_window,
            play_pull_sound: sound && s.just_reached_pull,
        },
    }
}

/// Decides one overlay frame: nothing to show and not being positioned stays hidden; a running
/// countdown shows its seconds, or "PULL!" at zero; an unlocked overlay with no countdown shows
/// a preview. The sounds fire on the frames the snapshot marks, if enabled.
pub fn overlay_frame(snapshot: Option<CountdownSnapshot>, locked: bool, settings: &Settings) -> (r:
    OverlayFrame)
    ensures
        r == frame_for(snapshot, locked, settings.sound_enabled),
        r.play_countdown_sound ==> settings.sound_enabled,
        r.play_pull_sound ==> settings.sound_enabled,
        r.play_countdown_sound <==> (settings.sound_enabled && snapshot is Some
            && snapshot->0.just_entered_countdown_sound_window),
        r.play_pull_sound <==> (settings.sound_enabled && snapshot is Some
            && snapshot->0.just_reached_pull),
{
    match snapshot {
        None => OverlayFrame {
            visible: !locked,
            text: OverlayText::Preview,
            play_countdown_sound: false,
            play_pull_sound: false,
        },
        Some(s) => OverlayFrame {
            visible: true,
            text: if s.is_pull {
                OverlayText::Pull
            } else {
                OverlayText::Count(s.remaining)
            },
            play_countdown_sound: settings.sound_enabled && s.just_entered_countdown_sound_window,
            play_pull_sound: settings.sound_enabled && s.just_reached_pull,
        },
    }
}

/// With sounds disabled no frame asks for either sound; with them enabled a frame asks for the
/// countdown sound exactly when its snapshot has just entered the sound window, and for the
/// "PULL!" sound exactly when its snapshot has just reached zero. What is drawn does not depend
/// on the sound setting.
pub proof fn lemma_frame_sounds_follow_setting(
    snapshot: Option<CountdownSnapshot>,
    locked: bool,
    sound: bool,
)
    ensures
        frame_for(snapshot, locked, sound).play_countdown_sound ==> sound,
        frame_for(snapshot, locked, sound).play_pull_sound ==> sound,
        !sound ==> !frame_for(snapshot, locked, sound).play_countdown_sound
            && !frame_for(snapshot, locked, sound).play_pull_sound,
        sound ==> (frame_for(snapshot, locked, sound).play_countdown_sound <==> (snapshot is Some
            && snapshot->0.just_entered_countdown_sound_window)),
        sound ==> (frame_for(snapshot, locked, sound).play_pull_sound <==> (snapshot is Some
            && snapshot->0.just_reached_pull)),
        frame_for(snapshot, locked, sound).visible == frame_for(snapshot, locked, !sound).visible,
        frame_for(snapshot, locked, sound).text == frame_for(snapshot, locked, !sound).text,
{
}

/// A number typed into one of the count fields, clamped to 1..=999.
pub fn clamp_count(value: i32) -> (r: u32)
    ensures
        r == (if value < 1 {
            1
        } else if value > 999 {
            999
        } else {
            value
        }),
{
    if value < 1 {
        1
    } else if value > 999 {
        999
    } else {
        value as u32
    }
}

/// "Reset appearance": position, size and colour back to their defaults; everything else kept.
pub fn reset_appearance(settings: &mut Settings)
    ensures
        *final(settings) == (Settings {
            overlay_pos_frac: [0x3ED7_0A3Du32, 0x3DF5_C28Fu32],
            overlay_font_size: 0x4290_0000,
            overlay_color: [0x3F80_0000u32, 0x3F80_0000u32, 0x3F80_0000u32],
            ..*old(settings)
        }),
{
    let defaults = Settings::const_default();
    settings.overlay_pos_frac = defaults.overlay_pos_frac;
    settings.overlay_font_size = defaults.overlay_font_size;
    settings.overlay_color = defaults.overlay_color;
}

} // verus!

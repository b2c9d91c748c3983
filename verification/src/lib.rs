//! Verified core of PullSync, a commander-only pull countdown for Guild Wars 2 squads.

pub mod text;
pub mod countdown;
pub mod extras_squad;
pub mod squad;
pub mod state;
pub mod chat_send;
pub mod chat_listen;
pub mod settings;
pub mod ready_check;
pub mod sound;
pub mod ui;

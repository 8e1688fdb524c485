//! Desktop-shell behaviour: what the taskbar scroll adjusts, the launcher
//! and taskbar rules, palette placement, power actions and persisted state.

pub mod audio;
pub mod audio_osd;
pub mod audio_hook;
pub mod launcher_watch;
pub mod taskbar;
pub mod taskbar_alignment;
pub mod power;
pub mod state;
pub mod palette;
pub mod hook;
pub mod icon_file;
pub mod customization;
pub mod provider;
pub mod drag;
pub mod shortcut;

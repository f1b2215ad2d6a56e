//! Decision logic of the Doubao voice input client: the bridge protocol and
//! session text, live-text planning and the transcript editor, shortcut
//! parsing and X11 key grabs, background palette selection, glass material
//! policy, settings validation, and the overlay's session state.

pub mod backdrop;
pub mod bridge;
pub mod glass_background;
pub mod glass_bake;
pub mod glass_policy;
pub mod glass_probe;
pub mod gnome_shortcuts;
pub mod text;
pub mod linux_paste;
pub mod linux_session;
pub mod linux_shortcut;
pub mod live_text;
pub mod overlay;
pub mod overlay_state;
pub mod portal;
pub mod preroll;
pub mod ring_sampling;
pub mod session_flow;
pub mod settings;
pub mod transcript_editor;
pub mod tray;
pub mod tray_icon;
pub mod voice_config;
pub mod voice_glass;
pub mod wide;
pub mod x11_keymap;

//! Routing, theming and window-state logic of a Tauri tool plugin, specified
//! and proved with Verus.

pub mod text;
pub mod name_map;
pub mod parser;
pub mod routing;
pub mod scripts;
pub mod templates;
pub mod themes;
pub mod window_states;
pub mod windows;
pub mod github;

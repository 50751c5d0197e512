//! Decisions behind the desktop UI: theme colors, syntax highlighting,
//! labels and the setup screen's error text.
pub mod hex_color;
pub mod highlight;
pub mod setup_view;
pub mod settings;
pub mod remote_button;
pub mod tab_bar;
pub mod languages;

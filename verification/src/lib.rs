//! The logic of the Bangs notch: lyric parsing and matching, the activity
//! board, developer-session summaries, clipboard history rules, settings,
//! to-dos, language choice and release checks.

pub mod text;
pub mod numbers;
pub mod update;
pub mod i18n;
pub mod sort;
pub mod lyrics;
pub mod activities;
pub mod dev;
pub mod settings;
pub mod tray;
pub mod todos;
pub mod paste;
pub mod data_url;
pub mod clipboard;
pub mod shelf;
pub mod media;

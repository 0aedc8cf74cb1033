pub mod backup;
pub mod clipboard;
pub mod config;
pub mod database;
pub mod desktop;
pub mod profile;
pub mod store;
pub mod text;
pub mod timestamp;
pub mod updater;

pub use clipboard::ClipboardMonitor;
pub use config::{Config, Keybindings, Privacy, Retention, ThemePreference};
pub use database::ClipboardEntry;
pub use profile::{Platform, Profile};
pub use store::{profile_from_parts, ClipboardEntryRecord, ConfigRecord, YanklogError};
pub use timestamp::format_timestamp;

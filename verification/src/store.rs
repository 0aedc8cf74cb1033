//! The plain records that the history store hands to other front ends, and
//! the profile that a platform name selects.
use vstd::prelude::*;

use crate::config::{theme_from_name, theme_name, Config, ThemePreference};
use crate::database::ClipboardEntry;
use crate::profile::{spec_platform_name, Platform, Profile};
use crate::text::{chars_of, same_chars};
use crate::timestamp::{format_timestamp, is_shown_time};

verus! {

/// The error that the store reports.
#[derive(Debug, Clone)]
pub enum YanklogError {
    Message { message: String },
}

impl YanklogError {
    pub open spec fn message_view(self) -> Seq<char> {
        match self {
            YanklogError::Message { message } => message@,
        }
    }
}

/// A history entry with its timestamp also shown relative to now.
#[derive(Debug, Clone)]
pub struct ClipboardEntryRecord {
    pub id: i64,
    pub content: String,
    pub content_type: String,
    pub timestamp: String,
    pub relative_timestamp: String,
    pub is_favorite: bool,
}

impl ClipboardEntryRecord {
    /// The record of an entry; its relative time is `format_timestamp` of the
    /// entry's timestamp.
    pub fn from_entry(entry: ClipboardEntry) -> (r: Self)
        ensures
            r.id == entry.id,
            r.content == entry.content,
            r.content_type == entry.content_type,
            r.timestamp == entry.timestamp,
            r.is_favorite == entry.is_favorite,
            is_shown_time(entry.timestamp@, r.relative_timestamp@),
    {
        let relative_timestamp = format_timestamp(entry.timestamp.as_str());
        Self {
            relative_timestamp,
            id: entry.id,
            content: entry.content,
            content_type: entry.content_type,
            timestamp: entry.timestamp,
            is_favorite: entry.is_favorite,
        }
    }
}

/// The settings as plain values. The quick picker opacity is the bits of its
/// `f64`, as in `Keybindings`.
#[derive(Debug, Clone)]
pub struct ConfigRecord {
    pub max_history_size: u64,
    pub max_preview_length: u64,
    pub poll_interval_ms: u64,
    pub quick_pick_shortcut: String,
    pub quick_pick_items: u64,
    pub quick_pick_opacity_bits: u64,
    pub retention_days: u32,
    pub ignore_secret_like: bool,
    pub ignore_one_time_codes: bool,
    pub min_text_length: u64,
    pub max_text_length: u64,
    pub ignored_patterns: Vec<String>,
    pub theme: String,
    pub launch_at_startup: bool,
}

/// `r` holds the settings of `c`.
pub open spec fn is_record_of(c: Config, r: ConfigRecord) -> bool {
    &&& r.max_history_size == c.max_history_size as u64
    &&& r.max_preview_length == c.max_preview_length as u64
    &&& r.poll_interval_ms == c.poll_interval_ms
    &&& r.quick_pick_shortcut == c.keybindings.quick_pick
    &&& r.quick_pick_items == c.keybindings.quick_pick_items as u64
    &&& r.quick_pick_opacity_bits == c.keybindings.quick_pick_opacity_bits
    &&& r.retention_days == c.retention.max_age_days
    &&& r.ignore_secret_like == c.privacy.ignore_secret_like
    &&& r.ignore_one_time_codes == c.privacy.ignore_one_time_codes
    &&& r.min_text_length == c.privacy.min_text_length as u64
    &&& r.max_text_length == c.privacy.max_text_length as u64
    &&& r.ignored_patterns == c.privacy.ignored_patterns
    &&& r.theme@ == theme_name(c.theme)
    &&& r.launch_at_startup == c.launch_at_startup
}

/// `out` is `base` with the settings of `r` written over it.
pub open spec fn is_applied(r: ConfigRecord, base: Config, out: Config) -> bool {
    &&& out.max_history_size == r.max_history_size as usize
    &&& out.max_preview_length == r.max_preview_length as usize
    &&& out.poll_interval_ms == r.poll_interval_ms
    &&& out.keybindings.quick_pick == r.quick_pick_shortcut
    &&& out.keybindings.quick_pick_items == r.quick_pick_items as usize
    &&& out.keybindings.quick_pick_opacity_bits == r.quick_pick_opacity_bits
    &&& out.retention.max_age_days == r.retention_days
    &&& out.privacy.ignore_secret_like == r.ignore_secret_like
    &&& out.privacy.ignore_one_time_codes == r.ignore_one_time_codes
    &&& out.privacy.min_text_length == r.min_text_length as usize
    &&& out.privacy.max_text_length == r.max_text_length as usize
    &&& out.privacy.ignored_patterns == r.ignored_patterns
    &&& out.theme == theme_from_name(r.theme@)
    &&& out.launch_at_startup == r.launch_at_startup
    &&& out.window_width == base.window_width
    &&& out.window_height == base.window_height
}

impl ConfigRecord {
    /// The record of a configuration.
    pub fn from_config(config: Config) -> (r: Self)
        ensures
            is_record_of(config, r),
    {
        let theme = String::from_str(config.theme.as_str());
        Self {
            max_history_size: config.max_history_size as u64,
            max_preview_length: config.max_preview_length as u64,
            poll_interval_ms: config.poll_interval_ms,
            quick_pick_shortcut: config.keybindings.quick_pick,
            quick_pick_items: config.keybindings.quick_pick_items as u64,
            quick_pick_opacity_bits: config.keybindings.quick_pick_opacity_bits,
            retention_days: config.retention.max_age_days,
            ignore_secret_like: config.privacy.ignore_secret_like,
            ignore_one_time_codes: config.privacy.ignore_one_time_codes,
            min_text_length: config.privacy.min_text_length as u64,
            max_text_length: config.privacy.max_text_length as u64,
            ignored_patterns: config.privacy.ignored_patterns,
            theme,
            launch_at_startup: config.launch_at_startup,
        }
    }

    /// The configuration `base` with this record's settings written over it;
    /// the theme is read from its name.
    pub fn apply_to(self, base: Config) -> (r: Config)
        ensures
            is_applied(self, base, r),
    {
        let mut config = base;
        config.max_history_size = self.max_history_size as usize;
        config.max_preview_length = self.max_preview_length as usize;
        config.poll_interval_ms = self.poll_interval_ms;
        config.keybindings.quick_pick = self.quick_pick_shortcut;
        config.keybindings.quick_pick_items = self.quick_pick_items as usize;
        config.keybindings.quick_pick_opacity_bits = self.quick_pick_opacity_bits;
        config.retention.max_age_days = self.retention_days;
        config.privacy.ignore_secret_like = self.ignore_secret_like;
        config.privacy.ignore_one_time_codes = self.ignore_one_time_codes;
        config.privacy.min_text_length = self.min_text_length as usize;
        config.privacy.max_text_length = self.max_text_length as usize;
        config.privacy.ignored_patterns = self.ignored_patterns;
        config.theme = ThemePreference::from_name(self.theme.as_str());
        config.launch_at_startup = self.launch_at_startup;
        config
    }
}

/// Saving the record of a configuration over any base gives the
/// configuration back, but for the window size, which the record does not
/// hold and which stays the base's.
pub proof fn lemma_config_record_round_trip(c: Config, r: ConfigRecord, base: Config, out: Config)
    requires
        is_record_of(c, r),
        is_applied(r, base, out),
    ensures
        out == (Config { window_width: base.window_width, window_height: base.window_height, ..c }),
{
    crate::config::lemma_theme_name_round_trip(c.theme);
    assert(out.keybindings == c.keybindings);
    assert(out.retention == c.retention);
    assert(out.privacy == c.privacy);
}

/// The profile that a platform name selects: `linux` or `macos`.
pub open spec fn spec_profile_from_parts(platform: Seq<char>, dev: bool) -> Result<
    Profile,
    Seq<char>,
> {
    if platform == "linux"@ {
        Ok(Profile { platform: Platform::Linux, dev })
    } else if platform == "macos"@ {
        Ok(Profile { platform: Platform::MacOS, dev })
    } else {
        Err("Unsupported platform: "@ + platform)
    }
}

pub open spec fn profile_result_view(r: Result<Profile, YanklogError>) -> Result<
    Profile,
    Seq<char>,
> {
    match r {
        Ok(p) => Ok(p),
        Err(e) => Err(e.message_view()),
    }
}

/// The profile of a platform name and build kind.
pub fn profile_from_parts(platform: &str, dev: bool) -> (r: Result<Profile, YanklogError>)
    ensures
        profile_result_view(r) == spec_profile_from_parts(platform@, dev),
{
    let name = chars_of(platform);
    let linux = chars_of("linux");
    let macos = chars_of("macos");
    if same_chars(name.as_slice(), linux.as_slice()) {
        Ok(Profile::new(Platform::Linux, dev))
    } else if same_chars(name.as_slice(), macos.as_slice()) {
        Ok(Profile::new(Platform::MacOS, dev))
    } else {
        let mut message = String::from_str("Unsupported platform: ");
        message.append(platform);
        Err(YanklogError::Message { message })
    }
}

/// A profile's platform name selects that profile again.
pub proof fn lemma_platform_name_round_trip(p: Profile)
    ensures
        spec_profile_from_parts(spec_platform_name(p.platform), p.dev) == Ok::<
            Profile,
            Seq<char>,
        >(p),
{
    reveal_strlit("linux");
    reveal_strlit("macos");
    assert("linux"@[0] != "macos"@[0]);
}

} // verus!

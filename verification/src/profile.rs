//! Which build of the app runs (platform, development or release), and the
//! names and paths that follow from it.
use vstd::prelude::*;

use crate::text::{chars_of, opt_view, push_char};


verus! {

#[derive(Debug, Clone, Copy, PartialEq, Eq, Structural)]
pub enum Platform {
    Linux,
    MacOS,
}

#[derive(Debug, Clone, Copy, PartialEq, Eq, Structural)]
pub struct Profile {
    pub platform: Platform,
    pub dev: bool,
}

pub open spec fn spec_platform_name(p: Platform) -> Seq<char> {
    match p {
        Platform::Linux => "linux"@,
        Platform::MacOS => "macos"@,
    }
}

pub open spec fn spec_display_name(dev: bool) -> Seq<char> {
    if dev {
        "yanklog dev"@
    } else {
        "yanklog"@
    }
}

pub open spec fn spec_app_dir_name(p: Profile) -> Seq<char> {
    match (p.platform, p.dev) {
        (Platform::Linux, false) => "yanklog"@,
        (Platform::Linux, true) => "yanklog-dev"@,
        (Platform::MacOS, false) => "YankLog"@,
        (Platform::MacOS, true) => "YankLog Dev"@,
    }
}

pub open spec fn spec_lock_file_name(dev: bool) -> Seq<char> {
    if dev {
        "yanklog-dev.lock"@
    } else {
        "yanklog.lock"@
    }
}

/// What `Path::join` gives on Unix for a base path and one more part: an
/// absolute part (one that starts with `/`) replaces the base; otherwise the
/// part follows the base, after a `/` unless the base is empty or already
/// ends with one.
pub open spec fn joined_path(base: Seq<char>, part: Seq<char>) -> Seq<char> {
    if part.len() > 0 && part[0] == '/' {
        part
    } else if base.len() == 0 || base.last() == '/' {
        base + part
    } else {
        base + seq!['/'] + part
    }
}

/// Appends a part to a path as `Path::join` does on Unix (Linux and macOS,
/// where the app runs).
pub fn join_path(base: &str, part: &str) -> (r: String)
    ensures
        r@ == joined_path(base@, part@),
{
    let part_chars = chars_of(part);
    if part_chars.len() > 0 && part_chars[0] == '/' {
        return String::from_str(part);
    }
    let base_chars = chars_of(base);
    let mut out = String::from_str(base);
    if base_chars.len() > 0 && base_chars[base_chars.len() - 1] != '/' {
        push_char(&mut out, '/');
    }
    out.append(part);
    out
}

/// The user's configuration directory, from `dirs::config_dir`, as text.
/// It depends on the environment, so nothing is promised of it.
#[verifier::external_body]
fn user_config_dir() -> (r: Option<String>) {
    dirs::config_dir().map(|path| path.to_string_lossy().into_owned())
}

/// The user's local data directory, from `dirs::data_local_dir`, as text.
/// It depends on the environment, so nothing is promised of it.
#[verifier::external_body]
fn user_data_local_dir() -> (r: Option<String>) {
    dirs::data_local_dir().map(|path| path.to_string_lossy().into_owned())
}

/// The base directory: the one found, or the current directory `.`.
pub open spec fn base_or_current(base: Option<Seq<char>>) -> Seq<char> {
    match base {
        Some(b) => b,
        None => "."@,
    }
}

pub open spec fn spec_config_path_in(p: Profile, base: Option<Seq<char>>) -> Seq<char> {
    joined_path(joined_path(base_or_current(base), spec_app_dir_name(p)), "config.toml"@)
}

pub open spec fn spec_data_dir_in(p: Profile, base: Option<Seq<char>>) -> Seq<char> {
    joined_path(base_or_current(base), spec_app_dir_name(p))
}

impl Profile {
    pub fn new(platform: Platform, dev: bool) -> (r: Self)
        ensures
            r.platform == platform,
            r.dev == dev,
    {
        Self { platform, dev }
    }

    pub fn platform_name(&self) -> (r: &'static str)
        ensures
            r@ == spec_platform_name(self.platform),
    {
        match self.platform {
            Platform::Linux => "linux",
            Platform::MacOS => "macos",
        }
    }

    pub fn display_name(&self) -> (r: &'static str)
        ensures
            r@ == spec_display_name(self.dev),
    {
        if self.dev {
            "yanklog dev"
        } else {
            "yanklog"
        }
    }

    pub fn app_dir_name(&self) -> (r: &'static str)
        ensures
            r@ == spec_app_dir_name(*self),
    {
        match (self.platform, self.dev) {
            (Platform::Linux, false) => "yanklog",
            (Platform::Linux, true) => "yanklog-dev",
            (Platform::MacOS, false) => "YankLog",
            (Platform::MacOS, true) => "YankLog Dev",
        }
    }

    pub fn lock_file_name(&self) -> (r: &'static str)
        ensures
            r@ == spec_lock_file_name(self.dev),
    {
        if self.dev {
            "yanklog-dev.lock"
        } else {
            "yanklog.lock"
        }
    }

    /// The configuration file under a given configuration directory (the
    /// current directory when there is none).
    pub fn config_path_in(&self, config_dir: Option<String>) -> (r: String)
        ensures
            r@ == spec_config_path_in(*self, opt_view(config_dir)),
    {
        let base = match config_dir {
            Some(dir) => dir,
            None => String::from_str("."),
        };
        let app_dir = join_path(base.as_str(), self.app_dir_name());
        join_path(app_dir.as_str(), "config.toml")
    }

    /// The data directory under a given local data directory (the current
    /// directory when there is none).
    pub fn data_dir_in(&self, data_local_dir: Option<String>) -> (r: String)
        ensures
            r@ == spec_data_dir_in(*self, opt_view(data_local_dir)),
    {
        let base = match data_local_dir {
            Some(dir) => dir,
            None => String::from_str("."),
        };
        join_path(base.as_str(), self.app_dir_name())
    }

    /// `config.toml` in this profile's directory under the user's
    /// configuration directory.
    pub fn config_path(&self) -> (r: String)
        ensures
            exists|base: Option<Seq<char>>| r@ == spec_config_path_in(*self, base),
    {
        let r = self.config_path_in(user_config_dir());
        r
    }

    /// This profile's directory under the user's local data directory.
    pub fn data_dir(&self) -> (r: String)
        ensures
            exists|base: Option<Seq<char>>| r@ == spec_data_dir_in(*self, base),
    {
        let r = self.data_dir_in(user_data_local_dir());
        r
    }
}

} // verus!

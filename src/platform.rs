//! Platform classification of asset file names and path segments.

use vstd::prelude::*;
use crate::error::ErrorKind;
use crate::text::{chars_of, contains, contains_exec, ends_with, ends_with_exec};

verus! {

/// A target platform, or the file name itself when no rule recognises it.
#[derive(Clone, Debug, PartialEq, Eq)]
pub enum Platform {
    MacOS,
    Windows,
    Linux,
    Unrecognized(String),
}

/// The mathematical value of a [`Platform`].
pub enum PlatformModel {
    MacOS,
    Windows,
    Linux,
    Unrecognized(Seq<char>),
}

impl View for Platform {
    type V = PlatformModel;

    open spec fn view(&self) -> PlatformModel {
        match self {
            Platform::MacOS => PlatformModel::MacOS,
            Platform::Windows => PlatformModel::Windows,
            Platform::Linux => PlatformModel::Linux,
            Platform::Unrecognized(s) => PlatformModel::Unrecognized(s@),
        }
    }
}

pub open spec fn is_mac_name(s: Seq<char>) -> bool {
    contains(s, "mac"@) || contains(s, "osx"@) || contains(s, "darwin"@) || ends_with(s, ".dmg"@)
        || ends_with(s, ".dmg.blockmap"@)
}

pub open spec fn is_linux_name(s: Seq<char>) -> bool {
    contains(s, "linux"@) || contains(s, "ubuntu"@) || ends_with(s, ".deb"@) || ends_with(
        s,
        ".rpm"@,
    ) || ends_with(s, ".tgz"@) || ends_with(s, ".tar.gz"@) || ends_with(s, ".AppImage"@)
}

pub open spec fn is_windows_name(s: Seq<char>) -> bool {
    contains(s, "win"@) || ends_with(s, ".exe"@)
}

/// The platform of a file name: the macOS rules first, then Linux, then
/// Windows; a name that none matches stays unrecognised.
pub open spec fn platform_of(s: Seq<char>) -> PlatformModel {
    if is_mac_name(s) {
        PlatformModel::MacOS
    } else if is_linux_name(s) {
        PlatformModel::Linux
    } else if is_windows_name(s) {
        PlatformModel::Windows
    } else {
        PlatformModel::Unrecognized(s)
    }
}

/// Classifies a file name by its substrings and suffixes.
pub fn classify_platform(name: &str) -> (r: Platform)
    ensures
        r@ == platform_of(name@),
{
    let s = chars_of(name);
    if contains_exec(&s, "mac") || contains_exec(&s, "osx") || contains_exec(&s, "darwin")
        || ends_with_exec(&s, ".dmg") || ends_with_exec(&s, ".dmg.blockmap") {
        return Platform::MacOS;
    }
    if contains_exec(&s, "linux") || contains_exec(&s, "ubuntu") || ends_with_exec(&s, ".deb")
        || ends_with_exec(&s, ".rpm") || ends_with_exec(&s, ".tgz") || ends_with_exec(
        &s,
        ".tar.gz",
    ) || ends_with_exec(&s, ".AppImage") {
        return Platform::Linux;
    }
    if contains_exec(&s, "win") || ends_with_exec(&s, ".exe") {
        return Platform::Windows;
    }
    Platform::Unrecognized(String::from_str(name))
}

impl Platform {
    /// Whether two platforms are the same value.
    pub fn same_as(&self, o: &Platform) -> (r: bool)
        ensures
            r == (self@ == o@),
    {
        match self {
            Platform::MacOS => match o {
                Platform::MacOS => true,
                _ => false,
            },
            Platform::Windows => match o {
                Platform::Windows => true,
                _ => false,
            },
            Platform::Linux => match o {
                Platform::Linux => true,
                _ => false,
            },
            Platform::Unrecognized(a) => match o {
                Platform::Unrecognized(b) => *a == *b,
                _ => false,
            },
        }
    }

    /// Detects a platform from a given file name; an unrecognised name is an
    /// error that carries the name.
    pub fn detect_from_filename(name: &str) -> (r: Result<Platform, ErrorKind>)
        ensures
            match platform_of(name@) {
                PlatformModel::Unrecognized(_) => r matches Err(ErrorKind::UnknownPlatform(n))
                    && n@ == name@,
                m => r matches Ok(p) && p@ == m,
            },
    {
        match classify_platform(name) {
            Platform::Unrecognized(n) => Err(ErrorKind::UnknownPlatform(n)),
            p => Ok(p),
        }
    }

    /// The short name used in download paths.
    pub fn to_string(&self) -> (r: String)
        ensures
            r@ == match self@ {
                PlatformModel::MacOS => "osx"@,
                PlatformModel::Windows => "win"@,
                PlatformModel::Linux => "linux"@,
                PlatformModel::Unrecognized(s) => s,
            },
    {
        match self {
            Platform::MacOS => String::from_str("osx"),
            Platform::Windows => String::from_str("win"),
            Platform::Linux => String::from_str("linux"),
            Platform::Unrecognized(s) => s.clone(),
        }
    }
}

} // verus!

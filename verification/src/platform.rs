//! The platform whose conventions a decision follows.

use vstd::prelude::*;

verus! {

/// The family of operating systems that a working copy lives on.
#[derive(Clone, Copy, Debug, PartialEq, Eq, Structural)]
pub enum Platform {
    Unix,
    Windows,
}

impl Platform {
    /// The character that separates names in filesystem paths.
    pub open spec fn separator(self) -> char {
        match self {
            Platform::Unix => '/',
            Platform::Windows => '\\',
        }
    }

    /// The character that separates names in filesystem paths.
    pub fn main_separator(self) -> (r: char)
        ensures
            r == self.separator(),
    {
        match self {
            Platform::Unix => '/',
            Platform::Windows => '\\',
        }
    }

    /// The platform that a separator of names belongs to: Unix for a slash, and
    /// Windows for any other.
    pub open spec fn with_separator(separator: char) -> Platform {
        if separator == '/' {
            Platform::Unix
        } else {
            Platform::Windows
        }
    }

    /// Whether this is the platform of a separator that the running program can
    /// be given as its own.
    pub closed spec fn is_host(self) -> bool {
        exists|separator: char| #[trigger]
            call_ensures(host_separator, (), separator) && self == Platform::with_separator(
                separator,
            )
    }

    /// The platform that a separator of names belongs to.
    pub fn from_separator(separator: char) -> (r: Platform)
        ensures
            r == Platform::with_separator(separator),
    {
        if separator == '/' {
            Platform::Unix
        } else {
            Platform::Windows
        }
    }

    /// The platform that this program runs on: the one that its separator of
    /// names belongs to.
    pub fn host() -> (r: Platform)
        ensures
            r.is_host(),
    {
        let separator = host_separator();
        assert(call_ensures(host_separator, (), separator));
        Platform::from_separator(separator)
    }
}

/// `std::path::MAIN_SEPARATOR`, which differs from platform to platform: which
/// character it is stays unsaid.
#[verifier::external_body]
fn host_separator() -> char {
    std::path::MAIN_SEPARATOR
}

} // verus!

//! The platforms on which examples run, the kinds of artifact that a run
//! leaves, and the errors of this library.

use crate::text::same;
use vstd::prelude::*;

verus! {

/// Why an input was rejected.
#[derive(Clone, Copy, Debug, PartialEq, Eq, Structural, Hash)]
pub enum Error {
    /// A result line without `" - "`, or without `/` in front of it.
    MalformedLine,
    /// An artifact's file name without a kind behind its platform.
    MalformedArtifactName,
    /// An artifact's file name whose platform is none of the known ones.
    UnknownPlatform,
    /// An artifact's file name whose kind is none of the known ones.
    UnknownKind,
    /// A run directory's name without a commit behind its date.
    MalformedRunName,
    /// A run directory's name whose date does not read as `YYYYMMDDHHMM`.
    InvalidDate,
    /// A screenshot, taken off the mobile platform, whose example is not of
    /// the form `<category>/<name>`.
    MalformedExample,
}

/// Where an example ran: an operating system, the mobile devices as a group,
/// or one device or browser of that group, named by its tag.
#[derive(Debug, PartialEq, Eq, Hash, Clone)]
pub enum Platform {
    Linux,
    Macos,
    Windows,
    Mobile,
    Tag(String),
}

/// The platform that a file name's first part names. There are four names,
/// `Linux`, `macOS`, `Windows` and `mobile`, and each is written exactly so:
/// `Mobile`, under which the results of the mobile platform are filed, is no
/// name of a platform in a file name. No name stands for a tag.
pub open spec fn platform_named(s: Seq<char>) -> Option<Platform> {
    if s == "Linux"@ {
        Some(Platform::Linux)
    } else if s == "macOS"@ {
        Some(Platform::Macos)
    } else if s == "Windows"@ {
        Some(Platform::Windows)
    } else if s == "mobile"@ {
        Some(Platform::Mobile)
    } else {
        None
    }
}

impl Platform {
    /// The text under which results of this platform are filed.
    pub open spec fn label(self) -> Seq<char> {
        match self {
            Platform::Linux => "Linux"@,
            Platform::Macos => "macOS"@,
            Platform::Windows => "Windows"@,
            Platform::Mobile => "Mobile"@,
            Platform::Tag(tag) => tag@,
        }
    }

    /// The text under which results of this platform are filed.
    pub fn to_string(&self) -> (r: String)
        ensures
            r@ == self.label(),
    {
        match self {
            Platform::Linux => "Linux".to_owned(),
            Platform::Macos => "macOS".to_owned(),
            Platform::Windows => "Windows".to_owned(),
            Platform::Mobile => "Mobile".to_owned(),
            Platform::Tag(tag) => tag.clone(),
        }
    }

    /// The platform that the first part of an artifact's file name names; any
    /// text but the four names comes back as the error.
    pub fn from_str(s: &str) -> (r: Result<Platform, String>)
        ensures
            match r {
                Ok(p) => platform_named(s@) == Some(p),
                Err(e) => platform_named(s@) is None && e@ == s@,
            },
    {
        if same(s, "Linux") {
            Ok(Platform::Linux)
        } else if same(s, "macOS") {
            Ok(Platform::Macos)
        } else if same(s, "Windows") {
            Ok(Platform::Windows)
        } else if same(s, "mobile") {
            Ok(Platform::Mobile)
        } else {
            Err(s.to_owned())
        }
    }

    /// Whether this is the group of mobile devices.
    pub fn is_mobile(&self) -> (r: bool)
        ensures
            r == (self is Mobile),
    {
        match self {
            Platform::Mobile => true,
            _ => false,
        }
    }
}

/// What an artifact of a run holds: a list of examples that passed, failed
/// or ran without a screenshot, or the pointer to a comparison of screenshots
/// at one of two providers.
#[derive(Debug, PartialEq, Eq, Structural, Hash, Clone, Copy)]
pub enum Kind {
    Successes,
    Failures,
    NoScreenshots,
    Percy,
    PixelEagle,
}

impl View for Kind {
    type V = Kind;

    open spec fn view(&self) -> Kind {
        *self
    }
}

/// The kind that a file name's second part names.
pub open spec fn kind_named(s: Seq<char>) -> Option<Kind> {
    if s == "successes"@ {
        Some(Kind::Successes)
    } else if s == "failures"@ {
        Some(Kind::Failures)
    } else if s == "no_screenshots"@ {
        Some(Kind::NoScreenshots)
    } else if s == "percy"@ {
        Some(Kind::Percy)
    } else if s == "pixeleagle"@ {
        Some(Kind::PixelEagle)
    } else {
        None
    }
}

impl Kind {
    /// The kind that the second part of an artifact's file name names; an
    /// unknown name comes back as the error.
    pub fn from_str(s: &str) -> (r: Result<Kind, String>)
        ensures
            match r {
                Ok(k) => kind_named(s@) == Some(k),
                Err(e) => kind_named(s@) is None && e@ == s@,
            },
    {
        if same(s, "successes") {
            Ok(Kind::Successes)
        } else if same(s, "failures") {
            Ok(Kind::Failures)
        } else if same(s, "no_screenshots") {
            Ok(Kind::NoScreenshots)
        } else if same(s, "percy") {
            Ok(Kind::Percy)
        } else if same(s, "pixeleagle") {
            Ok(Kind::PixelEagle)
        } else {
            Err(s.to_owned())
        }
    }

    /// Where an artifact of this kind goes: a list of examples to the reader of
    /// result lines, with the outcome that it stands for; a pointer to its
    /// provider.
    pub open spec fn spec_route(self) -> Route {
        match self {
            Kind::Successes => Route::Listing(Outcome::Successes),
            Kind::Failures => Route::Listing(Outcome::Failures),
            Kind::NoScreenshots => Route::Listing(Outcome::NoScreenshots),
            Kind::Percy => Route::Comparison(Provider::Percy),
            Kind::PixelEagle => Route::Comparison(Provider::PixelEagle),
        }
    }

    /// Where an artifact of this kind goes.
    #[verifier::when_used_as_spec(spec_route)]
    pub fn route(self) -> (r: Route)
        ensures
            r == self.spec_route(),
    {
        match self {
            Kind::Successes => Route::Listing(Outcome::Successes),
            Kind::Failures => Route::Listing(Outcome::Failures),
            Kind::NoScreenshots => Route::Listing(Outcome::NoScreenshots),
            Kind::Percy => Route::Comparison(Provider::Percy),
            Kind::PixelEagle => Route::Comparison(Provider::PixelEagle),
        }
    }
}

/// How an example fared on a platform in one run.
#[derive(Debug, PartialEq, Eq, Structural, Hash, Clone, Copy)]
pub enum Outcome {
    Successes,
    Failures,
    NoScreenshots,
}

impl View for Outcome {
    type V = Outcome;

    open spec fn view(&self) -> Outcome {
        *self
    }
}

/// The two providers that compare screenshots.
#[derive(Debug, PartialEq, Eq, Structural, Hash, Clone, Copy)]
pub enum Provider {
    Percy,
    PixelEagle,
}

/// The two ways that an artifact can go.
#[derive(Debug, PartialEq, Eq, Structural, Hash, Clone, Copy)]
pub enum Route {
    Listing(Outcome),
    Comparison(Provider),
}

} // verus!

//! What a screenshot provider reports of one example on one platform.

use vstd::prelude::*;

pub mod percy;
pub mod pixeleagle;

verus! {

/// Seconds to let pass after the pointer of an artifact was followed, so that
/// the providers are not asked too often.
pub const PACING_SECONDS: u64 = 1;

/// Where an image can be fetched.
#[derive(Debug, Clone, PartialEq, Eq, Hash)]
pub struct ImageUrl(pub String);

/// Where a provider shows a snapshot beside the one it was compared with.
#[derive(Debug, Clone, PartialEq, Eq, Hash)]
pub struct SnapshotViewerUrl(pub String);

/// The bit pattern of the ratio 0.
pub const ZERO_BITS: u32 = 0x0000_0000;

/// The bit pattern of the ratio 1, which stands for a difference that the
/// provider has not measured yet.
pub const ONE_BITS: u32 = 0x3f80_0000;

/// The bit pattern of 9999.99, which stands for a ratio that the provider
/// did not report: far above any real one.
pub const UNREPORTED_BITS: u32 = 0x461c_3ff6;

/// The share of an image that differs from the image it was compared with: a
/// single-precision number, held as its IEEE 754 bit pattern. The library
/// never computes with a ratio; it only asks whether one is zero.
#[derive(Debug, Clone, Copy, PartialEq, Eq, Structural, Hash)]
pub struct DiffRatio {
    pub bits: u32,
}

impl DiffRatio {
    /// Whether the ratio is zero: all bits clear, but for the sign.
    pub open spec fn spec_is_zero(self) -> bool {
        self.bits == 0 || self.bits == 0x8000_0000
    }

    /// Whether the ratio is zero.
    #[verifier::when_used_as_spec(spec_is_zero)]
    pub fn is_zero(self) -> (r: bool)
        ensures
            r == self.spec_is_zero(),
    {
        self.bits == 0 || self.bits == 0x8000_0000
    }

    /// The ratio 0.
    pub fn zero() -> (r: DiffRatio)
        ensures
            r.bits == ZERO_BITS,
    {
        DiffRatio { bits: ZERO_BITS }
    }

    /// The ratio 1.
    pub fn one() -> (r: DiffRatio)
        ensures
            r.bits == ONE_BITS,
    {
        DiffRatio { bits: ONE_BITS }
    }

    /// The ratio that stands for one not reported.
    pub fn unreported() -> (r: DiffRatio)
        ensures
            r.bits == UNREPORTED_BITS,
    {
        DiffRatio { bits: UNREPORTED_BITS }
    }
}

/// Whether a screenshot looks like the one it was compared with.
#[derive(Debug, PartialEq, Eq, Structural, Clone, Copy, Hash)]
pub enum ScreenshotState {
    Similar,
    Changed,
}

/// One screenshot as a provider reports it.
#[derive(Debug)]
pub struct ScreenshotData {
    /// category / name
    pub example: String,
    /// URL to the screenshot
    pub screenshot: ImageUrl,
    pub changed: ScreenshotState,
    /// Tag used to differentiate for mobile
    pub tag: Option<String>,
    pub diff_ratio: DiffRatio,
    pub snapshot_url: SnapshotViewerUrl,
}

/// What a `ScreenshotData` holds.
pub ghost struct ScreenshotView {
    pub example: Seq<char>,
    pub screenshot: Seq<char>,
    pub changed: ScreenshotState,
    pub tag: Option<Seq<char>>,
    pub diff_ratio: DiffRatio,
    pub snapshot_url: Seq<char>,
}

impl View for ScreenshotData {
    type V = ScreenshotView;

    open spec fn view(&self) -> ScreenshotView {
        ScreenshotView {
            example: self.example@,
            screenshot: self.screenshot.0@,
            changed: self.changed,
            tag: match self.tag {
                Some(tag) => Some(tag@),
                None => None,
            },
            diff_ratio: self.diff_ratio,
            snapshot_url: self.snapshot_url.0@,
        }
    }
}

/// What a sequence of `ScreenshotData` holds.
pub open spec fn screenshot_views(shots: Seq<ScreenshotData>) -> Seq<ScreenshotView> {
    Seq::new(shots.len(), |i: int| shots[i]@)
}

} // verus!

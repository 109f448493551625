//! The provider that answers with three buckets of screenshots: the new ones,
//! the unchanged ones and those that differ.

use crate::screenshot::{
    screenshot_views, DiffRatio, ImageUrl, ScreenshotData, ScreenshotState, ScreenshotView,
    SnapshotViewerUrl, ONE_BITS, ZERO_BITS,
};
use crate::text::{decimal, push_decimal, push_str, string_from};
use vstd::prelude::*;

verus! {

/// The artifact that a run leaves for this provider: it points at the
/// comparison of two runs of a project.
#[derive(Debug)]
pub struct ComparisonTarget {
    pub project_id: String,
    pub from: u32,
    pub to: u32,
}

/// The provider's answer: the screenshots of the later run, by how they stand
/// to those of the earlier one.
#[derive(Debug)]
pub struct Comparison {
    pub project_id: String,
    pub from: u32,
    pub to: u32,
    pub new: Vec<Screenshot>,
    pub diff: Vec<Screenshot>,
    pub unchanged: Vec<Screenshot>,
}

/// One screenshot of the answer.
#[derive(Debug)]
pub struct Screenshot {
    pub name: String,
    pub hash: String,
    pub diff: Option<Difference>,
}

/// How far the provider is with measuring a difference.
#[derive(Debug, Clone, Copy, PartialEq, Eq, Structural)]
pub enum Difference {
    Unknown,
    Processing,
    Done(DiffRatio),
}

/// The three buckets of an answer.
#[derive(Debug, Clone, Copy, PartialEq, Eq, Structural)]
pub enum Bucket {
    New,
    Unchanged,
    Diff,
}

/// Where the image of a screenshot is. The images of new screenshots are
/// filed under `files/`.
pub open spec fn image_location(project_id: Seq<char>, bucket: Bucket, hash: Seq<char>) -> Seq<
    char,
> {
    if bucket == Bucket::New {
        "https://pixel-eagle.com/files/"@ + project_id + "/screenshot/"@ + hash
    } else {
        "https://pixel-eagle.com/"@ + project_id + "/screenshot/"@ + hash
    }
}

/// Where the provider shows a screenshot within the comparison of two runs.
pub open spec fn viewer_location(project_id: Seq<char>, from: u32, to: u32, name: Seq<char>) -> Seq<
    char,
> {
    "https://pixel-eagle.com/project/"@ + project_id + "/run/"@ + decimal(from as nat)
        + "/compare/"@ + decimal(to as nat) + "?screenshot="@ + name
}

/// The ratio of a screenshot: zero in the buckets of new and of unchanged
/// screenshots; among those that differ the ratio measured, and one where
/// none was measured yet.
pub open spec fn ratio_in(bucket: Bucket, diff: Option<Difference>) -> DiffRatio {
    match bucket {
        Bucket::Diff => match diff {
            Some(Difference::Done(ratio)) => ratio,
            _ => DiffRatio { bits: ONE_BITS },
        },
        _ => DiffRatio { bits: ZERO_BITS },
    }
}

/// The state of the screenshots of a bucket: the unchanged ones are similar,
/// the others changed.
pub open spec fn state_in(bucket: Bucket) -> ScreenshotState {
    match bucket {
        Bucket::Unchanged => ScreenshotState::Similar,
        _ => ScreenshotState::Changed,
    }
}

/// The record of one screenshot of a bucket. This provider knows no tags.
pub open spec fn bucket_record(
    project_id: Seq<char>,
    from: u32,
    to: u32,
    bucket: Bucket,
    screenshot: Screenshot,
) -> ScreenshotView {
    ScreenshotView {
        example: screenshot.name@,
        screenshot: image_location(project_id, bucket, screenshot.hash@),
        changed: state_in(bucket),
        tag: None,
        diff_ratio: ratio_in(bucket, screenshot.diff),
        snapshot_url: viewer_location(project_id, from, to, screenshot.name@),
    }
}

/// The records of the screenshots of a bucket, in their order.
pub open spec fn bucket_records(
    project_id: Seq<char>,
    from: u32,
    to: u32,
    bucket: Bucket,
    screenshots: Seq<Screenshot>,
) -> Seq<ScreenshotView> {
    Seq::new(
        screenshots.len(),
        |i: int| bucket_record(project_id, from, to, bucket, screenshots[i]),
    )
}

/// The records of an answer: those of the new screenshots, then of the
/// unchanged ones, then of those that differ.
pub open spec fn comparison_records(comparison: Comparison) -> Seq<ScreenshotView> {
    bucket_records(
        comparison.project_id@,
        comparison.from,
        comparison.to,
        Bucket::New,
        comparison.new@,
    ) + bucket_records(
        comparison.project_id@,
        comparison.from,
        comparison.to,
        Bucket::Unchanged,
        comparison.unchanged@,
    ) + bucket_records(
        comparison.project_id@,
        comparison.from,
        comparison.to,
        Bucket::Diff,
        comparison.diff@,
    )
}

/// The record of one screenshot of a bucket.
pub fn record_of(
    project_id: &str,
    from: u32,
    to: u32,
    bucket: Bucket,
    screenshot: &Screenshot,
) -> (r: ScreenshotData)
    ensures
        r@ == bucket_record(project_id@, from, to, bucket, *screenshot),
{
    let mut image: Vec<char> = Vec::new();
    if bucket == Bucket::New {
        push_str(&mut image, "https://pixel-eagle.com/files/");
    } else {
        push_str(&mut image, "https://pixel-eagle.com/");
    }
    push_str(&mut image, project_id);
    push_str(&mut image, "/screenshot/");
    push_str(&mut image, screenshot.hash.as_str());
    let mut viewer: Vec<char> = Vec::new();
    push_str(&mut viewer, "https://pixel-eagle.com/project/");
    push_str(&mut viewer, project_id);
    push_str(&mut viewer, "/run/");
    push_decimal(&mut viewer, from);
    push_str(&mut viewer, "/compare/");
    push_decimal(&mut viewer, to);
    push_str(&mut viewer, "?screenshot=");
    push_str(&mut viewer, screenshot.name.as_str());
    let diff_ratio = match bucket {
        Bucket::Diff => match screenshot.diff {
            Some(Difference::Done(ratio)) => ratio,
            _ => DiffRatio::one(),
        },
        _ => DiffRatio::zero(),
    };
    let changed = match bucket {
        Bucket::Unchanged => ScreenshotState::Similar,
        _ => ScreenshotState::Changed,
    };
    proof {
        assert(image@ =~= image_location(project_id@, bucket, screenshot.hash@));
        assert(viewer@ =~= viewer_location(project_id@, from, to, screenshot.name@));
    }
    ScreenshotData {
        example: screenshot.name.clone(),
        screenshot: ImageUrl(string_from(&image)),
        changed,
        tag: None,
        diff_ratio,
        snapshot_url: SnapshotViewerUrl(string_from(&viewer)),
    }
}

/// Appends the records of the screenshots of a bucket.
pub fn push_bucket(
    out: &mut Vec<ScreenshotData>,
    project_id: &str,
    from: u32,
    to: u32,
    bucket: Bucket,
    screenshots: &Vec<Screenshot>,
)
    ensures
        screenshot_views(final(out)@) == screenshot_views(old(out)@) + bucket_records(
            project_id@,
            from,
            to,
            bucket,
            screenshots@,
        ),
{
    let ghost before = screenshot_views(out@);
    let ghost all = bucket_records(project_id@, from, to, bucket, screenshots@);
    let mut i: usize = 0;
    assert(before + all.take(0) =~= before);
    while i < screenshots.len()
        invariant
            i <= screenshots.len(),
            all == bucket_records(project_id@, from, to, bucket, screenshots@),
            screenshot_views(out@) == before + all.take(i as int),
        decreases screenshots.len() - i,
    {
        let record = record_of(project_id, from, to, bucket, &screenshots[i]);
        proof {
            assert(all.take(i + 1) =~= all.take(i as int).push(all[i as int]));
            assert(screenshot_views(out@.push(record)) =~= screenshot_views(out@).push(record@));
        }
        out.push(record);
        i += 1;
    }
    assert(all.take(i as int) =~= all);
}

/// Turns the three buckets of an answer into records.
pub fn comparison_to_screenshot_data(comparison: Comparison) -> (result: Vec<ScreenshotData>)
    ensures
        screenshot_views(result@) == comparison_records(comparison),
{
    let mut result: Vec<ScreenshotData> = Vec::new();
    assert(screenshot_views(result@) =~= Seq::empty());
    let project_id = comparison.project_id.as_str();
    push_bucket(
        &mut result,
        project_id,
        comparison.from,
        comparison.to,
        Bucket::New,
        &comparison.new,
    );
    push_bucket(
        &mut result,
        project_id,
        comparison.from,
        comparison.to,
        Bucket::Unchanged,
        &comparison.unchanged,
    );
    push_bucket(
        &mut result,
        project_id,
        comparison.from,
        comparison.to,
        Bucket::Diff,
        &comparison.diff,
    );
    assert(screenshot_views(result@) =~= comparison_records(comparison));
    result
}

/// Where the comparison that a pointer names is to be had.
pub open spec fn comparison_url(target: ComparisonTarget) -> Seq<char> {
    "https://pixel-eagle.com/"@ + target.project_id@ + "/runs/"@ + decimal(target.from as nat)
        + "/compare/"@ + decimal(target.to as nat)
}

/// What came of the request.
#[derive(Debug)]
pub enum Reply {
    /// The transport failed.
    Failed,
    /// An answer came, and could not be read as three buckets.
    Unreadable,
    /// The buckets that came.
    Answer(Comparison),
}

/// What is to be done next.
#[derive(Debug)]
pub enum Step {
    /// Get `url`, and come back with what came of it.
    Get { url: String },
    /// Nothing more: these are the screenshots.
    Done(Vec<ScreenshotData>),
}

/// What a `Step` holds.
pub ghost enum StepView {
    Get { url: Seq<char> },
    Done(Seq<ScreenshotView>),
}

impl View for Step {
    type V = StepView;

    open spec fn view(&self) -> StepView {
        match self {
            Step::Get { url } => StepView::Get { url: url@ },
            Step::Done(screenshots) => StepView::Done(screenshot_views(screenshots@)),
        }
    }
}

/// The first step for a pointer: with a pointer that could be read, the
/// request for its comparison; without one, the end with no screenshot.
pub open spec fn first_step(pointer: Option<ComparisonTarget>) -> StepView {
    match pointer {
        Some(target) => StepView::Get { url: comparison_url(target) },
        None => StepView::Done(Seq::empty()),
    }
}

/// The screenshots after the reply. The request is made once: when it fails,
/// or its answer cannot be read, there is no screenshot.
pub open spec fn results_of(reply: Reply) -> Seq<ScreenshotView> {
    match reply {
        Reply::Answer(comparison) => comparison_records(comparison),
        _ => Seq::empty(),
    }
}

/// Begins to read the results that a pointer leads to.
pub fn start(pointer: Option<ComparisonTarget>) -> (step: Step)
    ensures
        step@ == first_step(pointer),
{
    match pointer {
        Some(target) => {
            let mut url: Vec<char> = Vec::new();
            push_str(&mut url, "https://pixel-eagle.com/");
            push_str(&mut url, target.project_id.as_str());
            push_str(&mut url, "/runs/");
            push_decimal(&mut url, target.from);
            push_str(&mut url, "/compare/");
            push_decimal(&mut url, target.to);
            assert(url@ =~= comparison_url(target));
            Step::Get { url: string_from(&url) }
        },
        None => {
            let none: Vec<ScreenshotData> = Vec::new();
            assert(screenshot_views(none@) =~= Seq::empty());
            Step::Done(none)
        },
    }
}

/// Reads the results out of the reply to the request.
pub fn read_results(reply: Reply) -> (result: Vec<ScreenshotData>)
    ensures
        screenshot_views(result@) == results_of(reply),
{
    match reply {
        Reply::Answer(comparison) => comparison_to_screenshot_data(comparison),
        _ => {
            let none: Vec<ScreenshotData> = Vec::new();
            assert(screenshot_views(none@) =~= Seq::empty());
            none
        },
    }
}

} // verus!

//! The provider that answers with a graph of nodes: snapshots, and beside
//! them the comparisons, screenshots, images and comparison tags that they
//! refer to by id.
//!
//! [`snapshots_to_images`] resolves such a graph into one record for each
//! comparison of each snapshot. [`start`] and [`read_results`] say what to ask
//! of the provider and what to make of its reply; the asking itself is not
//! done here.

use crate::parse::{slash, slash_pattern};
use crate::screenshot::{
    screenshot_views, DiffRatio, ImageUrl, ScreenshotData, ScreenshotState, ScreenshotView,
    SnapshotViewerUrl, UNREPORTED_BITS,
};
use crate::text::{chars_of, last_segment, last_segment_in, same, string_from};
use vstd::prelude::*;
use vstd::string::StringExecFns;

verus! {

/// The artifact that a run leaves for this provider: it points at a build.
#[derive(Debug)]
pub struct Main {
    pub web_url: String,
    pub total_comparisons: u32,
    pub total_comparisons_diff: u32,
}

/// The provider's answer: the snapshots of a build, and the nodes that they
/// refer to.
#[derive(Debug)]
pub struct SnapshotsData {
    pub data: Vec<Snapshot>,
    pub included: Vec<Snapshot>,
}

/// One node of the graph.
#[derive(Debug)]
#[allow(inconsistent_fields)]
pub enum Snapshot {
    Snapshots { id: String, attributes: SnapshotAttributes, relationships: SnapshotRelationship },
    Images { id: String, attributes: ImageAttributes },
    Comparisons {
        id: String,
        attributes: ComparisonAttributes,
        relationships: ComparisonRelationship,
    },
    Screenshots { id: String, relationships: ScreenshotRelationship },
    Builds,
    Browsers,
    BrowserFamilies,
    ComparisonTags { id: String, attributes: ComparisonTagAttributes },
    IgnoredRegions,
    Projects,
    Users,
}

/// References to several nodes.
#[derive(Debug)]
pub struct RelationshipDatas {
    pub data: Vec<RelationshipData>,
}

/// A reference to one node, or none.
#[derive(Debug)]
pub struct RelationshipSingleData {
    pub data: Option<RelationshipData>,
}

/// A reference to the node with this id.
#[derive(Debug)]
pub struct RelationshipData {
    pub id: String,
}

#[derive(Debug)]
pub struct SnapshotAttributes {
    pub name: String,
    /// Why the snapshot is in its state of review; this holds of each of its
    /// comparisons that gives no reason of its own.
    pub review_state_reason: ReviewStateReason,
}

/// Why a snapshot, or one comparison of it, is in the state of review that it
/// is in.
#[derive(Debug, PartialEq, Eq, Structural, Clone, Copy)]
pub enum ReviewStateReason {
    NoDiffs,
    UnreviewedComparisons,
    UserApproved,
    /// Any reason but the three above.
    Other,
}

/// The state that a reason stands for: without differences is similar, any
/// other is changed.
pub open spec fn state_of(reason: ReviewStateReason) -> ScreenshotState {
    match reason {
        ReviewStateReason::NoDiffs => ScreenshotState::Similar,
        _ => ScreenshotState::Changed,
    }
}

impl From<&ReviewStateReason> for ScreenshotState {
    fn from(reason: &ReviewStateReason) -> (state: ScreenshotState) {
        match reason {
            ReviewStateReason::NoDiffs => ScreenshotState::Similar,
            _ => ScreenshotState::Changed,
        }
    }
}

impl vstd::std_specs::convert::FromSpecImpl<&ReviewStateReason> for ScreenshotState {
    open spec fn obeys_from_spec() -> bool {
        true
    }

    open spec fn from_spec(reason: &ReviewStateReason) -> ScreenshotState {
        state_of(*reason)
    }
}

#[derive(Debug)]
pub struct SnapshotRelationship {
    pub comparisons: RelationshipDatas,
}

#[derive(Debug)]
pub struct ImageAttributes {
    pub url: String,
}

#[derive(Debug)]
pub struct ScreenshotRelationship {
    pub image: RelationshipSingleData,
}

#[derive(Debug)]
pub struct ComparisonRelationship {
    pub base_screenshot: RelationshipSingleData,
    pub head_screenshot: RelationshipSingleData,
    pub comparison_tag: RelationshipSingleData,
}

#[derive(Debug)]
pub struct ComparisonAttributes {
    pub diff_ratio: Option<DiffRatio>,
    /// Why the comparison is in its state of review, where it says so itself.
    pub review_state_reason: Option<ReviewStateReason>,
}

#[derive(Debug)]
pub struct ComparisonTagAttributes {
    pub name: String,
    pub os_name: String,
    pub os_version: String,
}

/// The kinds of node that a reference can lead to.
#[derive(Debug, PartialEq, Eq, Structural, Clone, Copy)]
pub enum NodeKind {
    Comparisons,
    ComparisonTags,
    Screenshots,
    Images,
}

/// Whether a node is of the given kind and has the given id.
pub open spec fn is_node(node: Snapshot, kind: NodeKind, id: Seq<char>) -> bool {
    match node {
        Snapshot::Comparisons { id: own, .. } => kind == NodeKind::Comparisons && own@ == id,
        Snapshot::ComparisonTags { id: own, .. } => kind == NodeKind::ComparisonTags && own@ == id,
        Snapshot::Screenshots { id: own, .. } => kind == NodeKind::Screenshots && own@ == id,
        Snapshot::Images { id: own, .. } => kind == NodeKind::Images && own@ == id,
        _ => false,
    }
}

/// The index of the first node of the given kind and id at or after `from`.
pub open spec fn first_node_from(
    included: Seq<Snapshot>,
    kind: NodeKind,
    id: Seq<char>,
    from: int,
) -> Option<int>
    decreases included.len() - from,
{
    if from < 0 || from >= included.len() {
        None
    } else if is_node(included[from], kind, id) {
        Some(from)
    } else {
        first_node_from(included, kind, id, from + 1)
    }
}

/// The index of the first node of the given kind and id: where a reference
/// leads. A reference to a node that is not there leads nowhere.
pub open spec fn first_node(included: Seq<Snapshot>, kind: NodeKind, id: Seq<char>) -> Option<int> {
    first_node_from(included, kind, id, 0)
}

/// A reference leads to the first node of its kind with its id, and nowhere
/// if there is no such node.
pub proof fn lemma_first_node(included: Seq<Snapshot>, kind: NodeKind, id: Seq<char>, from: int)
    requires
        0 <= from,
    ensures
        match first_node_from(included, kind, id, from) {
            Some(i) => {
                &&& from <= i < included.len()
                &&& is_node(included[i], kind, id)
                &&& forall|j: int| from <= j < i ==> !is_node(#[trigger] included[j], kind, id)
            },
            None => forall|j: int|
                from <= j < included.len() ==> !is_node(#[trigger] included[j], kind, id),
        },
    decreases included.len() - from,
{
    if from < included.len() && !is_node(included[from], kind, id) {
        lemma_first_node(included, kind, id, from + 1);
    }
}

/// Whether a node is of the given kind and has the given id.
pub fn node_is(node: &Snapshot, kind: NodeKind, id: &str) -> (r: bool)
    ensures
        r == is_node(*node, kind, id@),
{
    match node {
        Snapshot::Comparisons { id: own, .. } => kind == NodeKind::Comparisons && same(
            own.as_str(),
            id,
        ),
        Snapshot::ComparisonTags { id: own, .. } => kind == NodeKind::ComparisonTags && same(
            own.as_str(),
            id,
        ),
        Snapshot::Screenshots { id: own, .. } => kind == NodeKind::Screenshots && same(
            own.as_str(),
            id,
        ),
        Snapshot::Images { id: own, .. } => kind == NodeKind::Images && same(own.as_str(), id),
        _ => false,
    }
}

/// Follows a reference: the index of the first node of the given kind and id.
pub fn find_node(included: &Vec<Snapshot>, kind: NodeKind, id: &str) -> (r: Option<usize>)
    ensures
        match r {
            Some(i) => first_node(included@, kind, id@) == Some(i as int) && i < included.len()
                && is_node(included@[i as int], kind, id@),
            None => first_node(included@, kind, id@) is None,
        },
{
    let mut i: usize = 0;
    while i < included.len()
        invariant
            i <= included.len(),
            first_node(included@, kind, id@) == first_node_from(included@, kind, id@, i as int),
        decreases included.len() - i,
    {
        if node_is(&included[i], kind, id) {
            return Some(i);
        }
        i += 1;
    }
    None
}

/// The id that a reference holds.
pub open spec fn referred(reference: RelationshipSingleData) -> Option<Seq<char>> {
    match reference.data {
        Some(data) => Some(data.id@),
        None => None,
    }
}

/// The label of the comparison tag with the given id:
/// `<os name> <os version> / <tag name>`.
pub open spec fn tag_label(included: Seq<Snapshot>, id: Seq<char>) -> Option<Seq<char>> {
    match first_node(included, NodeKind::ComparisonTags, id) {
        Some(i) => match included[i] {
            Snapshot::ComparisonTags { attributes, .. } => Some(
                attributes.os_name@ + " "@ + attributes.os_version@ + " / "@ + attributes.name@,
            ),
            _ => None,
        },
        None => None,
    }
}

/// The id of the image that the screenshot with the given id shows.
pub open spec fn image_of(included: Seq<Snapshot>, screenshot: Seq<char>) -> Option<Seq<char>> {
    match first_node(included, NodeKind::Screenshots, screenshot) {
        Some(i) => match included[i] {
            Snapshot::Screenshots { relationships, .. } => referred(relationships.image),
            _ => None,
        },
        None => None,
    }
}

/// The URL of the image with the given id.
pub open spec fn url_of(included: Seq<Snapshot>, image: Seq<char>) -> Option<Seq<char>> {
    match first_node(included, NodeKind::Images, image) {
        Some(i) => match included[i] {
            Snapshot::Images { attributes, .. } => Some(attributes.url@),
            _ => None,
        },
        None => None,
    }
}

/// The screenshot of a comparison that its reason selects: the base one where
/// nothing differs, the head one where the differences await review or were
/// approved, none for any other reason.
pub open spec fn selected_screenshot(
    reason: ReviewStateReason,
    relationships: ComparisonRelationship,
) -> Option<Seq<char>> {
    match reason {
        ReviewStateReason::NoDiffs => referred(relationships.base_screenshot),
        ReviewStateReason::UnreviewedComparisons | ReviewStateReason::UserApproved => referred(
            relationships.head_screenshot,
        ),
        ReviewStateReason::Other => None,
    }
}

/// The URL of the image behind a screenshot; empty where the screenshot is
/// not given, or a reference on the way leads nowhere.
pub open spec fn image_url(included: Seq<Snapshot>, screenshot: Option<Seq<char>>) -> Seq<char> {
    match screenshot {
        Some(screenshot) => match image_of(included, screenshot) {
            Some(image) => match url_of(included, image) {
                Some(url) => url,
                None => Seq::empty(),
            },
            None => Seq::empty(),
        },
        None => Seq::empty(),
    }
}

/// The reason of a comparison: its own, or that of its snapshot where it
/// gives none.
pub open spec fn reason_of(
    snapshot: ReviewStateReason,
    comparison: Option<ReviewStateReason>,
) -> ReviewStateReason {
    match comparison {
        Some(reason) => reason,
        None => snapshot,
    }
}

/// What the viewer's URL says of a comparison with the given reason.
pub open spec fn verdict(reason: ReviewStateReason) -> Seq<char> {
    if reason == ReviewStateReason::NoDiffs {
        "unchanged"@
    } else {
        "changed"@
    }
}

/// The record of one comparison of a snapshot. The snapshot gives the name.
/// The comparison gives the ratio, the tag and the reason, and the reason
/// gives the state, the viewer's URL and, through the screenshot that it
/// selects, the image. Where the comparison is not among the nodes, the reason
/// is that of the snapshot, and the record has no tag, the ratio of one not
/// reported and no image.
pub open spec fn edge_record(
    included: Seq<Snapshot>,
    snapshot: Seq<char>,
    attributes: SnapshotAttributes,
    comparison: Seq<char>,
    build_url: Seq<char>,
) -> ScreenshotView {
    let found = match first_node(included, NodeKind::Comparisons, comparison) {
        Some(i) => match included[i] {
            Snapshot::Comparisons { attributes, relationships, .. } => Some(
                (attributes, relationships),
            ),
            _ => None,
        },
        None => None,
    };
    let reason = reason_of(
        attributes.review_state_reason,
        match found {
            Some((attributes, _)) => attributes.review_state_reason,
            None => None,
        },
    );
    ScreenshotView {
        example: attributes.name@,
        screenshot: match found {
            Some((_, relationships)) => image_url(
                included,
                selected_screenshot(reason, relationships),
            ),
            None => Seq::empty(),
        },
        changed: state_of(reason),
        tag: match found {
            Some((_, relationships)) => match referred(relationships.comparison_tag) {
                Some(tag) => tag_label(included, tag),
                None => None,
            },
            None => None,
        },
        diff_ratio: match found {
            Some((attributes, _)) => match attributes.diff_ratio {
                Some(ratio) => ratio,
                None => DiffRatio { bits: UNREPORTED_BITS },
            },
            None => DiffRatio { bits: UNREPORTED_BITS },
        },
        snapshot_url: build_url + "/"@ + verdict(reason) + "/"@ + snapshot,
    }
}

/// The records of one node: for a snapshot one for each of its comparisons, in
/// their order; for any other node none.
pub open spec fn node_records(
    included: Seq<Snapshot>,
    node: Snapshot,
    build_url: Seq<char>,
) -> Seq<ScreenshotView> {
    match node {
        Snapshot::Snapshots { id, attributes, relationships } => Seq::new(
            relationships.comparisons.data.len() as nat,
            |j: int|
                edge_record(
                    included,
                    id@,
                    attributes,
                    relationships.comparisons.data[j].id@,
                    build_url,
                ),
        ),
        _ => Seq::empty(),
    }
}

/// The records of a sequence of nodes, in their order.
pub open spec fn records(
    included: Seq<Snapshot>,
    data: Seq<Snapshot>,
    build_url: Seq<char>,
) -> Seq<ScreenshotView>
    decreases data.len(),
{
    if data.len() == 0 {
        Seq::empty()
    } else {
        records(included, data.drop_last(), build_url) + node_records(
            included,
            data.last(),
            build_url,
        )
    }
}

/// The label of the comparison tag with the given id.
pub fn find_tag_label(included: &Vec<Snapshot>, id: &str) -> (r: Option<String>)
    ensures
        match r {
            Some(label) => tag_label(included@, id@) == Some(label@),
            None => tag_label(included@, id@) is None,
        },
{
    match find_node(included, NodeKind::ComparisonTags, id) {
        Some(i) => match &included[i] {
            Snapshot::ComparisonTags { attributes, .. } => {
                let mut label = attributes.os_name.clone();
                label.append(" ");
                label.append(attributes.os_version.as_str());
                label.append(" / ");
                label.append(attributes.name.as_str());
                Some(label)
            },
            _ => None,
        },
        None => None,
    }
}

/// The URL of the image behind the screenshot with the given id.
pub fn find_image_url(included: &Vec<Snapshot>, screenshot: Option<&String>) -> (r: String)
    ensures
        r@ == image_url(
            included@,
            match screenshot {
                Some(id) => Some(id@),
                None => None,
            },
        ),
{
    let Some(screenshot) = screenshot else {
        return String::new();
    };
    let Some(i) = find_node(included, NodeKind::Screenshots, screenshot.as_str()) else {
        return String::new();
    };
    let Snapshot::Screenshots { relationships, .. } = &included[i] else {
        return String::new();
    };
    let Some(image) = &relationships.image.data else {
        return String::new();
    };
    let Some(j) = find_node(included, NodeKind::Images, image.id.as_str()) else {
        return String::new();
    };
    let Snapshot::Images { attributes, .. } = &included[j] else {
        return String::new();
    };
    attributes.url.clone()
}


/// The record of one comparison of a snapshot.
pub fn resolve_edge(
    included: &Vec<Snapshot>,
    snapshot: &str,
    attributes: &SnapshotAttributes,
    comparison: &str,
    build_url: &str,
) -> (r: ScreenshotData)
    ensures
        r@ == edge_record(included@, snapshot@, *attributes, comparison@, build_url@),
{
    let mut reason = attributes.review_state_reason;
    let mut tag: Option<String> = None;
    let mut diff_ratio = DiffRatio::unreported();
    let mut image = String::new();
    if let Some(i) = find_node(included, NodeKind::Comparisons, comparison) {
        if let Snapshot::Comparisons { attributes: measured, relationships, .. } = &included[i] {
            if let Some(own) = measured.review_state_reason {
                reason = own;
            }
            if let Some(reference) = &relationships.comparison_tag.data {
                tag = find_tag_label(included, reference.id.as_str());
            }
            if let Some(ratio) = measured.diff_ratio {
                diff_ratio = ratio;
            }
            let screenshot: Option<&String> = match reason {
                ReviewStateReason::NoDiffs => match &relationships.base_screenshot.data {
                    Some(reference) => Some(&reference.id),
                    None => None,
                },
                ReviewStateReason::UnreviewedComparisons
                | ReviewStateReason::UserApproved => match &relationships.head_screenshot.data {
                    Some(reference) => Some(&reference.id),
                    None => None,
                },
                ReviewStateReason::Other => None,
            };
            image = find_image_url(included, screenshot);
        }
    }
    let mut viewer = build_url.to_owned();
    viewer.append("/");
    if reason == ReviewStateReason::NoDiffs {
        viewer.append("unchanged");
    } else {
        viewer.append("changed");
    }
    viewer.append("/");
    viewer.append(snapshot);
    ScreenshotData {
        example: attributes.name.clone(),
        screenshot: ImageUrl(image),
        changed: ScreenshotState::from(&reason),
        tag,
        diff_ratio,
        snapshot_url: SnapshotViewerUrl(viewer),
    }
}

/// Resolves the graph into one record for each comparison of each snapshot,
/// in the order of the snapshots and of their comparisons.
pub fn snapshots_to_images(snapshots: SnapshotsData, build_url: &str) -> (images: Vec<
    ScreenshotData,
>)
    ensures
        screenshot_views(images@) == records(snapshots.included@, snapshots.data@, build_url@),
{
    let mut images: Vec<ScreenshotData> = Vec::new();
    let mut i: usize = 0;
    assert(snapshots.data@.take(0) =~= Seq::empty());
    while i < snapshots.data.len()
        invariant
            i <= snapshots.data.len(),
            screenshot_views(images@) == records(
                snapshots.included@,
                snapshots.data@.take(i as int),
                build_url@,
            ),
        decreases snapshots.data.len() - i,
    {
        let ghost before = screenshot_views(images@);
        let ghost node = snapshots.data@[i as int];
        proof {
            let next = snapshots.data@.take(i + 1);
            assert(next.drop_last() =~= snapshots.data@.take(i as int));
            assert(next.last() == node);
        }
        match &snapshots.data[i] {
            Snapshot::Snapshots { id, attributes, relationships } => {
                let comparisons = &relationships.comparisons.data;
                let mut j: usize = 0;
                while j < comparisons.len()
                    invariant
                        j <= comparisons.len(),
                        i < snapshots.data.len(),
                        node == snapshots.data@[i as int],
                        node == (Snapshot::Snapshots {
                            id: *id,
                            attributes: *attributes,
                            relationships: *relationships,
                        }),
                        comparisons == &relationships.comparisons.data,
                        screenshot_views(images@) == before + node_records(
                            snapshots.included@,
                            node,
                            build_url@,
                        ).take(j as int),
                    decreases comparisons.len() - j,
                {
                    let record = resolve_edge(
                        &snapshots.included,
                        id.as_str(),
                        attributes,
                        comparisons[j].id.as_str(),
                        build_url,
                    );
                    proof {
                        let all = node_records(snapshots.included@, node, build_url@);
                        assert(all.take(j + 1) =~= all.take(j as int).push(all[j as int]));
                        assert(screenshot_views(images@.push(record)) =~= screenshot_views(
                            images@,
                        ).push(record@));
                    }
                    images.push(record);
                    j += 1;
                }
                proof {
                    let all = node_records(snapshots.included@, node, build_url@);
                    assert(all.take(j as int) =~= all);
                }
            },
            _ => {
                assert(before + node_records(snapshots.included@, node, build_url@) =~= before);
            },
        }
        i += 1;
    }
    assert(snapshots.data@.take(i as int) =~= snapshots.data@);
    images
}

/// The id of the build that a pointer's `web_url` ends in: what follows its
/// last `/`.
pub open spec fn build_id(web_url: Seq<char>) -> Seq<char> {
    last_segment(web_url, slash())
}

/// Where the snapshots of the build behind `web_url` are listed.
pub open spec fn snapshots_url(web_url: Seq<char>) -> Seq<char> {
    "https://percy.io/api/v1/builds/"@ + build_id(web_url) + "/snapshots"@
}

/// Where the snapshots of the build behind `web_url` are listed.
pub fn listing_url(web_url: &str) -> (url: String)
    ensures
        url@ == snapshots_url(web_url@),
{
    let id = last_segment_in(&chars_of(web_url), &slash_pattern());
    let mut url = "https://percy.io/api/v1/builds/".to_owned();
    url.append(string_from(&id).as_str());
    url.append("/snapshots");
    url
}

/// Seconds to wait after a request failed, before it is made again.
pub const RETRY_DELAY_SECONDS: u64 = 20;

/// A request for the snapshots of a build that awaits its answer.
#[derive(Debug)]
pub struct Fetch {
    /// The `web_url` of the pointer.
    pub web_url: String,
    /// Whether the request has failed once and was made again.
    pub retried: bool,
}

/// What came of a request.
#[derive(Debug)]
pub enum Reply {
    /// The transport failed.
    Failed,
    /// An answer came, and could not be read as a graph of nodes.
    Unreadable,
    /// The graph of nodes that came.
    Answer(SnapshotsData),
}

/// What is to be done next.
#[derive(Debug)]
pub enum Step {
    /// Wait, get `url`, and come back with what came of it.
    Get { fetch: Fetch, url: String, after_seconds: u64 },
    /// Nothing more: these are the screenshots.
    Done(Vec<ScreenshotData>),
}

/// What a `Step` holds.
pub ghost enum StepView {
    Get { web_url: Seq<char>, retried: bool, url: Seq<char>, after_seconds: u64 },
    Done(Seq<ScreenshotView>),
}

impl View for Step {
    type V = StepView;

    open spec fn view(&self) -> StepView {
        match self {
            Step::Get { fetch, url, after_seconds } => StepView::Get {
                web_url: fetch.web_url@,
                retried: fetch.retried,
                url: url@,
                after_seconds: *after_seconds,
            },
            Step::Done(screenshots) => StepView::Done(screenshot_views(screenshots@)),
        }
    }
}

/// The first step for a pointer: with a pointer that could be read, the
/// request for the snapshots of its build, at once; without one, the end with
/// no screenshot.
pub open spec fn first_step(pointer: Option<Main>) -> StepView {
    match pointer {
        Some(main) => StepView::Get {
            web_url: main.web_url@,
            retried: false,
            url: snapshots_url(main.web_url@),
            after_seconds: 0,
        },
        None => StepView::Done(Seq::empty()),
    }
}

/// The step after a reply. A request that failed is made once more, after a
/// delay; when it fails again, or an answer cannot be read, the end is reached
/// with no screenshot. A graph that came is resolved.
pub open spec fn next_step(fetch: Fetch, reply: Reply) -> StepView {
    match reply {
        Reply::Failed => if fetch.retried {
            StepView::Done(Seq::empty())
        } else {
            StepView::Get {
                web_url: fetch.web_url@,
                retried: true,
                url: snapshots_url(fetch.web_url@),
                after_seconds: RETRY_DELAY_SECONDS,
            }
        },
        Reply::Unreadable => StepView::Done(Seq::empty()),
        Reply::Answer(snapshots) => StepView::Done(
            records(snapshots.included@, snapshots.data@, fetch.web_url@),
        ),
    }
}

/// Begins to read the results that a pointer leads to.
pub fn start(pointer: Option<Main>) -> (step: Step)
    ensures
        step@ == first_step(pointer),
{
    match pointer {
        Some(main) => {
            let url = listing_url(main.web_url.as_str());
            let fetch = Fetch { web_url: main.web_url, retried: false };
            Step::Get { fetch, url, after_seconds: 0 }
        },
        None => {
            let none: Vec<ScreenshotData> = Vec::new();
            assert(screenshot_views(none@) =~= Seq::empty());
            Step::Done(none)
        },
    }
}

/// Reads the results out of the reply to a request, or says what to ask next.
pub fn read_results(fetch: Fetch, reply: Reply) -> (step: Step)
    ensures
        step@ == next_step(fetch, reply),
{
    match reply {
        Reply::Failed => {
            if fetch.retried {
                let none: Vec<ScreenshotData> = Vec::new();
                assert(screenshot_views(none@) =~= Seq::empty());
                Step::Done(none)
            } else {
                let url = listing_url(fetch.web_url.as_str());
                Step::Get {
                    fetch: Fetch { web_url: fetch.web_url, retried: true },
                    url,
                    after_seconds: RETRY_DELAY_SECONDS,
                }
            }
        },
        Reply::Unreadable => {
            let none: Vec<ScreenshotData> = Vec::new();
            assert(screenshot_views(none@) =~= Seq::empty());
            Step::Done(none)
        },
        Reply::Answer(snapshots) => Step::Done(
            snapshots_to_images(snapshots, fetch.web_url.as_str()),
        ),
    }
}

} // verus!

use flaky_report::screenshot::percy::{
    find_node, listing_url, read_results, snapshots_to_images, start, ComparisonAttributes,
    ComparisonRelationship, ComparisonTagAttributes, Fetch, ImageAttributes, Main, NodeKind,
    RelationshipData, RelationshipDatas, RelationshipSingleData, Reply, ReviewStateReason,
    ScreenshotRelationship, Snapshot, SnapshotAttributes, SnapshotRelationship, SnapshotsData,
    Step, RETRY_DELAY_SECONDS,
};
use flaky_report::screenshot::{DiffRatio, ScreenshotState, ONE_BITS, UNREPORTED_BITS, ZERO_BITS};

fn to(id: &str) -> RelationshipSingleData {
    RelationshipSingleData { data: Some(RelationshipData { id: id.to_string() }) }
}

fn nowhere() -> RelationshipSingleData {
    RelationshipSingleData { data: None }
}

fn snapshot(id: &str, name: &str, reason: ReviewStateReason, comparisons: &[&str]) -> Snapshot {
    Snapshot::Snapshots {
        id: id.to_string(),
        attributes: SnapshotAttributes { name: name.to_string(), review_state_reason: reason },
        relationships: SnapshotRelationship {
            comparisons: RelationshipDatas {
                data: comparisons.iter().map(|c| RelationshipData { id: c.to_string() }).collect(),
            },
        },
    }
}

fn comparison(
    id: &str,
    ratio: Option<f32>,
    base: RelationshipSingleData,
    head: RelationshipSingleData,
    tag: RelationshipSingleData,
) -> Snapshot {
    Snapshot::Comparisons {
        id: id.to_string(),
        attributes: ComparisonAttributes {
            diff_ratio: ratio.map(|r| DiffRatio { bits: r.to_bits() }),
            review_state_reason: None,
        },
        relationships: ComparisonRelationship {
            base_screenshot: base,
            head_screenshot: head,
            comparison_tag: tag,
        },
    }
}

fn screenshot(id: &str, image: RelationshipSingleData) -> Snapshot {
    Snapshot::Screenshots { id: id.to_string(), relationships: ScreenshotRelationship { image } }
}

fn image(id: &str, url: &str) -> Snapshot {
    Snapshot::Images { id: id.to_string(), attributes: ImageAttributes { url: url.to_string() } }
}

fn tag(id: &str, os_name: &str, os_version: &str, name: &str) -> Snapshot {
    Snapshot::ComparisonTags {
        id: id.to_string(),
        attributes: ComparisonTagAttributes {
            name: name.to_string(),
            os_name: os_name.to_string(),
            os_version: os_version.to_string(),
        },
    }
}

fn native() -> SnapshotsData {
    SnapshotsData {
        data: vec![
            snapshot("s1", "Rendering/Gradient.png", ReviewStateReason::NoDiffs, &["c1"]),
            Snapshot::Builds,
            snapshot("s2", "3D/Fog.png", ReviewStateReason::UnreviewedComparisons, &["c2"]),
            snapshot("s3", "UI/Text.png", ReviewStateReason::UserApproved, &["c3"]),
        ],
        included: vec![
            Snapshot::Browsers,
            image("i1", "https://images/base-1.png"),
            image("i2", "https://images/head-1.png"),
            image("i3", "https://images/base-2.png"),
            image("i4", "https://images/head-2.png"),
            image("i6", "https://images/head-3.png"),
            screenshot("b1", to("i1")),
            screenshot("h1", to("i2")),
            screenshot("b2", to("i3")),
            screenshot("h2", to("i4")),
            screenshot("h3", to("i6")),
            comparison("c1", Some(0.0), to("b1"), to("h1"), nowhere()),
            comparison("c2", Some(0.25), to("b2"), to("h2"), nowhere()),
            comparison("c3", None, nowhere(), to("h3"), nowhere()),
            Snapshot::Projects,
        ],
    }
}

#[test]
fn percy_read_file_native() {
    let images = snapshots_to_images(native(), "https://percy.io/org/project/builds/77");
    assert_eq!(images.len(), 3);

    assert_eq!(images[0].example, "Rendering/Gradient.png");
    assert_eq!(images[0].screenshot.0, "https://images/base-1.png");
    assert_eq!(images[0].changed, ScreenshotState::Similar);
    assert_eq!(images[0].tag, None);
    assert_eq!(images[0].diff_ratio.bits, 0.0f32.to_bits());
    assert_eq!(images[0].snapshot_url.0, "https://percy.io/org/project/builds/77/unchanged/s1");

    assert_eq!(images[1].example, "3D/Fog.png");
    assert_eq!(images[1].screenshot.0, "https://images/head-2.png");
    assert_eq!(images[1].changed, ScreenshotState::Changed);
    assert_eq!(images[1].diff_ratio.bits, 0.25f32.to_bits());
    assert_eq!(images[1].snapshot_url.0, "https://percy.io/org/project/builds/77/changed/s2");

    assert_eq!(images[2].example, "UI/Text.png");
    assert_eq!(images[2].screenshot.0, "https://images/head-3.png");
    assert_eq!(images[2].changed, ScreenshotState::Changed);
    assert_eq!(images[2].diff_ratio.bits, 9999.99f32.to_bits());
    assert_eq!(images[2].snapshot_url.0, "https://percy.io/org/project/builds/77/changed/s3");
}

#[test]
fn percy_read_file_mobile() {
    let data = SnapshotsData {
        data: vec![snapshot("s1", "breakout", ReviewStateReason::NoDiffs, &["c1", "c2"])],
        included: vec![
            tag("t1", "iOS", "17", "iPhone 15"),
            tag("t2", "Android", "14", "Pixel 8"),
            comparison("c1", Some(0.0), to("b1"), nowhere(), to("t1")),
            comparison("c2", Some(0.0), to("b2"), nowhere(), to("t2")),
            screenshot("b1", to("i1")),
            screenshot("b2", to("i2")),
            image("i1", "https://images/iphone.png"),
            image("i2", "https://images/pixel.png"),
        ],
    };
    let images = snapshots_to_images(data, "");
    assert_eq!(images.len(), 2);
    assert_eq!(images[0].example, "breakout");
    assert_eq!(images[0].tag.as_deref(), Some("iOS 17 / iPhone 15"));
    assert_eq!(images[0].screenshot.0, "https://images/iphone.png");
    assert_eq!(images[0].snapshot_url.0, "/unchanged/s1");
    assert_eq!(images[1].example, "breakout");
    assert_eq!(images[1].tag.as_deref(), Some("Android 14 / Pixel 8"));
    assert_eq!(images[1].screenshot.0, "https://images/pixel.png");
    assert_eq!(images[1].changed, ScreenshotState::Similar);
}

#[test]
fn percy_comparison_with_a_reason_of_its_own() {
    let with = |id: &str, reason: ReviewStateReason| Snapshot::Comparisons {
        id: id.to_string(),
        attributes: ComparisonAttributes { diff_ratio: None, review_state_reason: Some(reason) },
        relationships: ComparisonRelationship {
            base_screenshot: to("b"),
            head_screenshot: to("h"),
            comparison_tag: nowhere(),
        },
    };
    let data = SnapshotsData {
        data: vec![snapshot(
            "s1",
            "a/b.png",
            ReviewStateReason::UnreviewedComparisons,
            &["same", "approved", "other", "silent"],
        )],
        included: vec![
            with("same", ReviewStateReason::NoDiffs),
            with("approved", ReviewStateReason::UserApproved),
            with("other", ReviewStateReason::Other),
            comparison("silent", None, to("b"), to("h"), nowhere()),
            screenshot("b", to("ib")),
            screenshot("h", to("ih")),
            image("ib", "base.png"),
            image("ih", "head.png"),
        ],
    };
    let images = snapshots_to_images(data, "u");
    let seen: Vec<(&str, ScreenshotState, &str)> = images
        .iter()
        .map(|i| (i.screenshot.0.as_str(), i.changed, i.snapshot_url.0.as_str()))
        .collect();
    assert_eq!(
        seen,
        vec![
            ("base.png", ScreenshotState::Similar, "u/unchanged/s1"),
            ("head.png", ScreenshotState::Changed, "u/changed/s1"),
            ("", ScreenshotState::Changed, "u/changed/s1"),
            ("head.png", ScreenshotState::Changed, "u/changed/s1"),
        ]
    );
}

#[test]
fn percy_other_reason_has_no_image_and_is_changed() {
    let data = SnapshotsData {
        data: vec![snapshot("s1", "a/b.png", ReviewStateReason::Other, &["c1"])],
        included: vec![
            comparison("c1", Some(0.5), to("b1"), to("h1"), nowhere()),
            screenshot("b1", to("i1")),
            screenshot("h1", to("i1")),
            image("i1", "https://images/1.png"),
            image("", "https://images/nameless.png"),
        ],
    };
    let images = snapshots_to_images(data, "u");
    assert_eq!(images.len(), 1);
    assert_eq!(images[0].screenshot.0, "");
    assert_eq!(images[0].changed, ScreenshotState::Changed);
    assert_eq!(images[0].diff_ratio.bits, 0.5f32.to_bits());
    assert_eq!(images[0].snapshot_url.0, "u/changed/s1");
}

#[test]
fn percy_missing_nodes_leave_defaults() {
    let data = SnapshotsData {
        data: vec![
            snapshot("s1", "a/gone.png", ReviewStateReason::NoDiffs, &["nowhere"]),
            snapshot("s2", "a/no-base.png", ReviewStateReason::NoDiffs, &["c2"]),
            snapshot("s3", "a/no-screenshot.png", ReviewStateReason::NoDiffs, &["c3"]),
            snapshot("s4", "a/no-image.png", ReviewStateReason::NoDiffs, &["c4"]),
            snapshot("s5", "a/no-tag.png", ReviewStateReason::NoDiffs, &["c5"]),
            snapshot("s6", "a/none.png", ReviewStateReason::NoDiffs, &[]),
        ],
        included: vec![
            comparison("c2", None, nowhere(), to("h"), nowhere()),
            comparison("c3", Some(1.0), to("missing"), nowhere(), nowhere()),
            comparison("c4", Some(1.0), to("b4"), nowhere(), nowhere()),
            comparison("c5", Some(1.0), to("b5"), nowhere(), to("missing")),
            screenshot("h", to("i5")),
            screenshot("b4", to("missing")),
            screenshot("b5", to("i5")),
            image("i5", "https://images/5.png"),
        ],
    };
    let images = snapshots_to_images(data, "u");
    assert_eq!(images.len(), 5);
    assert_eq!(images[0].example, "a/gone.png");
    assert_eq!(images[0].screenshot.0, "");
    assert_eq!(images[0].tag, None);
    assert_eq!(images[0].diff_ratio.bits, UNREPORTED_BITS);
    assert_eq!(images[0].changed, ScreenshotState::Similar);
    assert_eq!(images[1].screenshot.0, "");
    assert_eq!(images[1].diff_ratio.bits, UNREPORTED_BITS);
    assert_eq!(images[2].screenshot.0, "");
    assert_eq!(images[2].diff_ratio.bits, ONE_BITS);
    assert_eq!(images[3].screenshot.0, "");
    assert_eq!(images[4].screenshot.0, "https://images/5.png");
    assert_eq!(images[4].tag, None);
}

#[test]
fn percy_first_node_of_an_id_counts() {
    let included = vec![
        image("x", "https://images/first.png"),
        screenshot("x", to("x")),
        image("x", "https://images/second.png"),
        comparison("x", None, to("x"), nowhere(), nowhere()),
    ];
    assert_eq!(find_node(&included, NodeKind::Images, "x"), Some(0));
    assert_eq!(find_node(&included, NodeKind::Screenshots, "x"), Some(1));
    assert_eq!(find_node(&included, NodeKind::Comparisons, "x"), Some(3));
    assert_eq!(find_node(&included, NodeKind::ComparisonTags, "x"), None);
    assert_eq!(find_node(&included, NodeKind::Images, "y"), None);
    let data = SnapshotsData {
        data: vec![snapshot("s", "a/b.png", ReviewStateReason::NoDiffs, &["x"])],
        included,
    };
    let images = snapshots_to_images(data, "u");
    assert_eq!(images[0].screenshot.0, "https://images/first.png");
}

#[test]
fn reason_gives_state() {
    assert_eq!(ScreenshotState::from(&ReviewStateReason::NoDiffs), ScreenshotState::Similar);
    assert_eq!(
        ScreenshotState::from(&ReviewStateReason::UnreviewedComparisons),
        ScreenshotState::Changed
    );
    assert_eq!(ScreenshotState::from(&ReviewStateReason::UserApproved), ScreenshotState::Changed);
    assert_eq!(ScreenshotState::from(&ReviewStateReason::Other), ScreenshotState::Changed);
}

#[test]
fn ratios_are_bit_patterns() {
    assert_eq!(ZERO_BITS, 0.0f32.to_bits());
    assert_eq!(ONE_BITS, 1.0f32.to_bits());
    assert_eq!(UNREPORTED_BITS, 9999.99f32.to_bits());
    assert_eq!(DiffRatio::zero().bits, ZERO_BITS);
    assert_eq!(DiffRatio::one().bits, ONE_BITS);
    assert_eq!(DiffRatio::unreported().bits, UNREPORTED_BITS);
    let samples =
        [0.0f32, -0.0, 1.0, 0.5, f32::MIN_POSITIVE, 1.0e-40, -1.0, f32::NAN, f32::INFINITY];
    for ratio in samples {
        assert_eq!(DiffRatio { bits: ratio.to_bits() }.is_zero(), ratio == 0.0, "{}", ratio);
    }
}

fn main_for(web_url: &str) -> Main {
    Main { web_url: web_url.to_string(), total_comparisons: 3, total_comparisons_diff: 1 }
}

#[test]
fn percy_listing_url_ends_in_the_build_id() {
    assert_eq!(
        listing_url("https://percy.io/org/project/builds/31415"),
        "https://percy.io/api/v1/builds/31415/snapshots"
    );
    assert_eq!(listing_url("31415"), "https://percy.io/api/v1/builds/31415/snapshots");
    assert_eq!(listing_url("a/"), "https://percy.io/api/v1/builds//snapshots");
}

#[test]
fn percy_without_pointer_ends_at_once() {
    match start(None) {
        Step::Done(screenshots) => assert!(screenshots.is_empty()),
        Step::Get { .. } => panic!("nothing to get"),
    }
}

#[test]
fn percy_retries_once_then_gives_up() {
    let Step::Get { fetch, url, after_seconds } =
        start(Some(main_for("https://percy.io/org/project/builds/77")))
    else {
        panic!("a request is due");
    };
    assert_eq!(url, "https://percy.io/api/v1/builds/77/snapshots");
    assert_eq!(after_seconds, 0);
    assert!(!fetch.retried);
    assert_eq!(fetch.web_url, "https://percy.io/org/project/builds/77");

    let Step::Get { fetch, url, after_seconds } = read_results(fetch, Reply::Failed) else {
        panic!("the request is due again");
    };
    assert_eq!(url, "https://percy.io/api/v1/builds/77/snapshots");
    assert_eq!(after_seconds, 20);
    assert_eq!(after_seconds, RETRY_DELAY_SECONDS);
    assert!(fetch.retried);

    match read_results(fetch, Reply::Failed) {
        Step::Done(screenshots) => assert!(screenshots.is_empty()),
        Step::Get { .. } => panic!("no third request"),
    }
}

#[test]
fn percy_unreadable_answer_gives_nothing() {
    let fetch = Fetch { web_url: "u/77".to_string(), retried: false };
    match read_results(fetch, Reply::Unreadable) {
        Step::Done(screenshots) => assert!(screenshots.is_empty()),
        Step::Get { .. } => panic!("no request after an answer"),
    }
}

#[test]
fn percy_answer_is_resolved_against_the_pointer() {
    for retried in [false, true] {
        let fetch = Fetch { web_url: "https://percy.io/o/p/builds/77".to_string(), retried };
        match read_results(fetch, Reply::Answer(native())) {
            Step::Done(screenshots) => {
                assert_eq!(screenshots.len(), 3);
                assert_eq!(
                    screenshots[0].snapshot_url.0,
                    "https://percy.io/o/p/builds/77/unchanged/s1"
                );
            },
            Step::Get { .. } => panic!("no request after an answer"),
        }
    }
}

#[test]
fn providers_are_asked_at_a_pace() {
    assert_eq!(flaky_report::screenshot::PACING_SECONDS, 1);
}

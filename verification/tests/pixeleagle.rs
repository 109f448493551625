use flaky_report::screenshot::pixeleagle::{
    comparison_to_screenshot_data, read_results, start, Comparison, ComparisonTarget, Difference,
    Reply, Screenshot, Step,
};
use flaky_report::screenshot::{DiffRatio, ScreenshotState};

fn shot(name: &str, hash: &str, diff: Option<Difference>) -> Screenshot {
    Screenshot { name: name.to_string(), hash: hash.to_string(), diff }
}

fn done(ratio: f32) -> Option<Difference> {
    Some(Difference::Done(DiffRatio { bits: ratio.to_bits() }))
}

fn sample() -> Comparison {
    Comparison {
        project_id: "p-1".to_string(),
        from: 41,
        to: 42,
        new: vec![shot("Rendering/New.png", "h-new", None)],
        diff: vec![
            shot("Rendering/Diff.png", "h-diff", done(0.125)),
            shot("Rendering/Busy.png", "h-busy", Some(Difference::Processing)),
            shot("Rendering/Unknown.png", "h-unknown", Some(Difference::Unknown)),
            shot("Rendering/Absent.png", "h-absent", None),
        ],
        unchanged: vec![shot("Rendering/Same.png", "h-same", done(0.75))],
    }
}

#[test]
fn pixeleagle_read_file_native() {
    let records = comparison_to_screenshot_data(sample());
    let names: Vec<&str> = records.iter().map(|r| r.example.as_str()).collect();
    assert_eq!(
        names,
        vec![
            "Rendering/New.png",
            "Rendering/Same.png",
            "Rendering/Diff.png",
            "Rendering/Busy.png",
            "Rendering/Unknown.png",
            "Rendering/Absent.png",
        ]
    );
    let states: Vec<ScreenshotState> = records.iter().map(|r| r.changed).collect();
    assert_eq!(
        states,
        vec![
            ScreenshotState::Changed,
            ScreenshotState::Similar,
            ScreenshotState::Changed,
            ScreenshotState::Changed,
            ScreenshotState::Changed,
            ScreenshotState::Changed,
        ]
    );
    let ratios: Vec<f32> = records.iter().map(|r| f32::from_bits(r.diff_ratio.bits)).collect();
    assert_eq!(ratios, vec![0.0, 0.0, 0.125, 1.0, 1.0, 1.0]);
    assert!(records.iter().all(|r| r.tag.is_none()));
}

#[test]
fn pixeleagle_urls() {
    let records = comparison_to_screenshot_data(sample());
    assert_eq!(records[0].screenshot.0, "https://pixel-eagle.com/files/p-1/screenshot/h-new");
    assert_eq!(records[1].screenshot.0, "https://pixel-eagle.com/p-1/screenshot/h-same");
    assert_eq!(records[2].screenshot.0, "https://pixel-eagle.com/p-1/screenshot/h-diff");
    assert_eq!(
        records[0].snapshot_url.0,
        "https://pixel-eagle.com/project/p-1/run/41/compare/42?screenshot=Rendering/New.png"
    );
    assert_eq!(
        records[2].snapshot_url.0,
        "https://pixel-eagle.com/project/p-1/run/41/compare/42?screenshot=Rendering/Diff.png"
    );
}

#[test]
fn pixeleagle_empty_buckets_give_nothing() {
    let comparison = Comparison {
        project_id: String::new(),
        from: 0,
        to: 0,
        new: vec![],
        diff: vec![],
        unchanged: vec![],
    };
    assert!(comparison_to_screenshot_data(comparison).is_empty());
}

#[test]
fn pixeleagle_asks_for_the_comparison_of_the_pointer() {
    let target = ComparisonTarget { project_id: "p-1".to_string(), from: 9, to: 4_000_000_000 };
    match start(Some(target)) {
        Step::Get { url } => {
            assert_eq!(url, "https://pixel-eagle.com/p-1/runs/9/compare/4000000000")
        },
        Step::Done(_) => panic!("a request is due"),
    }
    match start(None) {
        Step::Done(screenshots) => assert!(screenshots.is_empty()),
        Step::Get { .. } => panic!("nothing to get"),
    }
}

#[test]
fn pixeleagle_reads_only_an_answer() {
    assert!(read_results(Reply::Failed).is_empty());
    assert!(read_results(Reply::Unreadable).is_empty());
    assert_eq!(read_results(Reply::Answer(sample())).len(), 6);
}

use flaky_report::model::{Error, Outcome, Platform, Provider};
use flaky_report::run::{note, parse_listing, rerun_file_role, strip_colors, RerunRole, Run};
use flaky_report::screenshot::{
    DiffRatio, ImageUrl, ScreenshotData, ScreenshotState, SnapshotViewerUrl,
};
use flaky_report::table::{NameSet, Table};

fn shot(
    example: &str,
    state: ScreenshotState,
    ratio: f32,
    tag: Option<&str>,
    image: &str,
) -> ScreenshotData {
    ScreenshotData {
        example: example.to_string(),
        screenshot: ImageUrl(image.to_string()),
        changed: state,
        tag: tag.map(|t| t.to_string()),
        diff_ratio: DiffRatio { bits: ratio.to_bits() },
        snapshot_url: SnapshotViewerUrl(format!("viewer/{}", image)),
    }
}

fn new_run() -> Run {
    Run::new("2024-01-02 15:30".to_string(), "abc".to_string())
}

#[test]
fn listing_records_each_line() {
    let mut run = new_run();
    let mut registry = Table::new();
    let text = "Rendering/Gradient - timeout\n3D/Fog - crashed\r\n";
    let recorded = run.record_listing(&mut registry, &Platform::Linux, Outcome::Failures, text);
    assert_eq!(recorded, Ok(()));
    assert_eq!(run.results.get("Gradient", "Linux"), Some(&Outcome::Failures));
    assert_eq!(run.results.get("Fog", "Linux"), Some(&Outcome::Failures));
    assert_eq!(run.results.get("Fog", "Windows"), None);
    assert_eq!(run.results.as_rows().len(), 2);
    assert_eq!(registry.get("Rendering", "Gradient"), Some(&true));
    assert_eq!(registry.get("3D", "Fog"), Some(&true));
    assert_eq!(run.date, "2024-01-02 15:30");
    assert_eq!(run.commit, "abc");
}

#[test]
fn only_a_failure_flags_an_example() {
    let mut run = new_run();
    let mut registry = Table::new();
    run.record_listing(&mut registry, &Platform::Linux, Outcome::Successes, "a/one - ok").unwrap();
    run.record_listing(&mut registry, &Platform::Linux, Outcome::NoScreenshots, "a/two - ok")
        .unwrap();
    run.record_listing(&mut registry, &Platform::Linux, Outcome::Failures, "a/three - bad")
        .unwrap();
    assert_eq!(registry.get("a", "one"), Some(&false));
    assert_eq!(registry.get("a", "two"), Some(&false));
    assert_eq!(registry.get("a", "three"), Some(&true));
    run.record_listing(&mut registry, &Platform::Macos, Outcome::Successes, "a/three - ok")
        .unwrap();
    assert_eq!(registry.get("a", "three"), Some(&true));
    assert_eq!(run.results.get("three", "macOS"), Some(&Outcome::Successes));
    assert_eq!(run.results.get("three", "Linux"), Some(&Outcome::Failures));
}

#[test]
fn a_later_listing_overwrites_a_result() {
    let mut run = new_run();
    let mut registry = Table::new();
    run.record_listing(&mut registry, &Platform::Linux, Outcome::Failures, "a/b - x").unwrap();
    run.record_listing(&mut registry, &Platform::Linux, Outcome::Successes, "a/b - y").unwrap();
    assert_eq!(run.results.get("b", "Linux"), Some(&Outcome::Successes));
    assert_eq!(registry.get("a", "b"), Some(&true));
}

#[test]
fn a_malformed_line_fails_the_listing_and_records_nothing() {
    let mut run = new_run();
    let mut registry = Table::new();
    let text = "a/b - ok\nno example here\nc/d - ok";
    assert_eq!(
        run.record_listing(&mut registry, &Platform::Linux, Outcome::Failures, text),
        Err(Error::MalformedLine)
    );
    assert!(run.results.as_rows().is_empty());
    assert!(registry.as_rows().is_empty());
    assert_eq!(parse_listing("a/b - ok\n\nc/d - ok").err(), Some(Error::MalformedLine));
    assert_eq!(parse_listing("").unwrap().len(), 0);
    assert_eq!(parse_listing("a/b - ok\n").unwrap().len(), 1);
}

#[test]
fn note_keeps_a_flag_once_set() {
    let mut registry = Table::new();
    note(&mut registry, "a", "b", false);
    assert_eq!(registry.get("a", "b"), Some(&false));
    note(&mut registry, "a", "b", true);
    assert_eq!(registry.get("a", "b"), Some(&true));
    note(&mut registry, "a", "b", false);
    assert_eq!(registry.get("a", "b"), Some(&true));
    assert_eq!(registry.as_rows().len(), 1);
}

#[test]
fn screenshot_without_result_is_a_success() {
    let mut run = new_run();
    let mut registry = Table::new();
    let mut tags = NameSet::new();
    let shots = vec![shot("Rendering/Gradient.png", ScreenshotState::Similar, 0.0, None, "g.png")];
    assert_eq!(
        run.record_screenshots(&mut registry, &mut tags, &Platform::Linux, Provider::Percy, &shots),
        Ok(())
    );
    assert_eq!(run.results.get("Gradient", "Linux"), Some(&Outcome::Successes));
    let kept = run.screenshots.get("Gradient", "Linux").unwrap();
    assert_eq!(kept.image.0, "g.png");
    assert_eq!(kept.state, ScreenshotState::Similar);
    assert_eq!(kept.viewer.0, "viewer/g.png");
    assert_eq!(registry.get("Rendering", "Gradient"), Some(&false));
    assert!(tags.as_names().is_empty());
}

#[test]
fn screenshot_leaves_a_recorded_result() {
    let mut run = new_run();
    let mut registry = Table::new();
    let mut tags = NameSet::new();
    run.record_listing(&mut registry, &Platform::Linux, Outcome::Failures, "Rendering/Gradient - x")
        .unwrap();
    let shots = vec![shot("Rendering/Gradient.png", ScreenshotState::Similar, 0.0, None, "g.png")];
    run.record_screenshots(&mut registry, &mut tags, &Platform::Linux, Provider::Percy, &shots)
        .unwrap();
    assert_eq!(run.results.get("Gradient", "Linux"), Some(&Outcome::Failures));
}

#[test]
fn changed_screenshot_flags_its_example() {
    let mut run = new_run();
    let mut registry = Table::new();
    let mut tags = NameSet::new();
    let shots = vec![
        shot("3D/Fog.png", ScreenshotState::Changed, 0.5, None, "fog.png"),
        shot("3D/Sky.png", ScreenshotState::Similar, 0.5, None, "sky.png"),
    ];
    run.record_screenshots(&mut registry, &mut tags, &Platform::Windows, Provider::Percy, &shots)
        .unwrap();
    assert_eq!(registry.get("3D", "Fog"), Some(&true));
    assert_eq!(registry.get("3D", "Sky"), Some(&false));
    assert_eq!(run.screenshots.get("Fog", "Windows").unwrap().state, ScreenshotState::Changed);
    assert_eq!(run.screenshots.get("Sky", "Windows").unwrap().state, ScreenshotState::Similar);
}

#[test]
fn zero_ratio_is_kept_as_similar() {
    for zero in [0.0f32, -0.0] {
        let mut run = new_run();
        let mut registry = Table::new();
        let mut tags = NameSet::new();
        let shots = vec![shot("3D/Fog.png", ScreenshotState::Changed, zero, None, "fog.png")];
        let linux = Platform::Linux;
        run.record_screenshots(&mut registry, &mut tags, &linux, Provider::PixelEagle, &shots)
            .unwrap();
        assert_eq!(run.screenshots.get("Fog", "Linux").unwrap().state, ScreenshotState::Similar);
        assert_eq!(registry.get("3D", "Fog"), Some(&true));
    }
}

#[test]
fn percy_is_kept_over_pixeleagle() {
    let percy = vec![shot("3D/Fog.png", ScreenshotState::Similar, 0.0, None, "percy.png")];
    let eagle = vec![
        shot("3D/Fog.png", ScreenshotState::Changed, 0.5, None, "eagle.png"),
        shot("3D/Sky.png", ScreenshotState::Changed, 0.5, None, "eagle-sky.png"),
        shot("3D/Sky.png", ScreenshotState::Changed, 0.5, None, "eagle-sky-2.png"),
    ];
    for percy_first in [true, false] {
        let mut run = new_run();
        let mut registry = Table::new();
        let mut tags = NameSet::new();
        let linux = Platform::Linux;
        if percy_first {
            run.record_screenshots(&mut registry, &mut tags, &linux, Provider::Percy, &percy)
                .unwrap();
            run.record_screenshots(&mut registry, &mut tags, &linux, Provider::PixelEagle, &eagle)
                .unwrap();
        } else {
            run.record_screenshots(&mut registry, &mut tags, &linux, Provider::PixelEagle, &eagle)
                .unwrap();
            run.record_screenshots(&mut registry, &mut tags, &linux, Provider::Percy, &percy)
                .unwrap();
        }
        let fog = run.screenshots.get("Fog", "Linux").unwrap();
        assert_eq!(fog.image.0, "percy.png");
        assert_eq!(fog.state, ScreenshotState::Similar);
        assert_eq!(run.screenshots.get("Sky", "Linux").unwrap().image.0, "eagle-sky.png");
    }
}

#[test]
fn the_last_percy_screenshot_of_a_key_is_kept() {
    let mut run = new_run();
    let mut registry = Table::new();
    let mut tags = NameSet::new();
    let shots = vec![
        shot("3D/Fog.png", ScreenshotState::Similar, 0.5, None, "first.png"),
        shot("3D/Fog.png", ScreenshotState::Changed, 0.5, None, "second.png"),
    ];
    run.record_screenshots(&mut registry, &mut tags, &Platform::Linux, Provider::Percy, &shots)
        .unwrap();
    assert_eq!(run.screenshots.get("Fog", "Linux").unwrap().image.0, "second.png");
    assert_eq!(run.screenshots.as_rows().len(), 1);
}

#[test]
fn mobile_screenshots_fan_out_by_tag() {
    let mut run = new_run();
    let mut registry = Table::new();
    let mut tags = NameSet::new();
    let shots = vec![
        shot("breakout", ScreenshotState::Similar, 0.0, Some("iOS 17 / iPhone 15"), "a.png"),
        shot("breakout", ScreenshotState::Changed, 0.5, Some("Android 14 / Pixel 8"), "b.png"),
        shot("no/tag.png", ScreenshotState::Similar, 0.0, None, "c.png"),
        shot("breakout", ScreenshotState::Similar, 0.0, Some("iOS 17 / iPhone 15"), "d.png"),
    ];
    run.record_screenshots(&mut registry, &mut tags, &Platform::Mobile, Provider::Percy, &shots)
        .unwrap();
    assert_eq!(run.screenshots.get("breakout", "iOS 17 / iPhone 15").unwrap().image.0, "d.png");
    assert_eq!(run.screenshots.get("breakout", "Android 14 / Pixel 8").unwrap().image.0, "b.png");
    assert_eq!(run.screenshots.get("no/tag.png", "Mobile").unwrap().image.0, "c.png");
    assert_eq!(run.results.get("breakout", "iOS 17 / iPhone 15"), Some(&Outcome::Successes));
    assert_eq!(registry.get("Mobile", "breakout"), Some(&true));
    assert_eq!(registry.get("Mobile", "no/tag.png"), Some(&false));
    assert_eq!(
        tags.as_names(),
        &vec!["iOS 17 / iPhone 15".to_string(), "Android 14 / Pixel 8".to_string()]
    );
    assert!(tags.contains("iOS 17 / iPhone 15"));
    assert!(!tags.contains("Mobile"));
}

#[test]
fn a_tag_off_the_mobile_platform_names_the_column_only() {
    let mut run = new_run();
    let mut registry = Table::new();
    let mut tags = NameSet::new();
    let shots = vec![shot("3D/Fog.png", ScreenshotState::Similar, 0.0, Some("Firefox"), "a.png")];
    run.record_screenshots(&mut registry, &mut tags, &Platform::Linux, Provider::Percy, &shots)
        .unwrap();
    assert!(run.screenshots.contains("Fog", "Firefox"));
    assert!(!run.screenshots.contains("Fog", "Linux"));
    assert!(tags.as_names().is_empty());
}

#[test]
fn a_malformed_example_fails_the_screenshots_and_records_nothing() {
    let mut run = new_run();
    let mut registry = Table::new();
    let mut tags = NameSet::new();
    let shots = vec![
        shot("3D/Fog.png", ScreenshotState::Changed, 0.5, None, "a.png"),
        shot("Fog.png", ScreenshotState::Changed, 0.5, None, "b.png"),
    ];
    assert_eq!(
        run.record_screenshots(&mut registry, &mut tags, &Platform::Linux, Provider::Percy, &shots),
        Err(Error::MalformedExample)
    );
    assert!(run.screenshots.as_rows().is_empty());
    assert!(run.results.as_rows().is_empty());
    assert!(registry.as_rows().is_empty());
    let mobile = Platform::Mobile;
    assert_eq!(
        run.record_screenshots(&mut registry, &mut tags, &mobile, Provider::Percy, &shots),
        Ok(())
    );
}

#[test]
fn rerun_files_by_name() {
    assert!(matches!(rerun_file_role("successes"), RerunRole::Successes));
    assert!(matches!(rerun_file_role("failures"), RerunRole::Other));
    assert!(matches!(rerun_file_role("log"), RerunRole::Other));
    assert!(matches!(rerun_file_role("a.log.txt"), RerunRole::Other));
    match rerun_file_role("Gradient.log") {
        RerunRole::Log(example) => assert_eq!(example, "Gradient"),
        _ => panic!("a log"),
    }
    match rerun_file_role(".log") {
        RerunRole::Log(example) => assert_eq!(example, ""),
        _ => panic!("a log"),
    }
}

#[test]
fn rerun_success_overwrites_a_failure() {
    let mut run = new_run();
    let mut registry = Table::new();
    let mut tags = NameSet::new();
    run.record_listing(&mut registry, &Platform::Windows, Outcome::Failures, "3D/Fog - crashed")
        .unwrap();
    let shots = vec![shot("3D/Fog.png", ScreenshotState::Changed, 0.5, None, "fog.png")];
    run.record_screenshots(&mut registry, &mut tags, &Platform::Windows, Provider::Percy, &shots)
        .unwrap();
    assert_eq!(run.results.get("Fog", "Windows"), Some(&Outcome::Failures));
    let recorded = run.record_rerun(&Platform::Windows, "successes", "3D/Fog - ok\n3D/Sky - ok");
    assert_eq!(recorded, Ok(()));
    assert_eq!(run.results.get("Fog", "Windows"), Some(&Outcome::NoScreenshots));
    assert_eq!(run.results.get("Sky", "Windows"), Some(&Outcome::NoScreenshots));
    assert_eq!(run.screenshots.get("Fog", "Windows").unwrap().image.0, "fog.png");
    assert_eq!(run.screenshots.as_rows().len(), 1);
    assert_eq!(registry.get("3D", "Fog"), Some(&true));
    assert_eq!(registry.get("3D", "Sky"), None);
}

#[test]
fn rerun_with_a_malformed_line_records_nothing() {
    let mut run = new_run();
    assert_eq!(
        run.record_rerun(&Platform::Linux, "successes", "3D/Fog - ok\nSky"),
        Err(Error::MalformedLine)
    );
    assert!(run.results.as_rows().is_empty());
}

#[test]
fn rerun_log_is_kept_without_colours() {
    let mut run = new_run();
    let raw = "\u{1b}[1m\u{1b}[31merror\u{1b}[0m: \u{1b}[2mnote\u{1b}[0m \
               \u{1b}[32mok\u{1b}[33m! [34m [3[0m1m";
    assert_eq!(run.record_rerun(&Platform::Macos, "Fog.log", raw), Ok(()));
    let log = run.logs.get("Fog", "macOS").unwrap();
    assert_eq!(log, "error: note ok! [34m [3[0m1m");
    assert_eq!(
        *log,
        raw.replace("\u{1b}[0m", "")
            .replace("\u{1b}[1m", "")
            .replace("\u{1b}[2m", "")
            .replace("\u{1b}[31m", "")
            .replace("\u{1b}[32m", "")
            .replace("\u{1b}[33m", "")
    );
    assert_eq!(strip_colors("plain"), "plain");
    assert_eq!(strip_colors("\u{1b}[0m"), "");
    assert_eq!(strip_colors("[0m"), "[0m");
    assert_eq!(strip_colors("\u{1b}"), "\u{1b}");
    assert_eq!(strip_colors("\u{1b}[34mblue\u{1b}[0m"), "\u{1b}[34mblue");
    assert!(run.results.as_rows().is_empty());
    assert_eq!(run.record_rerun(&Platform::Macos, "notes.txt", "3D/Fog - ok"), Ok(()));
    assert!(run.results.as_rows().is_empty());
    assert_eq!(run.logs.as_rows().len(), 1);
}

#[test]
fn colours_are_taken_out_one_after_another() {
    // Without the reset in its middle this is red, which is taken out later.
    assert_eq!(strip_colors("\u{1b}[3\u{1b}[0m1m"), "");
    // Without the red in its middle this is a reset, which was taken out before.
    assert_eq!(strip_colors("\u{1b}[\u{1b}[31m0m"), "\u{1b}[0m");
    assert_eq!(strip_colors("\u{1b}[1\u{1b}[0mm"), "");
    assert_eq!(strip_colors("\u{1b}[3\u{1b}[33m2m"), "\u{1b}[32m");
    assert_eq!(strip_colors("\u{1b}\u{1b}[0m[1m"), "");
}

#[test]
fn table_keeps_one_row_for_a_key() {
    let mut table: Table<bool> = Table::new();
    assert!(!table.contains("a", "b"));
    assert!(!table.contains_outer("a"));
    table.insert("a".to_string(), "b".to_string(), false);
    table.insert("a".to_string(), "c".to_string(), false);
    table.insert("a".to_string(), "b".to_string(), true);
    assert_eq!(table.as_rows().len(), 2);
    assert_eq!(table.get("a", "b"), Some(&true));
    assert_eq!(table.get("a", "c"), Some(&false));
    assert_eq!(table.get("b", "a"), None);
    assert_eq!(table.position("a", "c"), Some(1));
    assert_eq!(table.position("c", "a"), None);
    assert!(table.contains_outer("a"));
    assert!(!table.contains_outer("b"));
    let mut names = NameSet::new();
    names.insert("x".to_string());
    names.insert("y".to_string());
    names.insert("x".to_string());
    assert_eq!(names.as_names(), &vec!["x".to_string(), "y".to_string()]);
}

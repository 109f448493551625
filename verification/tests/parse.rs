use flaky_report::model::{Error, Kind, Platform};
use flaky_report::parse::{parse_artifact_name, parse_result_line, parse_screenshot_example};

#[test]
fn line_gives_category_and_name() {
    let example = parse_result_line("Rendering/Gradient - timeout").unwrap();
    assert_eq!(example.category, "Rendering");
    assert_eq!(example.name, "Gradient");
}

#[test]
fn line_without_dash_is_malformed() {
    assert_eq!(parse_result_line("Rendering/Gradient").err(), Some(Error::MalformedLine));
    assert_eq!(parse_result_line("Rendering/Gradient -timeout").err(), Some(Error::MalformedLine));
    assert_eq!(parse_result_line("").err(), Some(Error::MalformedLine));
}

#[test]
fn line_without_slash_is_malformed() {
    assert_eq!(parse_result_line("Gradient - timeout").err(), Some(Error::MalformedLine));
    assert_eq!(parse_result_line("Gradient - a/b").err(), Some(Error::MalformedLine));
}

#[test]
fn line_is_cut_at_the_first_dash_and_the_second_slash() {
    let example = parse_result_line("3D/Fog/extra - a - b").unwrap();
    assert_eq!(example.category, "3D");
    assert_eq!(example.name, "Fog");
    let example = parse_result_line("/ - ").unwrap();
    assert_eq!(example.category, "");
    assert_eq!(example.name, "");
}

#[test]
fn screenshot_example_loses_its_extension() {
    let example = parse_screenshot_example("Rendering/Gradient.png").unwrap();
    assert_eq!(example.category, "Rendering");
    assert_eq!(example.name, "Gradient");
    assert_eq!(parse_screenshot_example("Gradient.png").err(), Some(Error::MalformedExample));
    assert_eq!(parse_screenshot_example("a.b/c").err(), Some(Error::MalformedExample));
}

#[test]
fn artifact_names() {
    assert_eq!(parse_artifact_name("Linux-successes"), Ok((Platform::Linux, Kind::Successes)));
    assert_eq!(parse_artifact_name("macOS-failures"), Ok((Platform::Macos, Kind::Failures)));
    assert_eq!(
        parse_artifact_name("Windows-no_screenshots"),
        Ok((Platform::Windows, Kind::NoScreenshots))
    );
    assert_eq!(parse_artifact_name("mobile-percy"), Ok((Platform::Mobile, Kind::Percy)));
    assert_eq!(parse_artifact_name("Linux-pixeleagle"), Ok((Platform::Linux, Kind::PixelEagle)));
    assert_eq!(parse_artifact_name("Linux-percy-2"), Ok((Platform::Linux, Kind::Percy)));
}

#[test]
fn artifact_name_errors() {
    assert_eq!(parse_artifact_name("Solaris-failures"), Err(Error::UnknownPlatform));
    assert_eq!(parse_artifact_name("Linux_failures"), Err(Error::UnknownPlatform));
    assert_eq!(parse_artifact_name("linux-failures"), Err(Error::UnknownPlatform));
    assert_eq!(parse_artifact_name("MACOS-successes"), Err(Error::UnknownPlatform));
    assert_eq!(parse_artifact_name("Mobile-percy"), Err(Error::UnknownPlatform));
    assert_eq!(parse_artifact_name(""), Err(Error::UnknownPlatform));
    assert_eq!(parse_artifact_name("Linux"), Err(Error::MalformedArtifactName));
    assert_eq!(parse_artifact_name("Linux-"), Err(Error::UnknownKind));
    assert_eq!(parse_artifact_name("Linux-Successes"), Err(Error::UnknownKind));
}

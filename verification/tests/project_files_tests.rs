use choreo::project_files::{
    contains_build_gradle, matcher_from_compiled, traj_segment_matcher, traj_segment_pattern,
};

#[test]
fn no_directory_is_an_error() {
    assert_eq!(contains_build_gradle(None), Err("Directory does not exist"));
}

#[test]
fn finds_build_gradle_among_names() {
    let names = vec!["src".to_string(), "build.gradle".to_string(), "x.chor".to_string()];
    assert_eq!(contains_build_gradle(Some(&names)), Ok(true));
}

#[test]
fn no_build_gradle_among_names() {
    let names = vec!["build.gradle.kts".to_string(), "Build.gradle".to_string()];
    assert_eq!(contains_build_gradle(Some(&names)), Ok(false));
    assert_eq!(contains_build_gradle(Some(&vec![])), Ok(false));
}

#[test]
fn pattern_escapes_the_name() {
    assert_eq!(traj_segment_pattern("auto"), r"auto\.\d+\.traj");
    assert_eq!(traj_segment_pattern("a.b(1)"), r"a\.b\(1\)\.\d+\.traj");
    assert_eq!(traj_segment_pattern(""), r"\.\d+\.traj");
}

#[test]
fn segments_of_a_trajectory_are_selected() {
    let m = traj_segment_matcher("/tmp/deploy", true, "auto").unwrap();
    assert!(m.is_traj_segment(Some("auto.1.traj"), true));
    assert!(m.is_traj_segment(Some("auto.12.traj"), true));
    // the match may lie anywhere in the name
    assert!(m.is_traj_segment(Some("old_auto.3.traj.bak"), true));
    assert!(!m.is_traj_segment(Some("auto.traj"), true));
    assert!(!m.is_traj_segment(Some("auto.x.traj"), true));
    assert!(!m.is_traj_segment(Some("other.1.traj"), true));
}

#[test]
fn only_files_with_text_names_are_selected() {
    let m = traj_segment_matcher("/tmp/deploy", true, "auto").unwrap();
    assert!(!m.is_traj_segment(Some("auto.1.traj"), false));
    assert!(!m.is_traj_segment(None, true));
}

#[test]
fn special_characters_of_the_name_are_literal() {
    let m = traj_segment_matcher("/tmp/deploy", true, "a.b").unwrap();
    assert!(m.is_traj_segment(Some("a.b.2.traj"), true));
    assert!(!m.is_traj_segment(Some("axb.2.traj"), true));
}

#[test]
fn unicode_digits_count_as_digits() {
    let m = traj_segment_matcher("/tmp/deploy", true, "auto").unwrap();
    assert!(m.is_traj_segment(Some("auto.\u{0663}.traj"), true));
}

#[test]
fn a_missing_directory_is_reported() {
    match traj_segment_matcher("/no/such/dir", false, "auto") {
        Err(e) => assert_eq!(e, "/no/such/dir was not a directory"),
        Ok(_) => panic!("expected an error"),
    }
}

#[test]
fn a_name_too_large_to_compile_is_reported() {
    let name = "a".repeat(4_000_000);
    match traj_segment_matcher("/tmp/deploy", true, &name) {
        Err(e) => assert_eq!(e, format!("{} was an invalid trajectory name", name)),
        Ok(_) => panic!("expected an error"),
    }
}

#[test]
fn a_compiled_matcher_is_handed_on() {
    let m = traj_segment_matcher("/tmp/deploy", true, "auto").unwrap();
    let handed = matcher_from_compiled("auto", Ok(m)).unwrap();
    assert!(handed.is_traj_segment(Some("auto.4.traj"), true));
}

#[test]
fn a_compile_error_becomes_the_invalid_name_message() {
    let err = regex::Regex::new("(").unwrap_err();
    match matcher_from_compiled("auto", Err(err)) {
        Err(e) => assert_eq!(e, "auto was an invalid trajectory name"),
        Ok(_) => panic!("expected an error"),
    }
}

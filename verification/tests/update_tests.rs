use brel::config::VersionFileFormat;
use brel::update::{
    FileUpdate, UpdateError, apply_version_updates, detect_file_format, update_file_content,
    update_json_content, update_toml_content,
};

fn one_file(path: &str, content: &str, selectors: Vec<&str>) -> FileUpdate {
    FileUpdate {
        path: path.to_string(),
        selectors: selectors.into_iter().map(|s| s.to_string()).collect(),
        format_override: None,
        content: Some(content.to_string()),
    }
}

#[test]
fn updates_nested_json_key() {
    let content = "{\n  \"package\": {\"version\": \"1.0.0\"},\n  \"name\": \"demo\"\n}\n";
    let files = vec![one_file("package.json", content, vec!["package.version"])];
    let (writes, result) = apply_version_updates("1.1.0", &files);
    let report = result.unwrap();
    assert_eq!(report.changed_files, vec!["package.json".to_string()]);
    assert_eq!(writes.len(), 1);
    assert!(writes[0].1.contains("\"version\": \"1.1.0\""));
    assert!(writes[0].1.ends_with('\n'));
}

#[test]
fn updates_json_indexed_value() {
    let content = "{\n  \"packages\": [\n    {\"name\": \"a\", \"version\": \"1.0.0\"},\n    {\"name\": \"b\", \"version\": \"2.0.0\"}\n  ]\n}\n";
    let out = update_json_content("package.json", &vec!["packages[1].version".to_string()], content, "9.9.9")
        .unwrap()
        .expect("expected a change");
    let v: serde_json::Value = serde_json::from_str(&out).unwrap();
    assert_eq!(
        v["packages"][0]["version"],
        serde_json::Value::String("1.0.0".to_string())
    );
    assert_eq!(
        v["packages"][1]["version"],
        serde_json::Value::String("9.9.9".to_string())
    );
    assert!(out.contains("\"name\": \"a\",\n      \"version\": \"1.0.0\""));
    assert!(out.contains("\"name\": \"b\",\n      \"version\": \"9.9.9\""));
}

#[test]
fn updates_all_json_filter_matches() {
    let content = "{\n  \"package\": [\n    {\"name\": \"brel\", \"version\": \"1.0.0\"},\n    {\"name\": \"other\", \"version\": \"2.0.0\"},\n    {\"name\": \"brel\", \"version\": \"3.0.0\"}\n  ]\n}\n";
    let out = update_json_content(
        "package.json",
        &vec!["package[name=brel].version".to_string()],
        content,
        "7.7.7",
    )
    .unwrap()
    .expect("expected a change");
    assert_eq!(out.matches("\"version\": \"7.7.7\"").count(), 2);
    assert!(out.contains("\"version\": \"2.0.0\""));
    let v: serde_json::Value = serde_json::from_str(&out).unwrap();
    assert_eq!(
        v["package"][1]["version"],
        serde_json::Value::String("2.0.0".to_string())
    );
}

#[test]
fn updates_nested_toml_key_without_reformatting() {
    let content = "[package]\n# Keep this comment\nname = \"demo\"\nversion = \"1.0.0\"\n";
    let out = update_toml_content(
        "Cargo.toml",
        &vec!["package.version".to_string()],
        content,
        "1.1.0",
    )
    .unwrap()
    .expect("expected a change");
    assert!(out.contains("# Keep this comment"));
    assert!(out.contains("version = \"1.1.0\""));
    assert!(out.contains("name = \"demo\""));
}

#[test]
fn updates_cargo_lock_style_selector() {
    let content = "version = 4\n\n[[package]]\nname = \"dep\"\nversion = \"0.1.0\"\n\n[[package]]\nname = \"brel\"\nversion = \"0.2.0\"\n";
    let files = vec![FileUpdate {
        path: "Cargo.lock".to_string(),
        selectors: vec!["package[name=brel].version".to_string()],
        format_override: Some(VersionFileFormat::Toml),
        content: Some(content.to_string()),
    }];
    let (writes, result) = apply_version_updates("0.3.0", &files);
    let report = result.unwrap();
    assert_eq!(report.changed_files, vec!["Cargo.lock".to_string()]);
    assert!(writes[0].1.contains("name = \"dep\"\nversion = \"0.1.0\""));
    assert!(writes[0].1.contains("name = \"brel\"\nversion = \"0.3.0\""));
}

#[test]
fn fails_when_selector_matches_no_values() {
    let err = update_json_content(
        "package.json",
        &vec!["version".to_string()],
        "{ \"name\": \"demo\" }\n",
        "1.1.0",
    )
    .unwrap_err();
    match err {
        UpdateError::SelectorNoMatch { path, selector } => {
            assert_eq!(path, "package.json");
            assert_eq!(selector, "version");
        }
        other => panic!("unexpected error: {:?}", other),
    }
}

#[test]
fn fails_when_json_target_is_not_string() {
    let err = update_json_content(
        "package.json",
        &vec!["version".to_string()],
        "{ \"version\": {\"major\": 1} }\n",
        "1.1.0",
    )
    .unwrap_err();
    match err {
        UpdateError::NonStringTarget { path, selector } => {
            assert_eq!(path, "package.json");
            assert_eq!(selector, "version");
        }
        other => panic!("unexpected error: {:?}", other),
    }
}

#[test]
fn fails_when_toml_target_is_not_string() {
    let err = update_toml_content(
        "Cargo.toml",
        &vec!["package.version".to_string()],
        "[package]\nversion = 1\n",
        "1.1.0",
    )
    .unwrap_err();
    match err {
        UpdateError::NonStringTarget { .. } => {}
        other => panic!("unexpected error: {:?}", other),
    }
}

#[test]
fn fails_when_filter_is_applied_to_non_array() {
    let err = update_json_content(
        "package.json",
        &vec!["package[name=brel].version".to_string()],
        "{\n  \"package\": {\"name\": \"brel\", \"version\": \"1.0.0\"}\n}\n",
        "1.1.0",
    )
    .unwrap_err();
    match err {
        UpdateError::SelectorTypeMismatch { selector, reason, .. } => {
            assert_eq!(selector, "package[name=brel].version");
            match reason {
                brel::resolve::ResolveError::ExpectsArray { segment } => {
                    assert_eq!(segment, "package");
                }
                other => panic!("unexpected reason: {:?}", other),
            }
        }
        other => panic!("unexpected error: {:?}", other),
    }
}

#[test]
fn fails_when_file_missing() {
    let files = vec![FileUpdate {
        path: "missing.json".to_string(),
        selectors: vec!["version".to_string()],
        format_override: None,
        content: None,
    }];
    let (writes, result) = apply_version_updates("1.1.0", &files);
    assert!(writes.is_empty());
    match result.unwrap_err() {
        UpdateError::FileNotFound { path } => assert_eq!(path, "missing.json"),
        other => panic!("unexpected error: {:?}", other),
    }
}

#[test]
fn second_application_changes_nothing() {
    let content = "{\n  \"package\": {\"version\": \"1.0.0\"},\n  \"name\": \"demo\"\n}\n";
    let selectors = vec!["package.version".to_string()];
    let first = update_json_content("package.json", &selectors, content, "2.0.0")
        .unwrap()
        .expect("first run must change the file");
    let second = update_json_content("package.json", &selectors, &first, "2.0.0").unwrap();
    assert!(second.is_none());

    let toml = "[package]\n# note\nversion = \"1.0.0\"\n";
    let tsel = vec!["package.version".to_string()];
    let tfirst = update_toml_content("Cargo.toml", &tsel, toml, "2.0.0")
        .unwrap()
        .expect("first run must change the file");
    let tsecond = update_toml_content("Cargo.toml", &tsel, &tfirst, "2.0.0").unwrap();
    assert!(tsecond.is_none());
}

#[test]
fn second_application_with_filter_changes_nothing() {
    let content = "{\n  \"package\": [\n    {\"name\": \"brel\", \"version\": \"1.0.0\"},\n    {\"name\": \"brel\", \"version\": \"3.0.0\"}\n  ]\n}\n";
    let selectors = vec!["package[name=brel].version".to_string()];
    let first = update_json_content("package.json", &selectors, content, "7.7.7")
        .unwrap()
        .expect("first run must change the file");
    let second = update_json_content("package.json", &selectors, &first, "7.7.7").unwrap();
    assert!(second.is_none());
}

#[test]
fn first_error_keeps_earlier_writes_and_stops() {
    let files = vec![
        one_file(
            "a.json",
            "{ \"version\": \"1.0.0\" }\n",
            vec!["version"],
        ),
        one_file("b.json", "{ \"name\": \"demo\" }\n", vec!["version"]),
        one_file(
            "c.json",
            "{ \"version\": \"1.0.0\" }\n",
            vec!["version"],
        ),
    ];
    let (writes, result) = apply_version_updates("2.0.0", &files);
    assert_eq!(writes.len(), 1);
    assert_eq!(writes[0].0, "a.json");
    assert!(writes[0].1.contains("\"version\": \"2.0.0\""));
    match result.unwrap_err() {
        UpdateError::SelectorNoMatch { path, .. } => assert_eq!(path, "b.json"),
        other => panic!("unexpected error: {:?}", other),
    }
}

#[test]
fn unchanged_files_are_not_reported() {
    let files = vec![one_file(
        "a.json",
        "{\n  \"version\": \"3.0.0\"\n}\n",
        vec!["version"],
    )];
    let (writes, result) = apply_version_updates("3.0.0", &files);
    assert!(writes.is_empty());
    assert!(result.unwrap().changed_files.is_empty());
}

#[test]
fn format_detection_uses_extension_and_override() {
    assert_eq!(
        detect_file_format("pkg/package.json", None),
        Some(VersionFileFormat::Json)
    );
    assert_eq!(
        detect_file_format("Cargo.TOML", None),
        Some(VersionFileFormat::Toml)
    );
    assert_eq!(detect_file_format("Cargo.lock", None), None);
    assert_eq!(detect_file_format(".json", None), None);
    assert_eq!(
        detect_file_format("Cargo.lock", Some(VersionFileFormat::Toml)),
        Some(VersionFileFormat::Toml)
    );
}

#[test]
fn undetected_format_is_an_error() {
    let files = vec![one_file("VERSION", "1.0.0", vec!["version"])];
    let (_, result) = apply_version_updates("2.0.0", &files);
    match result.unwrap_err() {
        UpdateError::FormatUndetected { path } => assert_eq!(path, "VERSION"),
        other => panic!("unexpected error: {:?}", other),
    }
}

#[test]
fn invalid_document_is_an_error() {
    let err = update_json_content("x.json", &vec!["version".to_string()], "{ not json", "1.0.0")
        .unwrap_err();
    match err {
        UpdateError::DocumentParse { path, format } => {
            assert_eq!(path, "x.json");
            assert_eq!(format, VersionFileFormat::Json);
        }
        other => panic!("unexpected error: {:?}", other),
    }
}

#[test]
fn invalid_selector_is_reported_with_its_text() {
    let err = update_file_content(
        "x.json",
        VersionFileFormat::Json,
        &vec!["a..b".to_string()],
        "{}",
        "1.0.0",
    )
    .unwrap_err();
    match err {
        UpdateError::SelectorSyntax { path, selector, .. } => {
            assert_eq!(path, "x.json");
            assert_eq!(selector, "a..b");
        }
        other => panic!("unexpected error: {:?}", other),
    }
}

#[test]
fn out_of_range_index_is_a_silent_no_match() {
    let err = update_json_content(
        "x.json",
        &vec!["packages[5].version".to_string()],
        "{ \"packages\": [ {\"version\": \"1.0.0\"} ] }",
        "2.0.0",
    )
    .unwrap_err();
    match err {
        UpdateError::SelectorNoMatch { .. } => {}
        other => panic!("unexpected error: {:?}", other),
    }
}

#[test]
fn filter_field_must_be_a_string() {
    let err = update_json_content(
        "x.json",
        &vec!["pkgs[name=brel].version".to_string()],
        "{ \"pkgs\": [ {\"name\": 5, \"version\": \"1.0.0\"} ] }",
        "2.0.0",
    )
    .unwrap_err();
    match err {
        UpdateError::SelectorTypeMismatch { reason, .. } => match reason {
            brel::resolve::ResolveError::FilterFieldNotString { field } => {
                assert_eq!(field, "name");
            }
            other => panic!("unexpected reason: {:?}", other),
        },
        other => panic!("unexpected error: {:?}", other),
    }
}

#[test]
fn toml_output_gains_trailing_newline_only_if_missing() {
    let content = "[package]\nversion = \"1.0.0\"";
    let out = update_toml_content(
        "Cargo.toml",
        &vec!["package.version".to_string()],
        content,
        "1.1.0",
    )
    .unwrap()
    .expect("expected a change");
    assert!(out.ends_with("\n"));
    assert!(!out.ends_with("\n\n"));
}

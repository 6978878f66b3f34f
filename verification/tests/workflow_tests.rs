use brel::workflow::{is_managed, parse_origin_head_output, resolve_workflow_path};

#[test]
fn managed_marker_must_be_first_line() {
    assert!(is_managed("# managed-by: brel\nname: Test"));
    assert!(!is_managed("name: Test\n# managed-by: brel"));
    assert!(!is_managed(""));
}

#[test]
fn workflow_file_must_be_filename_only() {
    let path = resolve_workflow_path("release-pr.yml").unwrap();
    assert_eq!(path, ".github/workflows/release-pr.yml".to_string());

    assert!(resolve_workflow_path("workflows/release-pr.yml").is_err());
    assert!(resolve_workflow_path("../release-pr.yml").is_err());
}

#[test]
fn origin_head_output_strips_remote_prefix() {
    assert_eq!(
        parse_origin_head_output("origin/main\n"),
        Some("main".to_string())
    );
    assert_eq!(
        parse_origin_head_output("  develop  "),
        Some("develop".to_string())
    );
    assert_eq!(parse_origin_head_output("   "), None);
}

#[test]
fn workflow_file_name_is_trimmed() {
    let path = resolve_workflow_path("  deploy.yml  ").unwrap();
    assert_eq!(path, ".github/workflows/deploy.yml".to_string());
}

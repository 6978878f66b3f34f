use brel::semverio::SemVer;
use brel::tag_template::{TagTemplate, normalize_tag_template, shell_escape_single};

#[test]
fn normalizes_legacy_double_brace_token() {
    assert_eq!(
        normalize_tag_template("v{{version}}").unwrap(),
        "v{version}".to_string()
    );
}

#[test]
fn rejects_templates_without_single_token() {
    assert!(normalize_tag_template("release").is_err());
    assert!(normalize_tag_template("{version}-{version}").is_err());
}

#[test]
fn renders_and_parses_stable_versions() {
    let template = TagTemplate::parse("release-{version}").unwrap();
    assert_eq!(template.render("1.2.3"), "release-1.2.3");
    assert_eq!(
        template.parse_stable_version("release-1.2.3"),
        Some(SemVer { major: 1, minor: 2, patch: 3 })
    );
    assert!(
        template
            .parse_stable_version("release-1.2.3-rc.1")
            .is_none()
    );
}

#[test]
fn shell_escape_wraps_non_safe_values() {
    assert_eq!(shell_escape_single(""), "''");
    assert_eq!(shell_escape_single("safe-value"), "safe-value");
    assert_eq!(shell_escape_single("has space"), "'has space'");
}

#[test]
fn shell_escape_escapes_embedded_quotes() {
    assert_eq!(shell_escape_single("it's"), "'it'\"'\"'s'");
}

#[test]
fn rejects_empty_tag_template() {
    assert!(normalize_tag_template("   ").is_err());
}

#[test]
fn template_prefix_and_suffix_split_around_token() {
    let template = TagTemplate::parse("app-{version}-rel").unwrap();
    assert_eq!(template.prefix(), "app-");
    assert_eq!(template.suffix(), "-rel");
    assert_eq!(template.render("2.0.0"), "app-2.0.0-rel");
}

#[test]
fn parse_stable_version_requires_prefix_and_suffix() {
    let template = TagTemplate::parse("v{version}").unwrap();
    assert_eq!(
        template.parse_stable_version("v1.2.3"),
        Some(SemVer { major: 1, minor: 2, patch: 3 })
    );
    assert!(template.parse_stable_version("1.2.3").is_none());
    assert!(template.parse_stable_version("x1.2.3").is_none());
    assert!(template.parse_stable_version("v1.2.3+build").is_none());
}

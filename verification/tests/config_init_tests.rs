use brel::config::{
    BranchPatternError, ConfigError, ConfigSource, DotPathError, Provider, RawReleasePrConfig,
    RepoPathError, VersionFileFormat, normalize_dot_path, normalize_repo_relative_path,
    parse_format, parse_provider, resolve_release_pr_config, validate_branch_pattern,
};
use brel::init::{
    BranchDecision, FileAction, build_release_pr_command, plan_file_action, resolve_default_branch,
};

#[test]
fn provider_names_round_trip() {
    assert_eq!(parse_provider("github"), Some(Provider::Github));
    assert_eq!(parse_provider("  GitLab "), Some(Provider::Gitlab));
    assert_eq!(parse_provider("gitea"), Some(Provider::Gitea));
    assert_eq!(parse_provider("bitbucket"), None);
    assert_eq!(Provider::Github.as_str(), "github");
    assert_eq!(Provider::Gitlab.as_str(), "gitlab");
    assert_eq!(Provider::Gitea.as_str(), "gitea");
}

#[test]
fn format_names_round_trip() {
    assert_eq!(parse_format("json"), Some(VersionFileFormat::Json));
    assert_eq!(parse_format(" TOML "), Some(VersionFileFormat::Toml));
    assert_eq!(parse_format("yaml"), None);
    assert_eq!(VersionFileFormat::Json.as_str(), "json");
    assert_eq!(VersionFileFormat::Toml.as_str(), "toml");
}

#[test]
fn config_source_path_is_present_only_when_read() {
    let explicit = ConfigSource::Explicit("custom.toml".to_string());
    assert_eq!(explicit.path(), Some(&"custom.toml".to_string()));
    let discovered = ConfigSource::Discovered("brel.toml".to_string());
    assert_eq!(discovered.path(), Some(&"brel.toml".to_string()));
    assert_eq!(ConfigSource::Defaulted.path(), None);
}

#[test]
fn plan_file_action_covers_all_cases() {
    assert_eq!(plan_file_action(None, "new", false, false), FileAction::Create);
    let unmanaged = "name: user workflow\n".to_string();
    assert_eq!(
        plan_file_action(Some(&unmanaged), "new", true, false),
        FileAction::RefuseUnmanaged
    );
    let managed = "# managed-by: brel\nname: old\n".to_string();
    assert_eq!(
        plan_file_action(Some(&managed), "# managed-by: brel\nname: old\n", true, false),
        FileAction::SkipUpToDate
    );
    assert_eq!(
        plan_file_action(Some(&managed), "new", true, false),
        FileAction::Overwrite
    );
    assert_eq!(
        plan_file_action(Some(&managed), "new", false, true),
        FileAction::Overwrite
    );
    assert_eq!(
        plan_file_action(Some(&managed), "new", false, false),
        FileAction::SkipDeclined
    );
}

#[test]
fn branch_mismatch_can_be_resolved_interactively() {
    let repo = "main".to_string();
    let chosen = "main".to_string();
    let decision = resolve_default_branch("develop", Some(&repo), false, Some(&chosen));
    assert_eq!(decision, BranchDecision::Use("main".to_string()));
}

#[test]
fn branch_mismatch_fails_with_yes() {
    let repo = "main".to_string();
    let decision = resolve_default_branch("develop", Some(&repo), true, None);
    assert_eq!(decision, BranchDecision::MismatchWithYes);
}

#[test]
fn branch_agreement_keeps_configured_branch() {
    let repo = "main".to_string();
    assert_eq!(
        resolve_default_branch("main", Some(&repo), true, None),
        BranchDecision::Use("main".to_string())
    );
    assert_eq!(
        resolve_default_branch("main", None, true, None),
        BranchDecision::Use("main".to_string())
    );
}

#[test]
fn invalid_branch_selection_is_rejected() {
    let repo = "main".to_string();
    let chosen = "elsewhere".to_string();
    assert_eq!(
        resolve_default_branch("develop", Some(&repo), false, Some(&chosen)),
        BranchDecision::InvalidSelection
    );
}

#[test]
fn dotted_key_paths_reject_blank_segments() {
    assert_eq!(normalize_dot_path("package.version"), Ok("package.version".to_string()));
    assert_eq!(normalize_dot_path(" version "), Ok("version".to_string()));
    assert_eq!(normalize_dot_path(""), Err(DotPathError::Empty));
    assert_eq!(normalize_dot_path("a..b"), Err(DotPathError::BlankSegment));
    assert_eq!(normalize_dot_path("a. .b"), Err(DotPathError::BlankSegment));
}

#[test]
fn repo_relative_paths_reject_absolute_and_parent() {
    assert_eq!(
        normalize_repo_relative_path("pkg/package.json"),
        Ok("pkg/package.json".to_string())
    );
    assert_eq!(normalize_repo_relative_path("  "), Err(RepoPathError::Empty));
    assert_eq!(
        normalize_repo_relative_path("/etc/passwd"),
        Err(RepoPathError::NotRelative)
    );
    assert_eq!(
        normalize_repo_relative_path("../package.json"),
        Err(RepoPathError::ParentSegment)
    );
    assert_eq!(
        normalize_repo_relative_path("a/../b"),
        Err(RepoPathError::ParentSegment)
    );
}

#[test]
fn branch_patterns_allow_only_the_version_token() {
    assert_eq!(validate_branch_pattern("brel/release/v{{version}}"), Ok(()));
    assert_eq!(validate_branch_pattern("plain-branch"), Ok(()));
    assert_eq!(
        validate_branch_pattern("rel/{{date}}"),
        Err(BranchPatternError::UnsupportedToken)
    );
    assert_eq!(
        validate_branch_pattern("rel/{{version"),
        Err(BranchPatternError::UnmatchedOpen)
    );
    assert_eq!(
        validate_branch_pattern("rel/version}}"),
        Err(BranchPatternError::UnmatchedClose)
    );
}

fn empty_raw() -> RawReleasePrConfig {
    RawReleasePrConfig {
        version_updates: Vec::new(),
        format_overrides: Vec::new(),
        release_branch_pattern: None,
        pr_template_file: None,
        commit_author_name: None,
        commit_author_email: None,
        changelog_enabled: None,
        changelog_output_file: None,
    }
}

#[test]
fn release_settings_default_when_absent() {
    let config = resolve_release_pr_config(&empty_raw()).unwrap();
    assert!(config.version_updates.is_empty());
    assert!(config.format_overrides.is_empty());
    assert_eq!(config.release_branch_pattern, "brel/release/v{{version}}");
    assert_eq!(config.pr_template_file, None);
    assert_eq!(config.commit_author.name, "brel[bot]");
    assert_eq!(config.commit_author.email, "brel[bot]@users.noreply.github.com");
    assert!(config.changelog.enabled);
    assert_eq!(config.changelog.output_file, "CHANGELOG.md");
}

#[test]
fn release_settings_sort_targets_and_reject_duplicates() {
    let mut raw = empty_raw();
    raw.version_updates.push(("b.json".to_string(), vec!["version".to_string()]));
    raw.version_updates.push(("a.toml".to_string(), vec!["package.version".to_string()]));
    let config = resolve_release_pr_config(&raw).unwrap();
    assert_eq!(config.version_updates[0].0, "a.toml");
    assert_eq!(config.version_updates[1].0, "b.json");

    raw.version_updates.push((" b.json ".to_string(), vec!["version".to_string()]));
    match resolve_release_pr_config(&raw).unwrap_err() {
        ConfigError::DuplicateUpdatePath { path } => assert_eq!(path, "b.json"),
        other => panic!("unexpected error: {:?}", other),
    }
}

#[test]
fn release_settings_reject_empty_selector_lists() {
    let mut raw = empty_raw();
    raw.version_updates.push(("a.json".to_string(), Vec::new()));
    match resolve_release_pr_config(&raw).unwrap_err() {
        ConfigError::UpdateSelectorsEmpty { path } => assert_eq!(path, "a.json"),
        other => panic!("unexpected error: {:?}", other),
    }
}

#[test]
fn format_overrides_must_name_an_update_target() {
    let mut raw = empty_raw();
    raw.version_updates.push(("package.json".to_string(), vec!["version".to_string()]));
    raw.format_overrides.push(("Cargo.toml".to_string(), "toml".to_string()));
    match resolve_release_pr_config(&raw).unwrap_err() {
        ConfigError::OverrideWithoutTarget { path } => assert_eq!(path, "Cargo.toml"),
        other => panic!("unexpected error: {:?}", other),
    }

    let mut ok = empty_raw();
    ok.version_updates.push(("Cargo.lock".to_string(), vec!["package[name=brel].version".to_string()]));
    ok.format_overrides.push(("Cargo.lock".to_string(), "toml".to_string()));
    let config = resolve_release_pr_config(&ok).unwrap();
    assert_eq!(
        config.format_overrides,
        vec![("Cargo.lock".to_string(), VersionFileFormat::Toml)]
    );
}

#[test]
fn release_settings_validate_branch_pattern_and_author() {
    let mut raw = empty_raw();
    raw.release_branch_pattern = Some("rel/{{date}}".to_string());
    match resolve_release_pr_config(&raw).unwrap_err() {
        ConfigError::BranchPatternInvalid { reason } => {
            assert_eq!(reason, BranchPatternError::UnsupportedToken);
        }
        other => panic!("unexpected error: {:?}", other),
    }

    let mut raw2 = empty_raw();
    raw2.commit_author_name = Some("   ".to_string());
    match resolve_release_pr_config(&raw2).unwrap_err() {
        ConfigError::EmptyCommitAuthorName => {}
        other => panic!("unexpected error: {:?}", other),
    }
}

#[test]
fn release_pr_command_quotes_custom_config_paths() {
    assert_eq!(build_release_pr_command(None, None), "brel release-pr");
    let name = "brel.toml".to_string();
    let path = "brel.toml".to_string();
    assert_eq!(
        build_release_pr_command(Some(&name), Some(&path)),
        "brel release-pr"
    );
    let name2 = "custom.toml".to_string();
    let path2 = "conf dir/custom.toml".to_string();
    assert_eq!(
        build_release_pr_command(Some(&name2), Some(&path2)),
        "brel release-pr --config 'conf dir/custom.toml'"
    );
}

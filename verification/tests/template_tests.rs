use brel::config::Provider;
use brel::template::{
    MANAGED_RELEASE_PR_MARKER, ReleasePrBodyContext, ReleasePrCommitContext,
    WorkflowRenderContext, WorkflowTemplate, render_release_pr_body, render_workflow,
};

fn ctx(
    release_pr_command: &str,
    next_version_command: &str,
    next_version_tag_output_expr: &str,
    changelog_enabled: bool,
    tagging_enabled: bool,
    tagging_template_prefix_shell: &str,
) -> WorkflowRenderContext {
    WorkflowRenderContext {
        default_branch: "main".to_string(),
        release_pr_command: release_pr_command.to_string(),
        next_version_command: next_version_command.to_string(),
        github_token_expr: "${{ github.token }}".to_string(),
        next_version_non_empty_expr: "${{ steps.next-version.outputs.version != '' }}".to_string(),
        next_version_output_expr: "${{ steps.next-version.outputs.version }}".to_string(),
        next_version_tag_output_expr: next_version_tag_output_expr.to_string(),
        changelog_enabled,
        changelog_output_file: "CHANGELOG.md".to_string(),
        tagging_enabled,
        tagging_template_prefix_shell: tagging_template_prefix_shell.to_string(),
        tagging_template_suffix_shell: "''".to_string(),
    }
}

#[test]
fn renders_github_template_with_branch_and_release_command() {
    let rendered = render_workflow(
        Provider::Github,
        WorkflowTemplate::ReleasePr,
        &ctx(
            "brel release-pr --config custom.toml",
            "brel next-version --config custom.toml",
            "v${{ steps.next-version.outputs.version }}",
            true,
            false,
            "'v'",
        ),
    )
    .unwrap();

    assert!(rendered.contains("# managed-by: brel"));
    assert!(rendered.contains("- main"));
    assert!(rendered.contains("run: brel release-pr --config custom.toml"));
    assert!(rendered.contains("id: next-version"));
    assert!(rendered.contains("next_version=\"$(brel next-version --config custom.toml)\""));
    assert!(rendered.contains("GH_TOKEN: ${{ github.token }}"));
    assert!(rendered.contains("if: ${{ steps.next-version.outputs.version != '' }}"));
    assert!(rendered.contains(
        "args: --unreleased --tag v${{ steps.next-version.outputs.version }} --prepend CHANGELOG.md"
    ));
    assert!(!rendered.contains("--output CHANGELOG.md"));
    assert!(rendered.contains("uses: orhun/git-cliff-action@v4"));
    assert!(rendered.contains("archive asset (.tar.gz, .tar.xz, .zip)"));
    assert!(rendered.contains("tar -xaf"));
    assert!(!rendered.contains("tar -xzf"));
    assert!(!rendered.contains("Create release tag"));
    assert!(!rendered.contains("pull_request:"));
}

#[test]
fn can_disable_github_changelog_step() {
    let rendered = render_workflow(
        Provider::Github,
        WorkflowTemplate::ReleasePr,
        &ctx(
            "brel release-pr",
            "brel next-version",
            "v${{ steps.next-version.outputs.version }}",
            false,
            false,
            "'v'",
        ),
    )
    .unwrap();

    assert!(!rendered.contains("uses: orhun/git-cliff-action@v4"));
}

#[test]
fn can_enable_github_tagging_step() {
    let rendered = render_workflow(
        Provider::Github,
        WorkflowTemplate::ReleasePr,
        &ctx(
            "brel release-pr",
            "brel next-version",
            "v${{ steps.next-version.outputs.version }}",
            true,
            true,
            "'v'",
        ),
    )
    .unwrap();

    assert!(rendered.contains("Create release tag"));
    assert!(rendered.contains("if: github.event_name == 'pull_request'"));
    assert!(rendered.contains("types:"));
    assert!(rendered.contains("- closed"));
}

#[test]
fn renders_custom_tag_template_expressions() {
    let rendered = render_workflow(
        Provider::Github,
        WorkflowTemplate::ReleasePr,
        &ctx(
            "brel release-pr",
            "brel next-version",
            "release-${{ steps.next-version.outputs.version }}",
            true,
            true,
            "release-",
        ),
    )
    .unwrap();

    assert!(rendered.contains(
        "args: --unreleased --tag release-${{ steps.next-version.outputs.version }} --prepend CHANGELOG.md"
    ));
    assert!(!rendered.contains("--output CHANGELOG.md"));
    assert!(rendered.contains("prefix=release-"));
    assert!(rendered.contains("suffix=''"));
}

#[test]
fn renders_default_release_pr_body_template() {
    let commits = vec![ReleasePrCommitContext {
        sha_short: "abc1234".to_string(),
        subject: "feat: add feature".to_string(),
    }];
    let rendered = render_release_pr_body(
        &ReleasePrBodyContext {
            version: "1.2.3".to_string(),
            tag: "v1.2.3".to_string(),
            base_branch: "main".to_string(),
            release_branch: "brel/release/v1.2.3".to_string(),
            commits,
        },
        None,
    )
    .unwrap();

    assert!(rendered.contains(MANAGED_RELEASE_PR_MARKER));
    assert!(rendered.contains("Release v1.2.3"));
    assert!(rendered.contains("feat: add feature"));
}

#[test]
fn rejects_unsupported_provider() {
    let err = render_workflow(
        Provider::Gitlab,
        WorkflowTemplate::ReleasePr,
        &ctx(
            "brel release-pr",
            "brel next-version",
            "v${{ steps.next-version.outputs.version }}",
            true,
            false,
            "'v'",
        ),
    )
    .unwrap_err();
    match err {
        brel::template::TemplateError::UnsupportedProvider { provider } => {
            assert_eq!(provider, Provider::Gitlab);
        }
        other => panic!("unexpected error: {:?}", other),
    }
}

#[test]
fn renders_body_without_commits_with_fallback_line() {
    let rendered = render_release_pr_body(
        &ReleasePrBodyContext {
            version: "1.2.3".to_string(),
            tag: "v1.2.3".to_string(),
            base_branch: "main".to_string(),
            release_branch: "brel/release/v1.2.3".to_string(),
            commits: Vec::new(),
        },
        None,
    )
    .unwrap();
    assert!(rendered.contains("No commit summaries available."));
}

#[test]
fn renders_custom_body_template_override() {
    let rendered = render_release_pr_body(
        &ReleasePrBodyContext {
            version: "2.0.0".to_string(),
            tag: "v2.0.0".to_string(),
            base_branch: "main".to_string(),
            release_branch: "rel/v2.0.0".to_string(),
            commits: Vec::new(),
        },
        Some("Custom body for {{tag}} from {{base_branch}}"),
    )
    .unwrap();
    assert_eq!(rendered, "Custom body for v2.0.0 from main");
}

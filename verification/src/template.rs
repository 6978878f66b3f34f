//! Workflow and pull-request body templating. The template texts are fixed
//! here; rendering goes through handlebars with contexts built purely from
//! strings, booleans, arrays and objects.

use vstd::prelude::*;

use crate::config::Provider;
use crate::doc::DocView;
use crate::hb::{
    ctx_ok, hb_render, hb_render_of, hb_render_ok, json_arr, json_bool, json_obj_empty,
    json_obj_insert, json_str,
};
use crate::jsonio::json_view;

verus! {

/// The marker carried by every release pull-request body this tool manages.
pub const MANAGED_RELEASE_PR_MARKER: &'static str = "<!-- managed-by: brel -->";

/// The workflow this tool can generate.
#[derive(Debug, Clone, Copy, PartialEq, Eq, Structural)]
pub enum WorkflowTemplate {
    ReleasePr,
}

/// The values the release workflow template is rendered with.
#[derive(Debug, Clone, PartialEq, Eq)]
pub struct WorkflowRenderContext {
    pub default_branch: String,
    pub release_pr_command: String,
    pub next_version_command: String,
    pub github_token_expr: String,
    pub next_version_non_empty_expr: String,
    pub next_version_output_expr: String,
    pub next_version_tag_output_expr: String,
    pub changelog_enabled: bool,
    pub changelog_output_file: String,
    pub tagging_enabled: bool,
    pub tagging_template_prefix_shell: String,
    pub tagging_template_suffix_shell: String,
}

/// The context view the workflow renderer sees.
pub open spec fn wf_ctx_view(c: &WorkflowRenderContext) -> DocView {
    DocView::Obj(
        Map::empty().insert("default_branch"@, DocView::Str(c.default_branch@)).insert(
            "release_pr_command"@,
            DocView::Str(c.release_pr_command@),
        ).insert("next_version_command"@, DocView::Str(c.next_version_command@)).insert(
            "github_token_expr"@,
            DocView::Str(c.github_token_expr@),
        ).insert(
            "next_version_non_empty_expr"@,
            DocView::Str(c.next_version_non_empty_expr@),
        ).insert("next_version_output_expr"@, DocView::Str(c.next_version_output_expr@)).insert(
            "next_version_tag_output_expr"@,
            DocView::Str(c.next_version_tag_output_expr@),
        ).insert("changelog_enabled"@, DocView::Bool(c.changelog_enabled)).insert(
            "changelog_output_file"@,
            DocView::Str(c.changelog_output_file@),
        ).insert("tagging_enabled"@, DocView::Bool(c.tagging_enabled)).insert(
            "tagging_template_prefix_shell"@,
            DocView::Str(c.tagging_template_prefix_shell@),
        ).insert(
            "tagging_template_suffix_shell"@,
            DocView::Str(c.tagging_template_suffix_shell@),
        ),
    )
}

/// One commit line of a release pull-request body.
#[derive(Debug, Clone, PartialEq, Eq)]
pub struct ReleasePrCommitContext {
    pub sha_short: String,
    pub subject: String,
}

/// The values a release pull-request body is rendered with.
#[derive(Debug, Clone, PartialEq, Eq)]
pub struct ReleasePrBodyContext {
    pub version: String,
    pub tag: String,
    pub base_branch: String,
    pub release_branch: String,
    pub commits: Vec<ReleasePrCommitContext>,
}

/// The view of one commit entry.
pub open spec fn commit_ctx_view(c: ReleasePrCommitContext) -> DocView {
    DocView::Obj(
        Map::empty().insert("sha_short"@, DocView::Str(c.sha_short@)).insert(
            "subject"@,
            DocView::Str(c.subject@),
        ),
    )
}

/// The context view the body renderer sees.
pub open spec fn body_ctx_view(c: &ReleasePrBodyContext) -> DocView {
    DocView::Obj(
        Map::empty().insert("version"@, DocView::Str(c.version@)).insert(
            "tag"@,
            DocView::Str(c.tag@),
        ).insert("base_branch"@, DocView::Str(c.base_branch@)).insert(
            "release_branch"@,
            DocView::Str(c.release_branch@),
        ).insert(
            "commits"@,
            DocView::Arr(c.commits@.map_values(|e: ReleasePrCommitContext| commit_ctx_view(e))),
        ),
    )
}

/// Why rendering was refused or failed.
#[derive(Debug, Clone, PartialEq, Eq)]
pub enum TemplateError {
    /// Only the GitHub provider has workflow templates.
    UnsupportedProvider { provider: Provider },
    /// The template engine rejected the template or the render.
    Render { message: String },
}

/// The GitHub release pull-request workflow.
pub const GITHUB_RELEASE_PR_TEMPLATE: &'static str = r#"# managed-by: brel
name: release-pr

on:
  workflow_dispatch:
  push:
    branches:
      - {{default_branch}}
{{#if tagging_enabled}}
  pull_request:
    types:
      - closed
{{/if}}

permissions:
  contents: write
  pull-requests: write

jobs:
  release-pr:
    if: github.event_name != 'pull_request'
    runs-on: ubuntu-latest
    steps:
      - uses: actions/checkout@v4
        with:
          fetch-depth: 0
      - name: Install brel
        run: |
          # fetch the latest brel archive asset (.tar.gz, .tar.xz, .zip)
          curl -fsSL -o brel-dist.tar.gz "$BREL_DIST_URL"
          tar -xaf brel-dist.tar.gz
          sudo install -m 0755 brel /usr/local/bin/brel
      - name: Compute next version
        id: next-version
        run: |
          next_version="$({{next_version_command}})"
          echo "version=$next_version" >> "$GITHUB_OUTPUT"
{{#if changelog_enabled}}
      - name: Update changelog
        if: {{next_version_non_empty_expr}}
        uses: orhun/git-cliff-action@v4
        with:
          args: --unreleased --tag {{next_version_tag_output_expr}} --prepend {{changelog_output_file}}
        env:
          OUTPUT: {{changelog_output_file}}
{{/if}}
      - name: Create release PR
        if: {{next_version_non_empty_expr}}
        env:
          GH_TOKEN: {{github_token_expr}}
        run: {{release_pr_command}}
{{#if tagging_enabled}}
  tag:
    if: github.event_name == 'pull_request'
    runs-on: ubuntu-latest
    steps:
      - uses: actions/checkout@v4
        with:
          fetch-depth: 0
      - name: Create release tag
        env:
          GH_TOKEN: {{github_token_expr}}
        run: |
          prefix={{tagging_template_prefix_shell}}
          suffix={{tagging_template_suffix_shell}}
          subject="$(git log -1 --format=%s)"
          version="${subject##* }"
          version="${version#"$prefix"}"
          version="${version%"$suffix"}"
          git tag "$prefix$version$suffix"
          git push origin "$prefix$version$suffix"
{{/if}}
"#;

/// The default release pull-request body.
pub const DEFAULT_RELEASE_PR_BODY_TEMPLATE: &'static str = r#"<!-- managed-by: brel -->
## Release {{tag}}

Base branch: `{{base_branch}}`
Release branch: `{{release_branch}}`

### Included commits
{{#if commits}}
{{#each commits}}
- {{subject}} ({{sha_short}})
{{/each}}
{{else}}
- No commit summaries available.
{{/if}}
"#;

/// Builds the JSON context value for the workflow template.
fn build_workflow_ctx(context: &WorkflowRenderContext) -> (r: serde_json::Value)
    ensures
        json_view(r) == wf_ctx_view(context),
        ctx_ok(json_view(r)),
{
    let mut obj = json_obj_empty();
    json_obj_insert(&mut obj, "default_branch", json_str(context.default_branch.as_str()));
    json_obj_insert(&mut obj, "release_pr_command", json_str(context.release_pr_command.as_str()));
    json_obj_insert(
        &mut obj,
        "next_version_command",
        json_str(context.next_version_command.as_str()),
    );
    json_obj_insert(&mut obj, "github_token_expr", json_str(context.github_token_expr.as_str()));
    json_obj_insert(
        &mut obj,
        "next_version_non_empty_expr",
        json_str(context.next_version_non_empty_expr.as_str()),
    );
    json_obj_insert(
        &mut obj,
        "next_version_output_expr",
        json_str(context.next_version_output_expr.as_str()),
    );
    json_obj_insert(
        &mut obj,
        "next_version_tag_output_expr",
        json_str(context.next_version_tag_output_expr.as_str()),
    );
    json_obj_insert(&mut obj, "changelog_enabled", json_bool(context.changelog_enabled));
    json_obj_insert(
        &mut obj,
        "changelog_output_file",
        json_str(context.changelog_output_file.as_str()),
    );
    json_obj_insert(&mut obj, "tagging_enabled", json_bool(context.tagging_enabled));
    json_obj_insert(
        &mut obj,
        "tagging_template_prefix_shell",
        json_str(context.tagging_template_prefix_shell.as_str()),
    );
    json_obj_insert(
        &mut obj,
        "tagging_template_suffix_shell",
        json_str(context.tagging_template_suffix_shell.as_str()),
    );
    proof {
        assert(json_view(obj) == wf_ctx_view(context));
        lemma_ctx_ok_obj(json_view(obj));
    }
    obj
}

/// An object whose values are all strings or booleans is a sound context.
proof fn lemma_ctx_ok_obj(d: DocView)
    requires
        d matches DocView::Obj(m) && (forall|k: Seq<char>|
            m.dom().contains(k) ==> (#[trigger] m[k]) is Str || m[k] is Bool),
    ensures
        ctx_ok(d),
{
    match d {
        DocView::Obj(m) => {
            assert forall|k: Seq<char>| m.dom().contains(k) implies ctx_ok(#[trigger] m[k]) by {
                match m[k] {
                    DocView::Str(_) => {},
                    DocView::Bool(_) => {},
                    _ => {},
                }
            }
        },
        _ => {},
    }
}

/// Renders the workflow for a provider; only GitHub is supported.
pub fn render_workflow(
    provider: Provider,
    template: WorkflowTemplate,
    context: &WorkflowRenderContext,
) -> (r: Result<String, TemplateError>)
    ensures
        match r {
            Ok(s) => provider is Github && hb_render_ok(
                "github-release-pr"@,
                GITHUB_RELEASE_PR_TEMPLATE@,
                wf_ctx_view(context),
            ) && s@ == hb_render_of(
                "github-release-pr"@,
                GITHUB_RELEASE_PR_TEMPLATE@,
                wf_ctx_view(context),
            ),
            Err(e) => match e {
                TemplateError::UnsupportedProvider { provider: p } => p == provider && !(provider
                    is Github),
                TemplateError::Render { .. } => provider is Github && !hb_render_ok(
                    "github-release-pr"@,
                    GITHUB_RELEASE_PR_TEMPLATE@,
                    wf_ctx_view(context),
                ),
            },
        },
{
    match (provider, template) {
        (Provider::Github, WorkflowTemplate::ReleasePr) => {
            let ctx = build_workflow_ctx(context);
            match hb_render("github-release-pr", GITHUB_RELEASE_PR_TEMPLATE, &ctx) {
                Ok(s) => Ok(s),
                Err(message) => Err(TemplateError::Render { message }),
            }
        },
        (p, _) => Err(TemplateError::UnsupportedProvider { provider: p }),
    }
}

/// Builds the JSON context value for the body template.
fn build_body_ctx(context: &ReleasePrBodyContext) -> (r: serde_json::Value)
    ensures
        json_view(r) == body_ctx_view(context),
        ctx_ok(json_view(r)),
{
    let mut commits: Vec<serde_json::Value> = Vec::new();
    let mut i: usize = 0;
    while i < context.commits.len()
        invariant
            0 <= i <= context.commits@.len(),
            commits@.len() == i,
            forall|t: int|
                0 <= t < i ==> json_view(#[trigger] commits@[t]) == commit_ctx_view(
                    context.commits@[t],
                ),
        decreases context.commits@.len() - i,
    {
        let e = &context.commits[i];
        let mut obj = json_obj_empty();
        json_obj_insert(&mut obj, "sha_short", json_str(e.sha_short.as_str()));
        json_obj_insert(&mut obj, "subject", json_str(e.subject.as_str()));
        assert(json_view(obj) == commit_ctx_view(context.commits@[i as int]));
        commits.push(obj);
        i = i + 1;
    }
    let commits_val = json_arr(commits);
    proof {
        assert(json_view(commits_val) matches DocView::Arr(items) && items =~= context.commits@
            .map_values(|e: ReleasePrCommitContext| commit_ctx_view(e)));
    }
    let mut obj = json_obj_empty();
    json_obj_insert(&mut obj, "version", json_str(context.version.as_str()));
    json_obj_insert(&mut obj, "tag", json_str(context.tag.as_str()));
    json_obj_insert(&mut obj, "base_branch", json_str(context.base_branch.as_str()));
    json_obj_insert(&mut obj, "release_branch", json_str(context.release_branch.as_str()));
    json_obj_insert(&mut obj, "commits", commits_val);
    proof {
        assert(json_view(obj) =~~= body_ctx_view(context));
        assert(ctx_ok(json_view(obj))) by {
            match json_view(obj) {
                DocView::Obj(m) => {
                    assert forall|k: Seq<char>| m.dom().contains(k) implies ctx_ok(
                        #[trigger] m[k],
                    ) by {
                        if k == "commits"@ {
                            match m[k] {
                                DocView::Arr(items) => {
                                    assert forall|t: int| 0 <= t < items.len() implies ctx_ok(
                                        #[trigger] items[t],
                                    ) by {
                                        let cv = commit_ctx_view(context.commits@[t]);
                                        assert(items[t] == cv);
                                        lemma_ctx_ok_obj(cv);
                                    }
                                },
                                _ => {},
                            }
                        }
                    }
                },
                _ => {},
            }
        }
    }
    obj
}

/// Renders a release pull-request body, from the override text when one is
/// configured and from the default template otherwise.
pub fn render_release_pr_body(context: &ReleasePrBodyContext, template_override: Option<&str>) -> (r:
    Result<String, TemplateError>)
    ensures
        ({
            let tmpl = match template_override {
                Some(t) => t@,
                None => DEFAULT_RELEASE_PR_BODY_TEMPLATE@,
            };
            match r {
                Ok(s) => hb_render_ok("release-pr-body"@, tmpl, body_ctx_view(context)) && s@
                    == hb_render_of("release-pr-body"@, tmpl, body_ctx_view(context)),
                Err(e) => e matches TemplateError::Render { .. } && !hb_render_ok(
                    "release-pr-body"@,
                    tmpl,
                    body_ctx_view(context),
                ),
            }
        }),
{
    let tmpl: &str = match template_override {
        Some(t) => t,
        None => DEFAULT_RELEASE_PR_BODY_TEMPLATE,
    };
    let ctx = build_body_ctx(context);
    match hb_render("release-pr-body", tmpl, &ctx) {
        Ok(s) => Ok(s),
        Err(message) => Err(TemplateError::Render { message }),
    }
}

} // verus!

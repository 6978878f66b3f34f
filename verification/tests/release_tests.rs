use brel::release::{
    BumpLevel, CommitInfo, bump_version, classify_commit, find_latest_release_tag, highest_bump,
    parse_commit_log, release_commit_message, release_pr_title, render_release_branch, short_sha,
    u64_to_dec,
};
use brel::semverio::SemVer;
use brel::tag_template::TagTemplate;

#[test]
fn classify_commits_uses_conventional_commit_rules() {
    let patch = CommitInfo {
        sha: "a".to_string(),
        subject: "fix: patch bug".to_string(),
        body: String::new(),
    };
    let minor = CommitInfo {
        sha: "b".to_string(),
        subject: "feat(api): add endpoint".to_string(),
        body: String::new(),
    };
    let major = CommitInfo {
        sha: "c".to_string(),
        subject: "refactor!: rewrite API".to_string(),
        body: String::new(),
    };

    assert_eq!(classify_commit(&patch), Some(BumpLevel::Patch));
    assert_eq!(classify_commit(&minor), Some(BumpLevel::Minor));
    assert_eq!(classify_commit(&major), Some(BumpLevel::Major));
}

#[test]
fn breaking_change_in_body_is_major() {
    let commit = CommitInfo {
        sha: "d".to_string(),
        subject: "chore: cleanup".to_string(),
        body: "Something.\n  BREAKING CHANGE: renamed the API".to_string(),
    };
    assert_eq!(classify_commit(&commit), Some(BumpLevel::Major));
}

#[test]
fn commit_types_classify_without_regard_to_case() {
    let upper_fix = CommitInfo {
        sha: "g".to_string(),
        subject: "Fix: patch bug".to_string(),
        body: String::new(),
    };
    let upper_feat = CommitInfo {
        sha: "h".to_string(),
        subject: "FEAT: add endpoint".to_string(),
        body: String::new(),
    };
    assert_eq!(classify_commit(&upper_fix), Some(BumpLevel::Patch));
    assert_eq!(classify_commit(&upper_feat), Some(BumpLevel::Minor));
    assert_eq!(
        brel::release::conventional_commit_type("FEAT(api): add"),
        Some("feat".to_string())
    );
}

#[test]
fn non_conventional_commits_are_not_releasable() {
    let commit = CommitInfo {
        sha: "e".to_string(),
        subject: "update readme".to_string(),
        body: String::new(),
    };
    assert_eq!(classify_commit(&commit), None);
    let docs = CommitInfo {
        sha: "f".to_string(),
        subject: "docs: document flags".to_string(),
        body: String::new(),
    };
    assert_eq!(classify_commit(&docs), None);
}

#[test]
fn highest_bump_takes_the_strongest_level() {
    let commits = vec![
        CommitInfo {
            sha: "a".to_string(),
            subject: "fix: one".to_string(),
            body: String::new(),
        },
        CommitInfo {
            sha: "b".to_string(),
            subject: "feat: two".to_string(),
            body: String::new(),
        },
        CommitInfo {
            sha: "c".to_string(),
            subject: "docs: three".to_string(),
            body: String::new(),
        },
    ];
    assert_eq!(highest_bump(&commits), Some(BumpLevel::Minor));
    assert_eq!(highest_bump(&Vec::new()), None);
}

#[test]
fn bump_version_moves_the_right_component() {
    let base = SemVer { major: 1, minor: 2, patch: 3 };
    assert_eq!(
        bump_version(&base, BumpLevel::Major),
        SemVer { major: 2, minor: 0, patch: 0 }
    );
    assert_eq!(
        bump_version(&base, BumpLevel::Minor),
        SemVer { major: 1, minor: 3, patch: 0 }
    );
    assert_eq!(
        bump_version(&base, BumpLevel::Patch),
        SemVer { major: 1, minor: 2, patch: 4 }
    );
}

#[test]
fn version_text_is_dotted_decimal() {
    let v = SemVer { major: 10, minor: 0, patch: 42 };
    assert_eq!(v.to_text(), "10.0.42");
    assert_eq!(u64_to_dec(0), "0");
    assert_eq!(u64_to_dec(1234567890), "1234567890");
}

#[test]
fn parses_commit_log_records() {
    let log = "abc123\u{1f}feat: add\u{1f}body text\u{1e}def456\u{1f}fix: mend\u{1f}\u{1e}\n";
    let commits = parse_commit_log(log);
    assert_eq!(commits.len(), 2);
    assert_eq!(commits[0].sha, "abc123");
    assert_eq!(commits[0].subject, "feat: add");
    assert_eq!(commits[0].body, "body text");
    assert_eq!(commits[1].sha, "def456");
    assert_eq!(commits[1].subject, "fix: mend");
    assert_eq!(commits[1].body, "");
}

#[test]
fn commit_log_skips_blank_and_hashless_records() {
    let log = "\u{1e}  \u{1e}\u{1f}subject only\u{1f}body\u{1e}abc\u{1f}ok\u{1f}b";
    let commits = parse_commit_log(log);
    assert_eq!(commits.len(), 1);
    assert_eq!(commits[0].sha, "abc");
}

#[test]
fn latest_release_tag_orders_by_version() {
    let template = TagTemplate::parse("v{version}").unwrap();
    let listing = "v1.2.3\nv0.9.9\nnot-a-tag\nv1.10.0\nv1.10.0-rc.1\n";
    let best = find_latest_release_tag(&template, listing).unwrap();
    assert_eq!(best.0, "v1.10.0");
    assert_eq!(best.1, SemVer { major: 1, minor: 10, patch: 0 });
}

#[test]
fn latest_release_tag_requires_matching_template() {
    let template = TagTemplate::parse("release-{version}").unwrap();
    assert!(find_latest_release_tag(&template, "v1.2.3\nv2.0.0\n").is_none());
}

#[test]
fn release_branch_and_messages_embed_the_tag() {
    assert_eq!(
        render_release_branch("brel/release/{{version}}", "1.2.3"),
        "brel/release/1.2.3"
    );
    assert_eq!(release_commit_message("v1.2.3"), "chore(release): v1.2.3");
    assert_eq!(release_pr_title("v1.2.3"), "Release v1.2.3");
}

#[test]
fn short_sha_keeps_at_most_seven_characters() {
    assert_eq!(short_sha("abcdef1234567890"), "abcdef1");
    assert_eq!(short_sha("ab"), "ab");
}

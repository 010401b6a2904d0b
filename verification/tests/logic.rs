use blog::content::Diagnostic;
use blog::pipeline::{
    contents_url, failure_description, head_ref_url, parse_head_ref, parse_tree_listing,
    purge_scope, tree_post_slugs, tree_url, PublishOutcome, RefResponse, TreeEntry, TreeListing,
};

fn slugs(list: &[&str]) -> Vec<String> {
    list.iter().map(|s| s.to_string()).collect()
}

fn blob(path: &str, kind: &str) -> TreeEntry {
    TreeEntry {
        path: Some(path.to_string()),
        kind: Some(kind.to_string()),
    }
}

#[test]
fn tree_post_slugs_filters_sorts_and_dedups() {
    let paths = [
        "content/blog/zeta/index.mdx",
        "content/blog/alpha/index.mdx",
        "content/blog/alpha/components.rs",
        "content/blog/alpha/index.mdx",
        "app/src/lib.rs",
        "README.md",
    ];
    assert_eq!(tree_post_slugs(&paths), slugs(&["alpha", "zeta"]));
}

#[test]
fn parse_head_ref_extracts_the_sha() {
    let json = RefResponse {
        object_sha: Some("abc123".to_string()),
    };
    assert_eq!(parse_head_ref(&json).unwrap(), "abc123");
    assert!(parse_head_ref(&RefResponse { object_sha: None }).is_err());
}

#[test]
fn parse_tree_listing_yields_post_slugs_from_blobs() {
    let json = TreeListing {
        truncated: Some(false),
        tree: Some(vec![
            blob("content/blog/hello/index.mdx", "blob"),
            blob("content/blog/hello/components.rs", "blob"),
            blob("content/blog/weird/index.mdx", "tree"),
            blob("app/src/lib.rs", "blob"),
        ]),
    };
    assert_eq!(parse_tree_listing(&json).unwrap(), slugs(&["hello"]));
}

#[test]
fn a_truncated_tree_listing_is_an_error() {
    let json = TreeListing {
        truncated: Some(true),
        tree: Some(vec![]),
    };
    assert_eq!(
        parse_tree_listing(&json),
        Err("tree listing is truncated".to_string())
    );
}

#[test]
fn a_tree_response_without_a_tree_array_is_an_error() {
    let json = TreeListing {
        truncated: None,
        tree: None,
    };
    assert_eq!(
        parse_tree_listing(&json),
        Err("tree response carries no tree array".to_string())
    );
}

#[test]
fn outcome_summarizes_success_and_carried_failures() {
    let out = PublishOutcome::new(3, 0, 0, true, &[]);
    assert!(out.ok);
    assert_eq!(out.summary, "reconciled: 3 posts published");

    let out = PublishOutcome::new(1, 0, 0, true, &[]);
    assert!(out.ok);
    assert_eq!(out.summary, "reconciled: 1 post published");

    let diag = Diagnostic {
        message: "unknown component <OrbitSimulatr>".to_string(),
        file: Some("content/blog/broken/index.mdx".to_string()),
        line: Some(3),
        column: None,
    };
    let out = PublishOutcome::new(2, 1, 1, true, &[diag]);
    assert!(!out.ok);
    assert_eq!(
        out.summary,
        "1 post failed validation (previous versions kept); \
         content/blog/broken/index.mdx: unknown component <OrbitSimulatr>"
    );
}

#[test]
fn outcome_does_not_claim_kept_for_dropped_posts() {
    let diag = Diagnostic {
        message: "unknown component <Nope>".to_string(),
        file: Some("content/blog/new-and-broken/index.mdx".to_string()),
        line: None,
        column: None,
    };
    let out = PublishOutcome::new(2, 2, 1, true, &[diag]);
    assert!(!out.ok);
    assert!(
        out.summary.contains("previous versions kept where available"),
        "{}",
        out.summary
    );
}

#[test]
fn outcome_is_not_ok_when_the_purge_fails() {
    let out = PublishOutcome::new(2, 0, 0, false, &[]);
    assert!(!out.ok);
    assert_eq!(
        out.summary,
        "reconciled: 2 posts published; cache purge failed — pages may be stale"
    );

    let out = PublishOutcome::new(1, 1, 1, false, &[]);
    assert!(!out.ok);
    assert!(out.summary.contains("cache purge failed"), "{}", out.summary);
    assert!(out.summary.contains("failed validation"), "{}", out.summary);
}

#[test]
fn purge_scope_merges_debt_into_the_stale_tags_deduped() {
    let stale = vec!["post:a".to_string(), "views".to_string()];
    let debt = vec!["post:b".to_string(), "views".to_string()];
    assert_eq!(purge_scope(stale, Some(debt)), ["post:a", "post:b", "views"]);
}

#[test]
fn purge_scope_of_an_unchanged_reconcile_is_the_debt_alone() {
    let debt = vec!["post:a".to_string()];
    assert_eq!(purge_scope(vec![], Some(debt)), ["post:a"]);
    assert!(purge_scope(vec![], Some(vec![])).is_empty());
}

#[test]
fn purge_scope_escalates_unreadable_debt_to_a_site_purge() {
    assert_eq!(purge_scope(vec![], None), ["site"]);
    assert_eq!(purge_scope(vec!["post:a".to_string()], None), ["post:a", "site"]);
}

#[test]
fn failure_description_is_concise_and_counts_diagnostics() {
    let diag = |message: &str| Diagnostic {
        message: message.to_string(),
        file: Some("content/blog/hello/index.mdx".to_string()),
        line: Some(3),
        column: None,
    };
    let one = failure_description(&[diag("unknown component <OrbitSimulatr>")]);
    assert_eq!(
        one,
        "content/blog/hello/index.mdx: unknown component <OrbitSimulatr>"
    );
    let two = failure_description(&[diag("first problem"), diag("second problem")]);
    assert_eq!(
        two,
        "2 errors; first: content/blog/hello/index.mdx: first problem"
    );
}

#[test]
fn failure_description_of_no_diagnostics_is_empty() {
    assert_eq!(failure_description(&[]), "");
}

#[test]
fn github_urls_pin_repo_path_and_sha() {
    assert_eq!(
        contents_url("chrishiguto/chris", "hello", "abc123"),
        "https://api.github.com/repos/chrishiguto/chris/contents/content/blog/hello/index.mdx?ref=abc123"
    );
    assert_eq!(
        head_ref_url("chrishiguto/chris", "main"),
        "https://api.github.com/repos/chrishiguto/chris/git/ref/heads/main"
    );
    assert_eq!(
        tree_url("chrishiguto/chris", "abc123"),
        "https://api.github.com/repos/chrishiguto/chris/git/trees/abc123?recursive=1"
    );
}

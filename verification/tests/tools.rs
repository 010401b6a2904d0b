use blog::cli::{
    bulk_delete_body, bulk_result, index_status, parse_flags, publish_summary, removed_slugs,
    render_diags, select_sources, sort_sources, tree_outcome, KvClient, USAGE,
};
use blog::cli::{discovered, PostDir};
use blog::content::{ComponentSpec, Diagnostic, IndexEntry, Manifest};
use blog::pipeline::{content_status, expect_status, missing_source};
use blog::publish::{bulk_body, check, check_each, collect_checks, content_hash, stale_tags, snapshot, CarriedPost, KvWrite, ParsedPost, PostSource};

fn strings(v: &[&str]) -> Vec<String> {
    v.iter().map(|s| s.to_string()).collect()
}

fn source(slug: &str, body: &str) -> PostSource {
    PostSource {
        slug: slug.into(),
        file: format!("content/blog/{slug}/index.mdx"),
        source: format!("---\ntitle: {slug}\ndate: 2026-01-0{}\n---\n\n{body}\n", slug.len()),
    }
}

fn parsed(slugs: &[&str]) -> Vec<ParsedPost> {
    let sources: Vec<PostSource> = slugs.iter().map(|s| source(s, "Hi.")).collect();
    check(&sources, &Manifest { components: vec![] }).unwrap()
}

fn entry(slug: &str) -> IndexEntry {
    IndexEntry {
        slug: slug.into(),
        title: slug.into(),
        date: "2026-01-01".into(),
        description: None,
        tags: vec![],
        draft: false,
    }
}

fn diag(message: &str, file: Option<&str>, line: Option<usize>) -> Diagnostic {
    Diagnostic { message: message.into(), file: file.map(String::from), line, column: None }
}

#[test]
fn flags_pair_values_and_reject_typos() {
    let flags = parse_flags(&strings(&["--sha", "abc", "--out", "dir", "--sha", "def"]), &["--sha", "--out"]).unwrap();
    assert_eq!(flags.get("--sha").map(String::as_str), Some("def"));
    assert_eq!(flags.get("--out").map(String::as_str), Some("dir"));
    let err = parse_flags(&strings(&["--contnet-dir", "somewhere"]), &["--content-dir"]).unwrap_err();
    assert!(err.contains("unrecognized argument `--contnet-dir`"), "{err}");
    assert!(err.ends_with(USAGE));
    assert_eq!(parse_flags(&strings(&["--out"]), &["--out"]).unwrap_err(), "--out needs a value");
    assert_eq!(parse_flags(&strings(&["--out", "--sha"]), &["--out", "--sha"]).unwrap_err(), "--out needs a value");
}

#[test]
fn diagnostics_render_one_per_line_then_the_count() {
    let one = [diag("bad", Some("a.mdx"), Some(3))];
    assert_eq!(render_diags(&one), "a.mdx:3: bad\n1 problem found");
    let two = [diag("x", None, None), diag("y", Some("b.mdx"), None)];
    assert_eq!(render_diags(&two), "<input>: x\nb.mdx: y\n2 problems found");
    assert_eq!(render_diags(&[]), "0 problems found");
}

#[test]
fn a_tree_is_publishable_only_when_structure_and_posts_are_clean() {
    let posts = parsed(&["a"]);
    assert_eq!(tree_outcome(vec![], Ok(posts)).unwrap().len(), 1);
    let structural = vec![diag("post directory has no index.mdx", Some("content/blog/x"), None)];
    assert_eq!(tree_outcome(structural.clone(), Ok(parsed(&["a"]))).unwrap_err(), structural);
    let both = tree_outcome(structural.clone(), Err(vec![diag("broken", None, None)])).unwrap_err();
    assert_eq!(both.len(), 2);
    assert_eq!(both[0], structural[0]);
}

#[test]
fn a_whole_tree_publish_prunes_posts_gone_from_the_tree() {
    let prev = [entry("a"), entry("b"), entry("c")];
    assert_eq!(removed_slugs(&prev, &parsed(&["c", "a"])), strings(&["b"]));
    assert!(removed_slugs(&prev, &parsed(&["a", "b", "c"])).is_empty());
}

#[test]
fn the_publish_report_names_posts_and_removals() {
    assert_eq!(
        publish_summary(&parsed(&["a", "bb"]), 3, &strings(&["old"])),
        "published a, bb (index: 3 entries, removed old)"
    );
    assert_eq!(publish_summary(&parsed(&["a"]), 1, &vec![]), "published a (index: 1 entries)");
}

#[test]
fn selected_posts_come_in_request_order_or_name_the_missing_file() {
    let sources = [source("a", "A."), source("b", "B.")];
    let picked = select_sources(&sources, &strings(&["b", "a"]), "content/blog").unwrap();
    let slugs: Vec<&str> = picked.iter().map(|p| p.slug.as_str()).collect();
    assert_eq!(slugs, ["b", "a"]);
    assert_eq!(
        select_sources(&sources, &strings(&["a", "zz"]), "content/blog").unwrap_err(),
        "no post at content/blog/zz/index.mdx"
    );
}

#[test]
fn discovered_sources_sort_by_slug() {
    let sorted = sort_sources(vec![source("c", ""), source("a", ""), source("b", "")]);
    let slugs: Vec<&str> = sorted.iter().map(|p| p.slug.as_str()).collect();
    assert_eq!(slugs, ["a", "b", "c"]);
}

#[test]
fn kv_api_answers() {
    assert_eq!(index_status(404), Ok(false));
    assert_eq!(index_status(200), Ok(true));
    assert_eq!(index_status(500).unwrap_err(), "GET index: HTTP 500");
    assert!(bulk_result("PUT bulk", true, "{}").is_ok());
    assert_eq!(
        bulk_result("PUT bulk", false, "{\"success\":false}").unwrap_err(),
        "PUT bulk: Cloudflare reported failure: {\"success\":false}"
    );
    assert_eq!(bulk_delete_body(&strings(&["post:a", "post:\"b\""])), r#"["post:a","post:\"b\""]"#);
    let client = KvClient::new("acct", "ns", "tok".into());
    assert_eq!(client.base, "https://api.cloudflare.com/client/v4/accounts/acct/storage/kv/namespaces/ns");
    assert_eq!(client.bearer(), "Bearer tok");
}

#[test]
fn bulk_uploads_list_writes_in_order_with_the_index_last() {
    let writes = [
        KvWrite { key: "post:a".into(), value: "{}".into() },
        KvWrite { key: "index".into(), value: "[]".into() },
    ];
    assert_eq!(bulk_body(&writes), r#"[{"key":"post:a","value":"{}"},{"key":"index","value":"[]"}]"#);
    assert_eq!(bulk_body(&[]), "[]");

    let plan = snapshot(&[], &parsed(&["a", "bb"]), vec![], "sha1").unwrap();
    let all = plan.writes();
    assert_eq!(all.len(), 3);
    assert_eq!(all.last().unwrap().key, "snapshot:sha1:index");
    let body: serde_json::Value = serde_json::from_str(&bulk_body(&all)).unwrap();
    let body = body.as_array().unwrap();
    assert_eq!(body.len(), 3);
    for write in body {
        assert!(write["key"].is_string() && write["value"].is_string());
        assert_eq!(write.as_object().unwrap().len(), 2);
    }
    assert_eq!(body[2]["key"], "snapshot:sha1:index");
}

#[test]
fn the_pointer_is_stored_as_its_sha() {
    let json = blog::content::CurrentPointer { sha: "abc\"1".into() }.to_json();
    assert_eq!(json, r#"{"sha":"abc\"1"}"#);
    let value: serde_json::Value = serde_json::from_str(&json).unwrap();
    assert_eq!(value["sha"], "abc\"1");
}

#[test]
fn github_statuses() {
    assert!(expect_status(200, 200, "https://x").is_ok());
    assert_eq!(expect_status(502, 200, "https://x").unwrap_err(), "https://x returned 502");
    assert_eq!(content_status(200, "u"), Ok(true));
    assert_eq!(content_status(404, "u"), Ok(false));
    assert_eq!(content_status(403, "u"), Err("u returned 403".to_string()));
    assert_eq!(missing_source("a", "abc"), "contents fetch for a at abc returned 404");
}

#[test]
fn every_index_entry_of_a_snapshot_has_a_written_payload() {
    let carried = vec![CarriedPost { entry: entry("old"), payload: "{}".into() }];
    let plan = snapshot(&[entry("gone")], &parsed(&["a", "bb"]), carried, "s").unwrap();
    let keys: Vec<&str> = plan.post_writes.iter().map(|w| w.key.as_str()).collect();
    for e in &plan.index {
        let key = format!("snapshot:s:post:{}", e.slug);
        assert!(keys.contains(&key.as_str()), "{key} missing from {keys:?}");
    }
    assert!(!plan.index.iter().any(|e| e.slug == "gone"));
}

#[test]
fn collected_checks_pass_only_when_no_post_reports_a_problem() {
    let manifest = Manifest { components: vec![] };
    let sources = [source("a", "Fine."), source("b", "{oops}"), source("c", "<Nope />")];
    let each = check_each(&sources, &manifest);
    let diags = collect_checks(each).unwrap_err();
    assert!(diags.iter().all(|d| d.file.is_some()));
    assert!(diags.iter().any(|d| d.file.as_deref() == Some("content/blog/b/index.mdx")));
    assert!(diags.iter().any(|d| d.file.as_deref() == Some("content/blog/c/index.mdx")));
    let ok = collect_checks(check_each(&sources[..1], &manifest)).unwrap();
    assert_eq!(ok.len(), 1);
    assert!(collect_checks(vec![]).unwrap().is_empty());
}

#[test]
fn an_invalid_slug_fails_the_whole_check() {
    let bad = PostSource { slug: "Bad_Slug".into(), ..source("x", "Hi.") };
    let diags = check(&[source("a", "Hi."), bad], &Manifest { components: vec![ComponentSpec { name: "X".into(), props: vec![], accepts_children: false }] }).unwrap_err();
    assert!(diags[0].message.starts_with("slug \"Bad_Slug\" must be a lowercase slug"), "{:?}", diags[0]);
}

#[test]
fn content_hash_is_the_hex_sha256_of_the_payload() {
    assert_eq!(content_hash(""), "e3b0c44298fc1c149afbf4c8996fb92427ae41e4649b934ca495991b7852b855");
    assert_eq!(content_hash("abc"), "ba7816bf8f01cfea414140de5dae2223b00361a396177a9cb410ff61f20015ad");
}

#[test]
fn stale_tags_name_every_post_of_either_index_then_the_views() {
    let tags = stale_tags(&[entry("b"), entry("a")], &[entry("c"), entry("a")]);
    assert_eq!(tags, strings(&["post:a", "post:b", "post:c", "views"]));
    assert!(stale_tags(&[], &[]).is_empty());
}

#[test]
fn suggestions_compare_case_insensitively_within_two_edits() {
    let candidates = ["Callout", "OrbitSimulator"];
    assert_eq!(blog::content::suggest::suggest("CALLOUT", &candidates), Some("Callout"));
    assert_eq!(blog::content::suggest::suggest("orbitsimulater", &candidates), Some("OrbitSimulator"));
    assert_eq!(blog::content::suggest::suggest("Nothing", &candidates), None);
    let a: Vec<char> = "kitten".chars().collect();
    let b: Vec<char> = "sitting".chars().collect();
    assert_eq!(blog::content::suggest::edit_distance(&a, &b), 3);
}

#[test]
fn edit_distance_is_zero_to_itself_full_to_empty_and_symmetric() {
    let a: Vec<char> = "callout".chars().collect();
    let b: Vec<char> = "calout".chars().collect();
    let empty: Vec<char> = Vec::new();
    assert_eq!(blog::content::suggest::edit_distance(&a, &a), 0);
    assert_eq!(blog::content::suggest::edit_distance(&a, &empty), 7);
    assert_eq!(blog::content::suggest::edit_distance(&empty, &a), 7);
    assert_eq!(blog::content::suggest::edit_distance(&a, &b), 1);
    assert_eq!(blog::content::suggest::edit_distance(&b, &a), 1);
}

#[test]
fn discovery_sorts_the_read_posts_and_reports_unreadable_directories() {
    let (posts, diags) = discovered(vec![
        PostDir::Read(source("zeta", "")),
        PostDir::NoIndex("content/blog/empty".into()),
        PostDir::Read(source("alpha", "")),
        PostDir::Unreadable("content/blog/locked/index.mdx".into(), "permission denied".into()),
    ]);
    let slugs: Vec<_> = posts.iter().map(|p| p.slug.as_str()).collect();
    assert_eq!(slugs, ["alpha", "zeta"]);
    assert_eq!(diags.len(), 2);
    assert_eq!(diags[0].file.as_deref(), Some("content/blog/empty"));
    assert_eq!(diags[0].message, "post directory has no index.mdx");
    assert_eq!(diags[1].file.as_deref(), Some("content/blog/locked/index.mdx"));
    assert_eq!(diags[1].message, "cannot read post: permission denied");
    assert!(diags.iter().all(|d| d.line.is_none() && d.column.is_none()));
}

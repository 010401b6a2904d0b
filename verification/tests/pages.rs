use blog::site::cache::{etag, parse_purge_body, CACHE_CONTROL};
use blog::site::pages::{
    cache_headers, final_cache_control, origin, post_page, purge_answer, purge_request_tags,
    revalidation, PostPage,
};

#[test]
fn origin_prefers_the_absolute_uri_then_the_host_header() {
    assert_eq!(origin(Some("https"), Some("blog.example"), Some("ignored")), "https://blog.example");
    assert_eq!(origin(None, None, Some("localhost:8787")), "https://localhost:8787");
    assert_eq!(origin(Some("http"), None, None), "https://localhost");
}

#[test]
fn cacheable_responses_carry_tags_control_and_etag() {
    let h = cache_headers(Some("abc"), "site,post:hello").expect("valid tags");
    assert_eq!(h.cache_tag, "site,post:hello");
    assert_eq!(h.cache_control, CACHE_CONTROL);
    assert_eq!(h.etag, Some(etag("abc")));
    let h = cache_headers(None, "site").expect("valid tags");
    assert_eq!(h.etag, None);
}

#[test]
fn tags_that_cannot_be_a_header_leave_the_response_uncached() {
    assert!(cache_headers(Some("abc"), "site,post:a\nb").is_none());
    assert!(cache_headers(Some("abc"), "site\u{7f}").is_none());
    assert!(cache_headers(Some("abc"), "site,post:caf\u{e9}").is_some());
    let h = cache_headers(Some("a\rb"), "site").expect("tags are fine");
    assert_eq!(h.etag, None);
}

#[test]
fn responses_without_cache_control_are_never_stored() {
    assert_eq!(final_cache_control(None), "no-store");
    assert_eq!(final_cache_control(Some(CACHE_CONTROL)), CACHE_CONTROL);
}

#[test]
fn a_matching_200_thins_to_a_304_without_entity_headers() {
    let names: Vec<String> =
        ["content-type", "etag", "content-length", "cache-tag"].iter().map(|s| s.to_string()).collect();
    let tag = etag("abc");
    assert_eq!(
        revalidation(200, Some(&tag), Some(&tag), &names),
        Some(vec!["content-type".to_string(), "content-length".to_string()])
    );
    assert_eq!(revalidation(404, Some(&tag), Some(&tag), &names), None);
    assert_eq!(revalidation(200, Some("\"other\""), Some(&tag), &names), None);
    assert_eq!(revalidation(200, None, Some(&tag), &names), None);
}

#[test]
fn post_pages_cache_only_published_posts() {
    assert_eq!(post_page(None), PostPage::Missing);
    assert_eq!(post_page(Some(true)), PostPage::Draft);
    assert_eq!(post_page(Some(false)), PostPage::Cached);
}

#[test]
fn the_purge_endpoint_checks_secret_bearer_then_body() {
    assert_eq!(purge_request_tags(None, Some("Bearer k"), Some(b"")), Err((500, "purge misconfigured".to_string())));
    assert_eq!(purge_request_tags(Some("k"), Some("Bearer x"), Some(b"")), Err((401, "unauthorized".to_string())));
    assert_eq!(purge_request_tags(Some("k"), Some("Bearer k"), None), Err((400, "unreadable purge body".to_string())));
    assert_eq!(purge_request_tags(Some("k"), Some("Bearer k"), Some(b"")), Ok(vec!["site".to_string()]));
    let bad = purge_request_tags(Some("k"), Some("Bearer k"), Some(br#"{"tags":[]}"#)).unwrap_err();
    assert_eq!(bad, (400, "tags must be a non-empty list of non-blank strings".to_string()));
    assert_eq!(purge_answer(true), (200, "purged"));
    assert_eq!(purge_answer(false), (502, "purge failed"));
}

#[test]
fn parse_purge_body_reads_a_tag_list() {
    assert_eq!(
        parse_purge_body(br#"{"other": 1, "tags": ["views", "post:a"]}"#).unwrap(),
        vec!["views", "post:a"]
    );
    assert!(parse_purge_body(br#"{"tags": "views"}"#).unwrap_err().starts_with("purge body: "));
    assert_eq!(parse_purge_body(b"{}").unwrap_err(), "purge body: missing field `tags`");
}

use blog::content::{
    index_key_at, post_key, post_key_at, post_path, post_path_slug, post_slug, post_tag,
    snapshot_index_key, snapshot_key_sha, snapshot_post_key, source_path, tag_filter_path,
    ABOUT_PATH, CURRENT_KEY, INDEX_KEY, LISTING_PAGES, SITE_TAG, STATIC_PAGES, VIEWS_TAG,
};

#[test]
fn snapshot_key_sha_inverts_the_key_builders() {
    assert_eq!(
        snapshot_key_sha(&snapshot_index_key("abc123")),
        Some("abc123")
    );
    assert_eq!(
        snapshot_key_sha(&snapshot_post_key("abc123", "hello")),
        Some("abc123")
    );
}

#[test]
fn snapshot_key_sha_rejects_non_snapshot_keys() {
    assert_eq!(snapshot_key_sha(CURRENT_KEY), None);
    assert_eq!(snapshot_key_sha(INDEX_KEY), None);
    assert_eq!(snapshot_key_sha(&post_key("hello")), None);
    assert_eq!(snapshot_key_sha("snapshot:"), None);
    assert_eq!(snapshot_key_sha("snapshot::index"), None);
}

#[test]
fn post_slug_matches_only_post_sources() {
    assert_eq!(post_slug("content/blog/hello/index.mdx"), Some("hello"));
    assert_eq!(post_slug("content/blog/hello/notes.txt"), None);
    assert_eq!(post_slug("content/blog/a/b/index.mdx"), None);
    assert_eq!(post_slug("content/blog/index.mdx"), None);
    assert_eq!(post_slug("docs/index.mdx"), None);
}

#[test]
fn source_path_inverts_post_slug() {
    assert_eq!(source_path("hello"), "content/blog/hello/index.mdx");
    assert_eq!(post_slug(&source_path("hello")), Some("hello"));
}

#[test]
fn post_path_slug_matches_exactly_one_post_page() {
    assert_eq!(post_path_slug(&post_path("hello")), Some("hello"));
    for path in ["/", "/posts", "/posts/", "/posts/a/b", "/about"] {
        assert_eq!(post_path_slug(path), None);
    }
}

#[test]
fn tag_filter_path_rides_the_listing_hash() {
    assert_eq!(tag_filter_path("rust"), "/posts#rust");
}

#[test]
fn listing_pages_are_home_and_posts_only() {
    assert_eq!(LISTING_PAGES, ["/", "/posts"]);
}

#[test]
fn static_pages_carry_the_about_path() {
    assert_eq!(ABOUT_PATH, "/about");
    assert!(STATIC_PAGES.contains(&ABOUT_PATH));
}

#[test]
fn cache_tags_name_one_post_or_a_shared_scope() {
    assert_eq!(post_tag("hello"), "post:hello");
    assert_ne!(SITE_TAG, VIEWS_TAG);
}

#[test]
fn keys_at_a_pointer_fall_back_to_the_flat_layout() {
    assert_eq!(index_key_at(Some("abc123")), "snapshot:abc123:index");
    assert_eq!(index_key_at(None), INDEX_KEY);
    assert_eq!(
        post_key_at(Some("abc123"), "hello"),
        "snapshot:abc123:post:hello"
    );
    assert_eq!(post_key_at(None, "hello"), "post:hello");
}

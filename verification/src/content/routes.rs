//! Store keys and public URL paths, defined once so routers, sitemaps and
//! publish plans never hand-copy literals.
use vstd::prelude::*;
use vstd::string::*;

use crate::text::{lemma_first_index_of, chars_of, concat, concat3, find_char, first_index_of, has_prefix, owned, starts_with};

verus! {

/// The only mutable content key: names the published snapshot.
pub const CURRENT_KEY: &'static str = "current";

/// Namespace of every snapshot key.
pub const SNAPSHOT_KEY_SPACE: &'static str = "snapshot:";

/// Flat listing key from before snapshots; readers fall back to it until
/// the first pointer flip.
pub const INDEX_KEY: &'static str = "index";

/// Index-backed HTML listing pages: routed, sitemapped, purged on publish.
pub const LISTING_PAGES: [&'static str; 2] = ["/", "/posts"];

/// The about page's public path.
pub const ABOUT_PATH: &'static str = "/about";

/// Hardcoded pages with no store read.
pub const STATIC_PAGES: [&'static str; 1] = ["/about"];

/// The Atom feed's public path.
pub const RSS_PATH: &'static str = "/rss.xml";

/// The sitemap's public path.
pub const SITEMAP_PATH: &'static str = "/sitemap.xml";

/// The index-backed XML feeds.
pub const FEED_PATHS: [&'static str; 2] = ["/rss.xml", "/sitemap.xml"];

/// The tag pages' listing path.
pub const TAGS_PATH: &'static str = "/tags";

/// The writing archive, where old listing links land.
pub const WRITING_PATH: &'static str = "/writing";

/// Cache tag carried by every cacheable response.
pub const SITE_TAG: &'static str = "site";

/// Cache tag shared by the index-backed views.
pub const VIEWS_TAG: &'static str = "views";

/// Authoring tree root: one `{CONTENT_ROOT}/{slug}/{POST_FILE}` per post.
pub const CONTENT_ROOT: &'static str = "content/blog";

/// The source file of a post inside its directory.
pub const POST_FILE: &'static str = "index.mdx";

/// Value stored under [`CURRENT_KEY`].
#[derive(Debug, Clone, PartialEq, Eq)]
pub struct CurrentPointer {
    /// Commit sha the snapshot was built from, or a `manual-*` label.
    pub sha: String,
}

pub open spec fn spec_snapshot_prefix(sha: Seq<char>) -> Seq<char> {
    "snapshot:"@ + sha + ":"@
}

pub open spec fn spec_snapshot_index_key(sha: Seq<char>) -> Seq<char> {
    spec_snapshot_prefix(sha) + "index"@
}

pub open spec fn spec_snapshot_post_key(sha: Seq<char>, slug: Seq<char>) -> Seq<char> {
    spec_snapshot_prefix(sha) + "post:"@ + slug
}

pub open spec fn spec_post_key(slug: Seq<char>) -> Seq<char> {
    "post:"@ + slug
}

/// The sha named by a snapshot key: what lies between the key space and the
/// next `:`, when that is not empty.
pub open spec fn spec_snapshot_key_sha(key: Seq<char>) -> Option<Seq<char>> {
    let space = "snapshot:"@;
    if !has_prefix(key, space) {
        None
    } else {
        let rest = key.skip(space.len() as int);
        match first_index_of(rest, ':') {
            Some(i) => if i > 0 { Some(rest.take(i)) } else { None },
            None => None,
        }
    }
}

/// The store key of a snapshot's ordered post listing.
pub fn snapshot_index_key(sha: &str) -> (r: String)
    ensures
        r@ == spec_snapshot_index_key(sha@),
{
    let mut r = snapshot_prefix(sha);
    crate::text::push_text(&mut r, "index");
    r
}

/// The store key of one post's document inside a snapshot.
pub fn snapshot_post_key(sha: &str, slug: &str) -> (r: String)
    ensures
        r@ == spec_snapshot_post_key(sha@, slug@),
{
    let mut r = snapshot_prefix(sha);
    crate::text::push_text(&mut r, "post:");
    crate::text::push_text(&mut r, slug);
    r
}

fn snapshot_prefix(sha: &str) -> (r: String)
    ensures
        r@ == spec_snapshot_prefix(sha@),
{
    concat3(SNAPSHOT_KEY_SPACE, sha, ":")
}

/// The sha a snapshot key belongs to; `None` for keys outside the snapshot
/// space or with an empty sha.
pub fn snapshot_key_sha(key: &str) -> (r: Option<&str>)
    ensures
        match r {
            Some(s) => spec_snapshot_key_sha(key@) == Some(s@),
            None => spec_snapshot_key_sha(key@) is None,
        },
{
    let k = chars_of(key);
    let klen = k.len();
    let space = chars_of(SNAPSHOT_KEY_SPACE);
    if !starts_with(&k, &space) {
        return None;
    }
    let rest = crate::text::tail_chars(&k, space.len());
    match find_char(&rest, ':') {
        Some(i) => {
            if i > 0 {
                assert(space.len() + i < k@.len());
                Some(key.substring_char(space.len(), space.len() + i))
            } else {
                None
            }
        },
        None => None,
    }
}

/// The flat post key from before snapshots.
pub fn post_key(slug: &str) -> (r: String)
    ensures
        r@ == spec_post_key(slug@),
{
    concat("post:", slug)
}

pub open spec fn spec_index_key_at(current: Option<Seq<char>>) -> Seq<char> {
    match current {
        Some(sha) => spec_snapshot_index_key(sha),
        None => "index"@,
    }
}

pub open spec fn spec_post_key_at(current: Option<Seq<char>>, slug: Seq<char>) -> Seq<char> {
    match current {
        Some(sha) => spec_snapshot_post_key(sha, slug),
        None => spec_post_key(slug),
    }
}

/// The view of an optional text.
pub open spec fn opt_view(o: Option<&str>) -> Option<Seq<char>> {
    match o {
        Some(s) => Some(s@),
        None => None,
    }
}

/// Index key for the resolved pointer, falling back to the flat key; read
/// and write paths share this rule.
pub fn index_key_at(current: Option<&str>) -> (r: String)
    ensures
        r@ == spec_index_key_at(opt_view(current)),
{
    match current {
        Some(sha) => snapshot_index_key(sha),
        None => owned(INDEX_KEY),
    }
}

/// As [`index_key_at`], for one post's payload.
pub fn post_key_at(current: Option<&str>, slug: &str) -> (r: String)
    ensures
        r@ == spec_post_key_at(opt_view(current), slug@),
{
    match current {
        Some(sha) => snapshot_post_key(sha, slug),
        None => post_key(slug),
    }
}

/// Characters a slug may hold.
pub open spec fn slug_char(c: char) -> bool {
    ('a' <= c && c <= 'z') || ('0' <= c && c <= '9') || c == '-'
}

/// Slug grammar: lowercase letters, digits and `-`, starting with a letter.
pub open spec fn spec_valid_slug(s: Seq<char>) -> bool {
    &&& s.len() > 0
    &&& 'a' <= s[0] && s[0] <= 'z'
    &&& forall|i: int| 0 <= i < s.len() ==> slug_char(#[trigger] s[i])
}

/// Whether `slug` follows the slug grammar: lowercase letters, digits and
/// `-`, starting with a letter.
pub fn valid_slug(slug: &str) -> (r: bool)
    ensures
        r == spec_valid_slug(slug@),
{
    let s = chars_of(slug);
    if s.len() == 0 {
        return false;
    }
    let first = s[0];
    if !('a' <= first && first <= 'z') {
        assert(!('a' <= s@[0] && s@[0] <= 'z'));
        return false;
    }
    let mut i: usize = 0;
    while i < s.len()
        invariant
            s@ == slug@,
            s@.len() > 0,
            'a' <= s@[0] && s@[0] <= 'z',
            i <= s@.len(),
            forall|j: int| 0 <= j < i ==> slug_char(#[trigger] s@[j]),
        decreases s@.len() - i,
    {
        let c = s[i];
        if !(('a' <= c && c <= 'z') || ('0' <= c && c <= '9') || c == '-') {
            assert(!slug_char(s@[i as int]));
            return false;
        }
        i += 1;
    }
    true
}

pub open spec fn spec_post_path(slug: Seq<char>) -> Seq<char> {
    "/posts/"@ + slug
}

/// A post's public path (also its cache key and purge path).
pub fn post_path(slug: &str) -> (r: String)
    ensures
        r@ == spec_post_path(slug@),
{
    concat("/posts/", slug)
}

/// The slug of a path that is exactly one post page.
pub open spec fn spec_post_path_slug(path: Seq<char>) -> Option<Seq<char>> {
    let p = "/posts/"@;
    if has_prefix(path, p) {
        let slug = path.skip(p.len() as int);
        if slug.len() > 0 && !slug.contains('/') {
            Some(slug)
        } else {
            None
        }
    } else {
        None
    }
}

/// [`post_path`]'s inverse: the slug when `path` is exactly one post page;
/// `None` for the listing, an empty slug, or anything deeper.
pub fn post_path_slug(path: &str) -> (r: Option<&str>)
    ensures
        opt_view(r) == spec_post_path_slug(path@),
{
    let p = chars_of(path);
    let prefix = chars_of("/posts/");
    if !starts_with(&p, &prefix) {
        return None;
    }
    let slug = crate::text::tail_chars(&p, prefix.len());
    if slug.len() > 0 && !crate::text::contains_char(&slug, '/') {
        Some(path.substring_char(prefix.len(), p.len()))
    } else {
        None
    }
}

pub open spec fn spec_tag_filter_path(tag: Seq<char>) -> Seq<char> {
    "/posts#"@ + tag
}

/// A tag's filter target on the listing: the tag rides in the URL hash, so
/// server and cache still see one `/posts` page.
pub fn tag_filter_path(tag: &str) -> (r: String)
    ensures
        r@ == spec_tag_filter_path(tag@),
{
    concat("/posts#", tag)
}

pub open spec fn spec_tag_path(tag: Seq<char>) -> Seq<char> {
    "/tags/"@ + tag
}

/// A tag's own page.
pub fn tag_path(tag: &str) -> (r: String)
    ensures
        r@ == spec_tag_path(tag@),
{
    concat("/tags/", tag)
}

pub open spec fn spec_post_tag(slug: Seq<char>) -> Seq<char> {
    "post:"@ + slug
}

/// Cache tag of one post's page.
pub fn post_tag(slug: &str) -> (r: String)
    ensures
        r@ == spec_post_tag(slug@),
{
    concat("post:", slug)
}

pub open spec fn spec_source_path(slug: Seq<char>) -> Seq<char> {
    "content/blog"@ + "/"@ + slug + "/"@ + "index.mdx"@
}

/// Repository path of a post source.
pub fn source_path(slug: &str) -> (r: String)
    ensures
        r@ == spec_source_path(slug@),
{
    let mut r = concat3(CONTENT_ROOT, "/", slug);
    crate::text::push_text(&mut r, "/");
    crate::text::push_text(&mut r, POST_FILE);
    r
}

/// `content/blog/{slug}/index.mdx` gives the slug: the text after the root
/// and up to the next `/`, when it is not empty and the rest is exactly the
/// post file.
pub open spec fn spec_post_slug(path: Seq<char>) -> Option<Seq<char>> {
    let root = "content/blog/"@;
    if !has_prefix(path, root) {
        None
    } else {
        let rest = path.skip(root.len() as int);
        match first_index_of(rest, '/') {
            Some(i) => if i > 0 && rest.skip(i + 1) == "index.mdx"@ {
                Some(rest.take(i))
            } else {
                None
            },
            None => None,
        }
    }
}

/// [`source_path`]'s inverse: the slug of a post source path; `None` for
/// any other path.
pub fn post_slug(path: &str) -> (r: Option<&str>)
    ensures
        opt_view(r) == spec_post_slug(path@),
{
    let p = chars_of(path);
    let plen = p.len();
    let root = chars_of("content/blog/");
    proof {
        reveal_strlit("content/blog/");
        reveal_strlit("content/blog");
        reveal_strlit("/");
    }
    if !starts_with(&p, &root) {
        return None;
    }
    let rest = crate::text::tail_chars(&p, root.len());
    match find_char(&rest, '/') {
        Some(i) => {
            assert(root.len() + i < p@.len());
            let file = crate::text::tail_chars(&rest, i + 1);
            let post_file = chars_of(POST_FILE);
            if i > 0 && crate::text::seq_eq(&file, &post_file) {
                Some(path.substring_char(root.len(), root.len() + i))
            } else {
                None
            }
        },
        None => None,
    }
}

proof fn lemma_first_index_after_plain(p: Seq<char>, c: char, rest: Seq<char>)
    requires
        !p.contains(c),
        rest.len() > 0,
        rest[0] == c,
    ensures
        first_index_of(p + rest, c) == Some(p.len() as int),
{
    let s = p + rest;
    assert forall|j: int| 0 <= j < p.len() implies s[j] != c by {
        assert(s[j] == p[j]);
    }
    crate::text::lemma_first_index_of_is(s, c, p.len() as int);
}

/// A snapshot key names its snapshot: the key builders and
/// [`snapshot_key_sha`] are inverse for every sha that is not empty and
/// holds no `:`.
pub proof fn law_snapshot_key_sha_inverts_builders(sha: Seq<char>, slug: Seq<char>)
    requires
        sha.len() > 0,
        !sha.contains(':'),
    ensures
        spec_snapshot_key_sha(spec_snapshot_index_key(sha)) == Some(sha),
        spec_snapshot_key_sha(spec_snapshot_post_key(sha, slug)) == Some(sha),
{
    reveal_strlit("snapshot:");
    reveal_strlit(":");
    reveal_strlit("index");
    reveal_strlit("post:");
    let space = "snapshot:"@;
    let k1 = spec_snapshot_index_key(sha);
    let k2 = spec_snapshot_post_key(sha, slug);
    assert(k1.take(space.len() as int) =~= space);
    assert(k2.take(space.len() as int) =~= space);
    let r1 = k1.skip(space.len() as int);
    let r2 = k2.skip(space.len() as int);
    assert(r1 =~= sha + (":"@ + "index"@));
    assert(r2 =~= sha + (":"@ + "post:"@ + slug));
    lemma_first_index_after_plain(sha, ':', ":"@ + "index"@);
    lemma_first_index_after_plain(sha, ':', ":"@ + "post:"@ + slug);
    assert(r1.take(sha.len() as int) =~= sha);
    assert(r2.take(sha.len() as int) =~= sha);
}

/// Keys outside the snapshot space name no snapshot.
pub proof fn law_snapshot_key_sha_needs_the_key_space(key: Seq<char>)
    requires
        !has_prefix(key, "snapshot:"@),
    ensures
        spec_snapshot_key_sha(key) is None,
{
}

proof fn lemma_slash_in_slug(slug: Seq<char>, rest: Seq<char>, file: Seq<char>)
    requires
        slug.contains('/'),
        rest.len() == slug.len() + 1 + file.len(),
        forall|j: int| 0 <= j < slug.len() ==> rest[j] == slug[j],
    ensures
        match first_index_of(rest, '/') {
            Some(i) => rest.skip(i + 1).len() > file.len(),
            None => true,
        },
{
    let j = choose|j: int| 0 <= j < slug.len() && slug[j] == '/';
    assert(rest[j] == '/');
    crate::text::lemma_first_index_of(rest, '/');
}

/// [`post_slug`] inverts [`source_path`] for every slug that is not empty
/// and holds no `/`, and no other slug comes back from a source path.
#[verifier::spinoff_prover]
pub proof fn law_post_slug_inverts_source_path(slug: Seq<char>)
    ensures
        spec_post_slug(spec_source_path(slug)) == (if slug.len() > 0 && !slug.contains('/') {
            Some(slug)
        } else {
            None::<Seq<char>>
        }),
{
    reveal_strlit("content/blog");
    reveal_strlit("content/blog/");
    reveal_strlit("/");
    reveal_strlit("index.mdx");
    let root = "content/blog/"@;
    let p = spec_source_path(slug);
    assert(p =~= root + (slug + ("/"@ + "index.mdx"@)));
    assert(p.take(root.len() as int) =~= root);
    let rest = p.skip(root.len() as int);
    assert(rest =~= slug + ("/"@ + "index.mdx"@));
    if !slug.contains('/') {
        lemma_first_index_after_plain(slug, '/', "/"@ + "index.mdx"@);
        assert(rest.skip(slug.len() as int + 1) =~= "index.mdx"@);
        assert(rest.take(slug.len() as int) =~= slug);
    } else {
        lemma_slash_in_slug(slug, rest, "index.mdx"@);
    }
}

/// [`post_path_slug`] inverts [`post_path`] exactly for slugs that are not
/// empty and hold no `/`.
pub proof fn law_post_path_slug_inverts_post_path(slug: Seq<char>)
    ensures
        spec_post_path_slug(spec_post_path(slug)) == (if slug.len() > 0 && !slug.contains('/') {
            Some(slug)
        } else {
            None::<Seq<char>>
        }),
{
    reveal_strlit("/posts/");
    let p = spec_post_path(slug);
    assert(p.take("/posts/"@.len() as int) =~= "/posts/"@);
    assert(p.skip("/posts/"@.len() as int) =~= slug);
}

} // verus!

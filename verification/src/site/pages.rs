//! How the site worker answers: the origin its links use, which responses
//! the edge cache may keep and under which headers, when a response thins
//! to a 304, and what the purge endpoint answers.
use vstd::prelude::*;

use crate::content::routes::opt_view;
use crate::site::auth::{purge_key, verify_bearer};
use crate::site::cache::{etag, is_entity_header, parse_purge_body, result_view, revalidates, spec_etag, spec_purge_tags, spec_revalidates, CACHE_CONTROL};
use crate::sorted::views;
use crate::text::{chars_of, concat, concat3, has_prefix, owned};

verus! {

/// Scheme and host with no trailing slash: the request URI's when it is
/// absolute, else `https://` and the Host header (the dev server's case),
/// or `localhost` without one.
pub open spec fn spec_origin(scheme: Option<Seq<char>>, authority: Option<Seq<char>>, host: Option<Seq<char>>) -> Seq<char> {
    match (scheme, authority) {
        (Some(s), Some(a)) => s + "://"@ + a,
        _ => "https://"@ + match host {
            Some(h) => h,
            None => "localhost"@,
        },
    }
}

/// The origin the site's absolute links use.
pub fn origin(scheme: Option<&str>, authority: Option<&str>, host: Option<&str>) -> (r: String)
    ensures
        r@ == spec_origin(opt_view(scheme), opt_view(authority), opt_view(host)),
{
    match (scheme, authority) {
        (Some(s), Some(a)) => concat3(s, "://", a),
        _ => match host {
            Some(h) => concat("https://", h),
            None => concat("https://", "localhost"),
        },
    }
}

/// A character an HTTP header value may hold: visible ASCII, space, tab,
/// or any non-ASCII character (its UTF-8 bytes are all `0x80` or more).
pub open spec fn header_char(c: char) -> bool {
    c == '\t' || (c as u32 >= 32 && c as u32 != 127)
}

/// Text an HTTP header value may hold.
pub open spec fn header_text(s: Seq<char>) -> bool {
    forall|i: int| 0 <= i < s.len() ==> header_char(#[trigger] s[i])
}

fn is_header_text(s: &str) -> (r: bool)
    ensures
        r == header_text(s@),
{
    let c = chars_of(s);
    let mut i: usize = 0;
    while i < c.len()
        invariant
            i <= c@.len(),
            c@ == s@,
            forall|j: int| 0 <= j < i ==> header_char(#[trigger] s@[j]),
        decreases c@.len() - i,
    {
        let ch = c[i];
        if !(ch == '\t' || ((ch as u32) >= 32 && (ch as u32) != 127)) {
            return false;
        }
        i += 1;
    }
    true
}

/// The headers that let the edge cache keep a response.
pub struct CacheHeaders {
    /// `Cache-Tag`: the scopes a purge selects on.
    pub cache_tag: String,
    /// `Cache-Control`.
    pub cache_control: String,
    /// `ETag`: the quoted snapshot sha, when there is one that a header
    /// can hold.
    pub etag: Option<String>,
}

/// The caching headers for a response under `tags`, or `None` when the tags
/// cannot form a header value. Fail-closed: tags are a purge's only handle
/// on a cached entry, so a response that cannot carry them stays uncached.
pub fn cache_headers(sha: Option<&str>, tags: &str) -> (r: Option<CacheHeaders>)
    ensures
        !header_text(tags@) ==> r is None,
        header_text(tags@) ==> (r matches Some(h) && h.cache_tag@ == tags@ && h.cache_control@ == CACHE_CONTROL@
            && match sha {
                Some(s) => if header_text(spec_etag(s@)) {
                    h.etag matches Some(t) && t@ == spec_etag(s@)
                } else {
                    h.etag is None
                },
                None => h.etag is None,
            }),
{
    if !is_header_text(tags) {
        return None;
    }
    let e = match sha {
        Some(s) => {
            let t = etag(s);
            if is_header_text(&t) {
                Some(t)
            } else {
                None
            }
        },
        None => None,
    };
    Some(CacheHeaders { cache_tag: owned(tags), cache_control: owned(CACHE_CONTROL), etag: e })
}

/// The `Cache-Control` a response leaves with: its own, or `no-store` when
/// it set none, so drafts, 404s and errors never gain heuristic freshness.
pub fn final_cache_control(set: Option<&str>) -> (r: String)
    ensures
        r@ == match opt_view(set) {
            Some(v) => v,
            None => "no-store"@,
        },
{
    match set {
        Some(v) => owned(v),
        None => owned("no-store"),
    }
}

/// The header names a 304 drops: those describing the body.
pub open spec fn entity_names(names: Seq<Seq<char>>) -> Seq<Seq<char>>
    decreases names.len(),
{
    if names.len() == 0 {
        Seq::empty()
    } else if has_prefix(names.last(), "content-"@) {
        entity_names(names.drop_last()).push(names.last())
    } else {
        entity_names(names.drop_last())
    }
}

/// Whether a response thins to a bodyless 304: `None` keeps it as it is;
/// `Some(names)` turns it into a 304 without the entity headers `names`.
/// Only a 200 whose `ETag` the client's `If-None-Match` matches thins.
pub fn revalidation(status: u16, if_none_match: Option<&str>, etag: Option<&str>, header_names: &[String]) -> (r: Option<Vec<String>>)
    ensures
        !spec_revalidates(status, opt_view(if_none_match), opt_view(etag)) ==> r is None,
        spec_revalidates(status, opt_view(if_none_match), opt_view(etag))
            ==> (r matches Some(v) && views(v@) == entity_names(views(header_names@))),
{
    if !revalidates(status, if_none_match, etag) {
        return None;
    }
    let ghost nv = views(header_names@);
    let mut drop: Vec<String> = Vec::new();
    let mut i: usize = 0;
    assert(views(drop@) =~= entity_names(nv.take(0)));
    while i < header_names.len()
        invariant
            i <= header_names@.len(),
            nv == views(header_names@),
            views(drop@) == entity_names(nv.take(i as int)),
        decreases header_names@.len() - i,
    {
        assert(nv.take(i + 1).drop_last() =~= nv.take(i as int));
        assert(nv.take(i + 1).last() == header_names@[i as int]@);
        if is_entity_header(&header_names[i]) {
            let ghost d0 = drop@;
            drop.push(header_names[i].clone());
            assert(views(drop@) =~= views(d0).push(header_names@[i as int]@));
        }
        i += 1;
    }
    assert(nv.take(header_names@.len() as int) =~= nv);
    Some(drop)
}

/// How a post page is answered.
#[derive(Debug, PartialEq, Eq, Structural)]
pub enum PostPage {
    /// No such post: the app renders its 404 page with a 404 status.
    Missing,
    /// A draft: rendered (shareable by URL) but never cached, so an
    /// unpublish cannot leave it served for the cache's lifetime.
    Draft,
    /// A published post, cached under its own tags.
    Cached,
}

/// The answer for a post page, from whether the snapshot holds the post and
/// whether it is a draft.
pub fn post_page(draft: Option<bool>) -> (r: PostPage)
    ensures
        r == match draft {
            None => PostPage::Missing,
            Some(true) => PostPage::Draft,
            Some(false) => PostPage::Cached,
        },
{
    match draft {
        None => PostPage::Missing,
        Some(true) => PostPage::Draft,
        Some(false) => PostPage::Cached,
    }
}

/// What the purge endpoint answers before it purges: the tags to purge, or
/// the status and message to answer with.
pub open spec fn purge_request(secret: Option<Seq<char>>, authorization: Option<Seq<char>>, body: Option<Seq<u8>>)
    -> Result<Seq<Seq<char>>, (u16, Seq<char>)>
{
    match secret {
        None => Err((500u16, "purge misconfigured"@)),
        Some(s) => if !crate::authn::spec_bearer_matches(purge_key(), s, authorization) {
            Err((401u16, "unauthorized"@))
        } else {
            match body {
                None => Err((400u16, "unreadable purge body"@)),
                Some(b) => match spec_purge_tags(b) {
                    Ok(tags) => Ok(tags),
                    Err(e) => Err((400u16, e)),
                },
            }
        },
    }
}

/// The purge endpoint's checks in order: a missing secret is the server's
/// misconfiguration (500), a wrong bearer a rejected caller (401), and an
/// unreadable or malformed body a bad request (400).
pub fn purge_request_tags(secret: Option<&str>, authorization: Option<&str>, body: Option<&[u8]>)
    -> (r: Result<Vec<String>, (u16, String)>)
    ensures
        match purge_request(opt_view(secret), opt_view(authorization), match body { Some(b) => Some(b@), None => None }) {
            Ok(tags) => r matches Ok(v) && views(v@) == tags,
            Err((status, message)) => r matches Err((s, m)) && s == status && m@ == message,
        },
{
    let secret = match secret {
        None => return Err((500, owned("purge misconfigured"))),
        Some(s) => s,
    };
    if !verify_bearer(secret, authorization) {
        return Err((401, owned("unauthorized")));
    }
    let body = match body {
        None => return Err((400, owned("unreadable purge body"))),
        Some(b) => b,
    };
    let r = parse_purge_body(body);
    assert(result_view(r) == spec_purge_tags(body@));
    match r {
        Ok(tags) => Ok(tags),
        Err(e) => Err((400, e)),
    }
}

/// What the purge endpoint answers once the purge ran: 200 `purged`, or
/// 502 `purge failed` so callers can report it.
pub fn purge_answer(purged: bool) -> (r: (u16, &'static str))
    ensures
        purged ==> r.0 == 200 && r.1@ == "purged"@,
        !purged ==> r.0 == 502 && r.1@ == "purge failed"@,
{
    if purged {
        (200, "purged")
    } else {
        (502, "purge failed")
    }
}

} // verus!

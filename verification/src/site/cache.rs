//! HTTP caching policy: headers, revalidation and purge scopes.
use vstd::prelude::*;

use crate::content::routes::{opt_view, spec_post_tag};
use crate::content::stored::{decode_text_list, json_text_list, pairs_view};
use crate::content::strmap::assoc_get;
use crate::sorted::views;
use crate::text::{
    all_ascii_white, all_ascii_white_bytes, chars_of, concat, has_prefix, owned, split_chars,
    split_on, starts_with, trim, trim_chars, trim_end, trim_start,
};

verus! {

/// The edge cache keeps pages a week (a backstop for missed purges);
/// browsers revalidate every view.
pub const CACHE_CONTROL: &'static str = "max-age=0, s-maxage=604800";

/// `Cache-Tag` of a post page: evicted site-wide or on its own.
pub fn post_cache_tags(slug: &str) -> (r: String)
    ensures
        r@ == "site,"@ + spec_post_tag(slug@),
{
    concat("site,", &crate::content::routes::post_tag(slug))
}

/// `Cache-Tag` of the index-backed views.
pub fn view_cache_tags() -> (r: String)
    ensures
        r@ == "site,views"@,
{
    owned("site,views")
}

/// The members of a JSON object, each value as its raw JSON text, or the
/// decoder's error message.
pub uninterp spec fn json_object_members(body: Seq<u8>) -> Result<Seq<(Seq<char>, Seq<char>)>, Seq<char>>;

/// `serde_json::from_slice` into a map from member names to raw values:
/// the members of the JSON object in `body`, in name order, one per name.
#[verifier::external_body]
fn decode_object_members(body: &[u8]) -> (r: Result<Vec<(String, String)>, String>)
    ensures
        match r {
            Ok(m) => json_object_members(body@) == Ok::<_, Seq<char>>(pairs_view(m@)),
            Err(e) => json_object_members(body@) == Err::<Seq<(Seq<char>, Seq<char>)>, _>(e@),
        },
{
    let map: std::collections::BTreeMap<String, Box<serde_json::value::RawValue>> =
        serde_json::from_slice(body).map_err(|err| err.to_string())?;
    Ok(map.into_iter().map(|(k, v)| (k, v.get().to_owned())).collect())
}

/// A tag list a purge accepts: not empty, and no tag blank.
pub open spec fn tags_acceptable(tags: Seq<Seq<char>>) -> bool {
    tags.len() > 0 && forall|i: int| 0 <= i < tags.len() ==> trim(#[trigger] tags[i]).len() > 0
}

pub open spec fn tags_rejection() -> Seq<char> {
    "tags must be a non-empty list of non-blank strings"@
}

/// What a purge body asks for: no body means the site tag (the break-glass
/// full purge); otherwise a `{"tags":[...]}` object with non-blank tags.
pub open spec fn spec_purge_tags(body: Seq<u8>) -> Result<Seq<Seq<char>>, Seq<char>> {
    if all_ascii_white(body) {
        Ok(seq!["site"@])
    } else {
        match json_object_members(body) {
            Err(e) => Err("purge body: "@ + e),
            Ok(members) => match assoc_get(members, "tags"@) {
                None => Err("purge body: missing field `tags`"@),
                Some(raw) => match json_text_list(raw) {
                    Err(e) => Err("purge body: "@ + e),
                    Ok(tags) => if tags_acceptable(tags) {
                        Ok(tags)
                    } else {
                        Err(tags_rejection())
                    },
                },
            },
        }
    }
}

pub open spec fn result_view(r: Result<Vec<String>, String>) -> Result<Seq<Seq<char>>, Seq<char>> {
    match r {
        Ok(v) => Ok(views(v@)),
        Err(e) => Err(e@),
    }
}

/// Accepts a decoded tag list only when it is not empty and no tag is blank.
pub fn validate_purge_tags(tags: Vec<String>) -> (r: Result<Vec<String>, String>)
    ensures
        result_view(r) == (if tags_acceptable(views(tags@)) {
            Ok::<_, Seq<char>>(views(tags@))
        } else {
            Err::<Seq<Seq<char>>, _>(tags_rejection())
        }),
{
    if tags.len() == 0 {
        return Err(owned("tags must be a non-empty list of non-blank strings"));
    }
    let mut i: usize = 0;
    while i < tags.len()
        invariant
            i <= tags@.len(),
            forall|j: int| 0 <= j < i ==> trim(#[trigger] views(tags@)[j]).len() > 0,
        decreases tags@.len() - i,
    {
        let t = trim_chars(&chars_of(&tags[i]));
        if t.len() == 0 {
            assert(trim(views(tags@)[i as int]).len() == 0);
            return Err(owned("tags must be a non-empty list of non-blank strings"));
        }
        i += 1;
    }
    Ok(tags)
}

/// The tags a purge body names. No body means the site tag; anything else
/// must be `{"tags":[...]}` with non-blank entries.
pub fn parse_purge_body(body: &[u8]) -> (r: Result<Vec<String>, String>)
    ensures
        result_view(r) == spec_purge_tags(body@),
{
    if all_ascii_white_bytes(body) {
        let mut v: Vec<String> = Vec::new();
        v.push(owned("site"));
        assert(views(v@) =~= seq!["site"@]);
        return Ok(v);
    }
    let members = match decode_object_members(body) {
        Ok(m) => m,
        Err(e) => return Err(concat("purge body: ", &e)),
    };
    let mut i: usize = 0;
    assert(pairs_view(members@).skip(0) =~= pairs_view(members@));
    while i < members.len()
        invariant
            i <= members@.len(),
            !all_ascii_white(body@),
            json_object_members(body@) == Ok::<_, Seq<char>>(pairs_view(members@)),
            assoc_get(pairs_view(members@), "tags"@) == assoc_get(pairs_view(members@).skip(i as int), "tags"@),
        decreases members@.len() - i,
    {
        proof {
            assert(pairs_view(members@).skip(i as int)[0] == pairs_view(members@)[i as int]);
            assert(pairs_view(members@).skip(i as int).drop_first() =~= pairs_view(members@).skip(i + 1));
        }
        if crate::text::text_eq(&members[i].0, "tags") {
            let tags = match decode_text_list(&members[i].1) {
                Ok(t) => t,
                Err(e) => return Err(concat("purge body: ", &e)),
            };
            return validate_purge_tags(tags);
        }
        i += 1;
    }
    Err(owned("purge body: missing field `tags`"))
}

/// The tags a purge body names, as [`parse_purge_body`] reads them.
pub fn purge_tags(body: &[u8]) -> (r: Result<Vec<String>, String>)
    ensures
        result_view(r) == spec_purge_tags(body@),
{
    parse_purge_body(body)
}

pub open spec fn spec_etag(sha: Seq<char>) -> Seq<char> {
    "\""@ + sha + "\""@
}

/// The quoted snapshot sha: one site-wide validator, so any publish
/// invalidates every page.
pub fn etag(sha: &str) -> (r: String)
    ensures
        r@ == spec_etag(sha@),
{
    crate::text::concat3("\"", sha, "\"")
}

/// A validator with a weak `W/` prefix dropped.
pub open spec fn strip_weak(v: Seq<char>) -> Seq<char> {
    if has_prefix(v, "W/"@) {
        v.skip(2)
    } else {
        v
    }
}

/// One trimmed `If-None-Match` candidate matches `etag`.
pub open spec fn candidate_matches(candidate: Seq<char>, etag: Seq<char>) -> bool {
    candidate == "*"@ || strip_weak(candidate) == etag
}

/// Some comma-separated candidate of `if_none_match` matches `etag`.
pub open spec fn spec_not_modified(if_none_match: Seq<char>, etag: Seq<char>) -> bool {
    exists|i: int| 0 <= i < split_on(if_none_match, ',').len()
        && candidate_matches(trim(#[trigger] split_on(if_none_match, ',')[i]), etag)
}

/// Does an `If-None-Match` value (a list, `W/` prefixes, `*`) match `etag`?
pub fn not_modified(if_none_match: &str, etag: &str) -> (r: bool)
    ensures
        r == spec_not_modified(if_none_match@, etag@),
{
    let pieces = split_chars(&chars_of(if_none_match), ',');
    let e = chars_of(etag);
    let star = chars_of("*");
    let weak = chars_of("W/");
    proof {
        reveal_strlit("W/");
    }
    let mut i: usize = 0;
    while i < pieces.len()
        invariant
            i <= pieces@.len(),
            pieces@.len() == split_on(if_none_match@, ',').len(),
            forall|k: int| 0 <= k < pieces@.len() ==> (#[trigger] pieces@[k])@ == split_on(if_none_match@, ',')[k],
            e@ == etag@,
            star@ == "*"@,
            weak@ == "W/"@,
            weak@.len() == 2,
            forall|k: int| 0 <= k < i ==> !candidate_matches(trim(#[trigger] split_on(if_none_match@, ',')[k]), etag@),
        decreases pieces@.len() - i,
    {
        let c = trim_chars(&pieces[i]);
        assert(c@ == trim(split_on(if_none_match@, ',')[i as int]));
        let stripped = if starts_with(&c, &weak) {
            crate::text::tail_chars(&c, 2)
        } else {
            c.clone()
        };
        assert(stripped@ == strip_weak(c@));
        if crate::text::seq_eq(&c, &star) || crate::text::seq_eq(&stripped, &e) {
            assert(candidate_matches(trim(split_on(if_none_match@, ',')[i as int]), etag@));
            return true;
        }
        i += 1;
    }
    false
}

pub open spec fn spec_revalidates(status: u16, if_none_match: Option<Seq<char>>, etag: Option<Seq<char>>) -> bool {
    status == 200 && match (if_none_match, etag) {
        (Some(v), Some(e)) => spec_not_modified(v, e),
        _ => false,
    }
}

/// A 200 whose ETag matches the client's `If-None-Match` may thin to a
/// bodyless 304.
pub fn revalidates(status: u16, if_none_match: Option<&str>, etag: Option<&str>) -> (r: bool)
    ensures
        r == spec_revalidates(status, opt_view(if_none_match), opt_view(etag)),
{
    status == 200 && match (if_none_match, etag) {
        (Some(v), Some(e)) => not_modified(v, e),
        _ => false,
    }
}

/// Headers describing the entity body, dropped with the body on a 304.
pub fn is_entity_header(name: &str) -> (r: bool)
    ensures
        r == has_prefix(name@, "content-"@),
{
    starts_with(&chars_of(name), &chars_of("content-"))
}

proof fn lemma_split_without_separator(s: Seq<char>, c: char)
    requires
        !s.contains(c),
    ensures
        split_on(s, c) == seq![s],
    decreases s.len(),
{
    if s.len() == 0 {
        assert(s =~= Seq::<char>::empty());
        assert(split_on(s, c) =~= seq![s]);
    } else {
        assert(!s.drop_last().contains(c)) by {
            if s.drop_last().contains(c) {
                let k = choose|k: int| 0 <= k < s.drop_last().len() && s.drop_last()[k] == c;
                assert(s[k] == c);
            }
        }
        lemma_split_without_separator(s.drop_last(), c);
        assert(s.last() != c) by {
            assert(s[s.len() - 1] == s.last());
        }
        let p = split_on(s.drop_last(), c);
        assert(p == seq![s.drop_last()]);
        assert(p.last() == s.drop_last());
        assert(s.drop_last().push(s.last()) =~= s);
        assert(split_on(s, c) == p.update(p.len() - 1, p.last().push(s.last())));
        assert(p.update(p.len() - 1, p.last().push(s.last())) =~= seq![s]);
    }
}

/// One validator for the whole site: a client holding the validator of
/// snapshot `held` gets a 304 from a page of snapshot `current` exactly
/// when they are the same snapshot, so every publish invalidates every
/// page a client holds.
pub proof fn law_one_validator_per_snapshot(held: Seq<char>, current: Seq<char>)
    requires
        !held.contains(','),
    ensures
        spec_not_modified(spec_etag(held), spec_etag(current)) <==> held == current,
{
    reveal_strlit("\"");
    let v = spec_etag(held);
    assert(v.len() == held.len() + 2);
    assert(!v.contains(',')) by {
        if v.contains(',') {
            let k = choose|k: int| 0 <= k < v.len() && v[k] == ',';
            if 0 < k && k < v.len() - 1 {
                assert(v[k] == held[k - 1]);
                assert(held.contains(','));
            }
        }
    }
    lemma_split_without_separator(v, ',');
    assert(v[0] == '"');
    assert(v.last() == '"');
    assert(trim_start(v) == v);
    assert(trim_end(v) == v);
    assert(trim(v) == v);
    assert(split_on(v, ',')[0] == v);
    reveal_strlit("W/");
    reveal_strlit("*");
    assert(!has_prefix(v, "W/"@)) by {
        if has_prefix(v, "W/"@) {
            assert(v.take(2)[0] == 'W');
        }
    }
    assert(v != "*"@) by {
        if v == "*"@ {
            assert(v[0] == '*');
        }
    }
    if held != current {
        assert(spec_etag(held) != spec_etag(current)) by {
            if spec_etag(held) == spec_etag(current) {
                assert(held =~= spec_etag(held).subrange(1, spec_etag(held).len() - 1));
                assert(current =~= spec_etag(current).subrange(1, spec_etag(current).len() - 1));
            }
        }
    } else {
        assert(candidate_matches(trim(split_on(v, ',')[0]), spec_etag(current)));
    }
}

} // verus!

//! The publish pipeline's decisions: which posts a tree listing holds, how
//! GitHub is addressed, what a reconcile reports and what it purges.
use vstd::prelude::*;

use crate::content::routes::{spec_post_slug, spec_source_path};
use crate::content::{post_slug, source_path, Diagnostic};
use crate::sorted::{insert_sorted, sorted_list, strictly_sorted, views};
use crate::text::{concat, owned, push_text, usize_digits, usize_text};

verus! {

/// The reconcile target, and the `/publish` request body itself.
#[derive(Debug, Clone, PartialEq, Eq)]
pub struct ReconcileConfig {
    /// `owner/repo`.
    pub repository: String,
    pub branch: String,
}

/// The slugs named by post source paths among `paths`.
pub open spec fn slugs_in(paths: Seq<Seq<char>>) -> Set<Seq<char>> {
    Set::new(|s: Seq<char>| exists|i: int| 0 <= i < paths.len() && spec_post_slug(paths[i]) == Some(s))
}

pub open spec fn str_views(v: Seq<&str>) -> Seq<Seq<char>> {
    v.map_values(|s: &str| s@)
}

/// Sorted slugs, each once, of every post source in a tree listing.
pub fn tree_post_slugs(paths: &[&str]) -> (r: Vec<String>)
    ensures
        strictly_sorted(views(r@)),
        views(r@) == sorted_list(slugs_in(str_views(paths@))),
{
    let mut slugs: Vec<String> = Vec::new();
    proof {
        crate::sorted::lemma_empty_sorted();
        assert(views(slugs@) =~= Seq::<Seq<char>>::empty());
        assert(slugs_in(str_views(paths@.take(0))) =~= Set::empty());
    }
    let mut i: usize = 0;
    while i < paths.len()
        invariant
            i <= paths@.len(),
            strictly_sorted(views(slugs@)),
            views(slugs@).to_set() == slugs_in(str_views(paths@.take(i as int))),
        decreases paths@.len() - i,
    {
        let ghost before = views(slugs@).to_set();
        let found = post_slug(paths[i]);
        if let Some(s) = found {
            insert_sorted(&mut slugs, owned(s));
        }
        proof {
            let pv = str_views(paths@.take(i as int));
            let pv1 = str_views(paths@.take(i + 1));
            assert(pv1 =~= pv.push(paths@[i as int]@));
            assert(views(slugs@).to_set() =~= slugs_in(pv1)) by {
                assert forall|s: Seq<char>| slugs_in(pv1).contains(s) implies views(slugs@).to_set().contains(s) by {
                    let k = choose|k: int| 0 <= k < pv1.len() && spec_post_slug(pv1[k]) == Some(s);
                    if k < i {
                        assert(pv[k] == pv1[k]);
                        assert(before.contains(s));
                    }
                }
                assert forall|s: Seq<char>| views(slugs@).to_set().contains(s) implies slugs_in(pv1).contains(s) by {
                    if before.contains(s) {
                        let k = choose|k: int| 0 <= k < pv.len() && spec_post_slug(pv[k]) == Some(s);
                        assert(pv1[k] == pv[k]);
                    } else {
                        assert(pv1[i as int] == paths@[i as int]@);
                    }
                }
            }
        }
        i += 1;
    }
    proof {
        assert(paths@.take(paths@.len() as int) =~= paths@);
        crate::sorted::lemma_sorted_list_of(views(slugs@));
    }
    slugs
}

/// The branch-ref response's parts the pipeline reads: `object.sha`.
#[derive(Debug, Clone, PartialEq, Eq)]
pub struct RefResponse {
    pub object_sha: Option<String>,
}

/// One entry of a tree listing: `path` and `type`, when they are strings.
#[derive(Debug, Clone, PartialEq, Eq)]
pub struct TreeEntry {
    pub path: Option<String>,
    pub kind: Option<String>,
}

/// A recursive tree listing's parts the pipeline reads: `truncated` when it
/// is a boolean, and `tree` when it is an array.
#[derive(Debug, Clone, PartialEq, Eq)]
pub struct TreeListing {
    pub truncated: Option<bool>,
    pub tree: Option<Vec<TreeEntry>>,
}

/// The branch head out of a ref response.
pub fn parse_head_ref(json: &RefResponse) -> (r: Result<String, String>)
    ensures
        match json.object_sha {
            Some(sha) => r == Ok::<String, String>(sha),
            None => r matches Err(e) && e@ == "ref response carries no object.sha"@,
        },
{
    match &json.object_sha {
        Some(sha) => Ok(sha.clone()),
        None => Err(owned("ref response carries no object.sha")),
    }
}

/// The paths of the blob entries of a listing.
pub open spec fn blob_paths(tree: Seq<TreeEntry>) -> Seq<Seq<char>>
    decreases tree.len(),
{
    if tree.len() == 0 {
        Seq::empty()
    } else {
        let e = tree.last();
        let rest = blob_paths(tree.drop_last());
        match (e.kind, e.path) {
            (Some(k), Some(p)) => if k@ == "blob"@ {
                rest.push(p@)
            } else {
                rest
            },
            _ => rest,
        }
    }
}

/// Post slugs from a tree listing's blob entries. A truncated listing is an
/// error: it would silently retire every post it omitted.
pub open spec fn spec_parse_tree_listing(json: TreeListing) -> Result<Seq<Seq<char>>, Seq<char>> {
    if json.truncated == Some(true) {
        Err("tree listing is truncated"@)
    } else {
        match json.tree {
            None => Err("tree response carries no tree array"@),
            Some(t) => Ok(sorted_list(slugs_in(blob_paths(t@)))),
        }
    }
}

/// Post slugs from a tree listing's blob entries, sorted, each once.
pub fn parse_tree_listing(json: &TreeListing) -> (r: Result<Vec<String>, String>)
    ensures
        match r {
            Ok(v) => spec_parse_tree_listing(*json) == Ok::<_, Seq<char>>(views(v@)),
            Err(e) => spec_parse_tree_listing(*json) == Err::<Seq<Seq<char>>, _>(e@),
        },
{
    if json.truncated == Some(true) {
        return Err(owned("tree listing is truncated"));
    }
    let entries = match &json.tree {
        Some(t) => t,
        None => return Err(owned("tree response carries no tree array")),
    };
    let mut paths: Vec<&str> = Vec::new();
    let mut i: usize = 0;
    while i < entries.len()
        invariant
            i <= entries@.len(),
            str_views(paths@) == blob_paths(entries@.take(i as int)),
        decreases entries@.len() - i,
    {
        assert(entries@.take(i + 1).drop_last() =~= entries@.take(i as int));
        let e = &entries[i];
        match (&e.kind, &e.path) {
            (Some(k), Some(p)) => {
                if crate::text::text_eq(k, "blob") {
                    paths.push(p.as_str());
                    assert(str_views(paths@) =~= blob_paths(entries@.take(i as int)).push(p@));
                }
            },
            _ => {},
        }
        i += 1;
    }
    assert(entries@.take(entries@.len() as int) =~= entries@);
    Ok(tree_post_slugs(&paths))
}

/// One diagnostic as `file: message`, or just the message.
pub open spec fn diag_line(d: Diagnostic) -> Seq<char> {
    match d.file {
        Some(f) => f@ + ": "@ + d.message@,
        None => d.message@,
    }
}

pub open spec fn spec_failure_description(diags: Seq<Diagnostic>) -> Seq<char> {
    let first = if diags.len() == 0 {
        Seq::empty()
    } else {
        diag_line(diags[0])
    };
    if diags.len() <= 1 {
        first
    } else {
        usize_digits(diags.len()) + " errors; first: "@ + first
    }
}

/// One concise line naming the first validation failure, with a count when
/// there are more.
pub fn failure_description(diags: &[Diagnostic]) -> (r: String)
    ensures
        r@ == spec_failure_description(diags@),
{
    let first = if diags.len() == 0 {
        String::new()
    } else {
        match &diags[0].file {
            Some(f) => crate::text::concat3(f, ": ", &diags[0].message),
            None => diags[0].message.clone(),
        }
    };
    if diags.len() <= 1 {
        first
    } else {
        let mut r = usize_text(diags.len());
        push_text(&mut r, " errors; first: ");
        push_text(&mut r, &first);
        r
    }
}

/// `n post` or `n posts`.
pub open spec fn posts_phrase(n: nat) -> Seq<char> {
    usize_digits(n) + (if n == 1 { " post"@ } else { " posts"@ })
}

fn posts(n: usize) -> (r: String)
    ensures
        r@ == posts_phrase(n as nat),
{
    let mut r = usize_text(n);
    if n == 1 {
        push_text(&mut r, " post");
    } else {
        push_text(&mut r, " posts");
    }
    r
}

/// The result of one reconcile, returned to the CI caller.
#[derive(Debug, Clone, PartialEq, Eq)]
pub struct PublishOutcome {
    pub published: usize,
    pub failed: usize,
    /// Failures that had a previous version to keep.
    pub carried: usize,
    /// Whether the cache purge after the flip succeeded.
    pub purged: bool,
    /// False when a post failed validation or the purge failed: readers may
    /// still see stale or missing pages.
    pub ok: bool,
    /// One line for the run log and the deployment description.
    pub summary: String,
}

pub open spec fn spec_outcome_summary(published: nat, failed: nat, carried: nat, purged: bool, diags: Seq<Diagnostic>) -> Seq<char> {
    let head = if failed == 0 {
        "reconciled: "@ + posts_phrase(published) + " published"@
    } else {
        let kept = if carried == failed {
            "previous versions kept"@
        } else {
            "previous versions kept where available"@
        };
        posts_phrase(failed) + " failed validation ("@ + kept + "); "@ + spec_failure_description(diags)
    };
    if purged {
        head
    } else {
        head + "; cache purge failed — pages may be stale"@
    }
}

impl PublishOutcome {
    pub fn new(published: usize, failed: usize, carried: usize, purged: bool, diags: &[Diagnostic]) -> (r: Self)
        ensures
            r.published == published,
            r.failed == failed,
            r.carried == carried,
            r.purged == purged,
            r.ok == (failed == 0 && purged),
            r.summary@ == spec_outcome_summary(published as nat, failed as nat, carried as nat, purged, diags@),
    {
        let mut summary = if failed == 0 {
            let mut s = owned("reconciled: ");
            push_text(&mut s, &posts(published));
            push_text(&mut s, " published");
            s
        } else {
            let mut s = posts(failed);
            push_text(&mut s, " failed validation (");
            if carried == failed {
                push_text(&mut s, "previous versions kept");
            } else {
                push_text(&mut s, "previous versions kept where available");
            }
            push_text(&mut s, "); ");
            push_text(&mut s, &failure_description(diags));
            s
        };
        if !purged {
            push_text(&mut summary, "; cache purge failed — pages may be stale");
        }
        PublishOutcome { published, failed, carried, purged, ok: failed == 0 && purged, summary }
    }
}

/// The tags a purge must cover: the stale tags plus any debt left by an
/// earlier failed purge; an unreadable debt ledger could hide any tag, so it
/// widens the scope to the whole site.
pub open spec fn spec_purge_scope(stale: Seq<Seq<char>>, debt: Option<Seq<Seq<char>>>) -> Seq<Seq<char>> {
    match debt {
        Some(d) => sorted_list(stale.to_set().union(d.to_set())),
        None => sorted_list(stale.to_set().insert("site"@)),
    }
}

fn insert_all(set: &mut Vec<String>, items: Vec<String>)
    requires
        strictly_sorted(views(old(set)@)),
    ensures
        strictly_sorted(views(final(set)@)),
        views(final(set)@).to_set() == views(old(set)@).to_set().union(views(items@).to_set()),
{
    let ghost s0 = views(set@).to_set();
    let mut i: usize = 0;
    while i < items.len()
        invariant
            i <= items@.len(),
            strictly_sorted(views(set@)),
            views(set@).to_set() == s0.union(views(items@.take(i as int)).to_set()),
        decreases items@.len() - i,
    {
        insert_sorted(set, items[i].clone());
        assert(views(items@.take(i + 1)) =~= views(items@.take(i as int)).push(items@[i as int]@));
        proof {
            crate::sorted::lemma_push_to_set(views(items@.take(i as int)), items@[i as int]@);
        }
        assert(views(set@).to_set() =~= s0.union(views(items@.take(i + 1)).to_set()));
        i += 1;
    }
    assert(items@.take(items@.len() as int) =~= items@);
}

/// The sorted purge scope: stale tags merged with the purge debt, each once;
/// with no readable debt, the site tag as well.
pub fn purge_scope(stale: Vec<String>, debt: Option<Vec<String>>) -> (r: Vec<String>)
    ensures
        strictly_sorted(views(r@)),
        views(r@) == spec_purge_scope(views(stale@), match debt {
            Some(d) => Some(views(d@)),
            None => None,
        }),
{
    let mut set: Vec<String> = Vec::new();
    proof {
        crate::sorted::lemma_empty_sorted();
        assert(views(set@) =~= Seq::<Seq<char>>::empty());
    }
    insert_all(&mut set, stale);
    match debt {
        Some(d) => {
            insert_all(&mut set, d);
        },
        None => {
            insert_sorted(&mut set, owned(crate::content::SITE_TAG));
        },
    }
    proof {
        crate::sorted::lemma_sorted_list_of(views(set@));
        assert(views(set@).to_set() =~= match debt {
            Some(d) => views(stale@).to_set().union(views(d@).to_set()),
            None => views(stale@).to_set().insert("site"@),
        });
    }
    set
}

pub open spec fn spec_contents_url(repo: Seq<char>, slug: Seq<char>, sha: Seq<char>) -> Seq<char> {
    "https://api.github.com/repos/"@ + repo + "/contents/"@ + spec_source_path(slug) + "?ref="@ + sha
}

/// Raw-content fetch pinned to the observed head: every source in one
/// snapshot comes from one commit.
pub fn contents_url(repo: &str, slug: &str, sha: &str) -> (r: String)
    ensures
        r@ == spec_contents_url(repo@, slug@, sha@),
{
    let mut r = concat("https://api.github.com/repos/", repo);
    push_text(&mut r, "/contents/");
    push_text(&mut r, &source_path(slug));
    push_text(&mut r, "?ref=");
    push_text(&mut r, sha);
    r
}

/// The branch head's ref endpoint.
pub fn head_ref_url(repo: &str, branch: &str) -> (r: String)
    ensures
        r@ == "https://api.github.com/repos/"@ + repo@ + "/git/ref/heads/"@ + branch@,
{
    let mut r = concat("https://api.github.com/repos/", repo);
    push_text(&mut r, "/git/ref/heads/");
    push_text(&mut r, branch);
    r
}

/// The recursive tree listing at `sha`.
pub fn tree_url(repo: &str, sha: &str) -> (r: String)
    ensures
        r@ == "https://api.github.com/repos/"@ + repo@ + "/git/trees/"@ + sha@ + "?recursive=1"@,
{
    let mut r = concat("https://api.github.com/repos/", repo);
    push_text(&mut r, "/git/trees/");
    push_text(&mut r, sha);
    push_text(&mut r, "?recursive=1");
    r
}

/// A GitHub response is usable only with the status the call expects.
pub fn expect_status(status: u16, want: u16, url: &str) -> (r: Result<(), String>)
    ensures
        status == want ==> r is Ok,
        status != want ==> (r matches Err(e) && e@ == url@ + " returned "@ + usize_digits(status as nat)),
{
    if status == want {
        Ok(())
    } else {
        let mut e = concat(url, " returned ");
        push_text(&mut e, &usize_text(status as usize));
        Err(e)
    }
}

/// What a raw contents fetch answered: `true` when the body is the source
/// (200), `false` when there is no such file (404), else an error.
pub fn content_status(status: u16, url: &str) -> (r: Result<bool, String>)
    ensures
        status == 200 ==> r == Ok::<bool, String>(true),
        status == 404 ==> r == Ok::<bool, String>(false),
        status != 200 && status != 404 ==> (r matches Err(e) && e@ == url@ + " returned "@ + usize_digits(status as nat)),
{
    if status == 200 {
        Ok(true)
    } else if status == 404 {
        Ok(false)
    } else {
        let mut e = concat(url, " returned ");
        push_text(&mut e, &usize_text(status as usize));
        Err(e)
    }
}

/// The error for a post the tree at `head` listed but whose contents came
/// back missing: transport trouble, not a removal.
pub fn missing_source(slug: &str, head: &str) -> (r: String)
    ensures
        r@ == "contents fetch for "@ + slug@ + " at "@ + head@ + " returned 404"@,
{
    let mut e = concat("contents fetch for ", slug);
    push_text(&mut e, " at ");
    push_text(&mut e, head);
    push_text(&mut e, " returned 404");
    e
}

} // verus!

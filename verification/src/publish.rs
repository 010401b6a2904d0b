//! Publish planning: validate post sources, lay a snapshot out as KV writes,
//! and name the URLs a snapshot flip makes stale. No transport here: callers
//! read sources and perform the writes.
use vstd::prelude::*;

use sha2::{Digest, Sha256};
use vstd::string::StringSliceAdditionalSpecFns;

use crate::content::json::{index_json, json_document, json_index};
use crate::content::parse::{diag_view, diags_view, named_outcome};
use crate::content::routes::{
    spec_post_path, spec_post_tag, spec_snapshot_index_key, spec_snapshot_post_key,
    spec_tag_path, spec_valid_slug,
};
use crate::content::{
    opt_text, parse_validated_named, post_path, post_tag, snapshot_index_key, snapshot_post_key,
    tag_path, valid_slug, AstError, Diagnostic, Document, IndexEntry, Manifest, RSS_PATH,
    SITEMAP_PATH, TAGS_PATH, VIEWS_TAG,
};
use crate::sorted::{insert_sorted, lemma_push_to_set, sorted_list, strictly_sorted, views};
use crate::text::{
    compare_text, concat, concat3, owned, push_char, push_text, text_lt, Order,
};

verus! {

/// The most files one purge-by-URL request may name.
pub const PURGE_FILES_LIMIT: usize = 30;

/// One post's raw authoring input, however the caller obtained it.
#[derive(Debug, Clone)]
pub struct PostSource {
    /// Directory name under `content/blog/`; the KV and URL identity.
    pub slug: String,
    /// Path stamped into diagnostics.
    pub file: String,
    pub source: String,
}

/// A source that passed parsing and validation.
#[derive(Debug)]
pub struct ParsedPost {
    pub slug: String,
    pub document: Document,
}

/// A post whose source failed validation; its previous entry and payload
/// ride into the new snapshot unchanged.
#[derive(Debug, Clone)]
pub struct CarriedPost {
    pub entry: IndexEntry,
    /// The serialized document exactly as the previous snapshot stored it.
    pub payload: String,
}

/// One KV put.
#[derive(Debug, Clone, PartialEq)]
pub struct KvWrite {
    pub key: String,
    pub value: String,
}

/// All KV writes for one snapshot; the caller flips `current` after all of
/// them.
#[derive(Debug, Clone)]
pub struct SnapshotPlan {
    /// Land these first, in any order.
    pub post_writes: Vec<KvWrite>,
    /// Write only after every post write: a torn publish never leaves an
    /// index naming missing posts.
    pub index_write: KvWrite,
    /// The new index, newest first.
    pub index: Vec<IndexEntry>,
    /// Every URL the flip may change, sorted, each once.
    pub purge: Vec<String>,
}

// ---- vetting posts ----

/// A diagnostic with a file and no position.
pub open spec fn file_diag(file: Seq<char>, msg: Seq<char>) -> (Option<Seq<char>>, Seq<char>, Option<usize>, Option<usize>) {
    (Some(file), msg, None, None)
}

pub open spec fn slug_message(slug: Seq<char>) -> Seq<char> {
    "slug \""@ + slug + "\" must be a lowercase slug (a-z, 0-9, -) starting with a letter — it names the /posts/{slug} URL and the post's component module"@
}

pub open spec fn date_message(date: Seq<char>) -> Seq<char> {
    "frontmatter `date` must be YYYY-MM-DD, got \""@ + date + "\""@
}

pub open spec fn tag_message(tag: Seq<char>) -> Seq<char> {
    "tag \""@ + tag + "\" must be a lowercase slug (a-z, 0-9, -) starting with a letter — it names the /tags/{tag} page"@
}

/// The `YYYY-MM-DD` shape: the index orders on dates as text, which is only
/// chronological for ISO dates.
pub open spec fn iso_date(d: Seq<char>) -> bool {
    d.len() == 10 && forall|i: int| 0 <= i < 10 ==> if i == 4 || i == 7 {
        #[trigger] d[i] == '-'
    } else {
        '0' <= d[i] && d[i] <= '9'
    }
}

/// Diagnostics for tags that are not slugs, in order.
pub open spec fn tag_diags(file: Seq<char>, tags: Seq<String>) -> Seq<(Option<Seq<char>>, Seq<char>, Option<usize>, Option<usize>)>
    decreases tags.len(),
{
    if tags.len() == 0 {
        Seq::empty()
    } else {
        let rest = tag_diags(file, tags.drop_last());
        if spec_valid_slug(tags.last()@) {
            rest
        } else {
            rest.push(file_diag(file, tag_message(tags.last()@)))
        }
    }
}

/// What vetting reports of a parsed document: a malformed date, then
/// non-slug tags.
pub open spec fn document_diags(file: Seq<char>, doc: Document) -> Seq<(Option<Seq<char>>, Seq<char>, Option<usize>, Option<usize>)> {
    (if iso_date(doc.frontmatter.date@) {
        Seq::empty()
    } else {
        seq![file_diag(file, date_message(doc.frontmatter.date@))]
    }) + tag_diags(file, doc.frontmatter.tags@)
}

/// Everything vetting reports for a post, given its parse: a bad slug,
/// then the parse's own diagnostics or the document's.
pub open spec fn vet_diags(post: PostSource, parsed: Result<Document, Vec<Diagnostic>>) -> Seq<(Option<Seq<char>>, Seq<char>, Option<usize>, Option<usize>)> {
    (if spec_valid_slug(post.slug@) {
        Seq::empty()
    } else {
        seq![file_diag(post.file@, slug_message(post.slug@))]
    }) + match parsed {
        Ok(doc) => document_diags(post.file@, doc),
        Err(es) => diags_view(es@),
    }
}

proof fn lemma_tag_diags_files(file: Seq<char>, tags: Seq<String>, k: int)
    requires
        0 <= k < tag_diags(file, tags).len(),
    ensures
        tag_diags(file, tags)[k].0 == Some(file),
    decreases tags.len(),
{
    if tags.len() > 0 {
        let rest = tag_diags(file, tags.drop_last());
        if k < rest.len() {
            lemma_tag_diags_files(file, tags.drop_last(), k);
        }
    }
}

proof fn lemma_document_diags_files(file: Seq<char>, doc: Document, k: int)
    requires
        0 <= k < document_diags(file, doc).len(),
    ensures
        document_diags(file, doc)[k].0 == Some(file),
{
    let first: Seq<(Option<Seq<char>>, Seq<char>, Option<usize>, Option<usize>)> =
        if iso_date(doc.frontmatter.date@) { Seq::empty() } else { seq![file_diag(file, date_message(doc.frontmatter.date@))] };
    if k >= first.len() {
        lemma_tag_diags_files(file, doc.frontmatter.tags@, k - first.len());
    }
}

fn is_iso_date(d: &str) -> (r: bool)
    ensures
        r == iso_date(d@),
{
    let c = crate::text::chars_of(d);
    if c.len() != 10 {
        return false;
    }
    let mut i: usize = 0;
    while i < 10
        invariant
            c@ == d@,
            c@.len() == 10,
            i <= 10,
            forall|j: int| 0 <= j < i ==> if j == 4 || j == 7 {
                #[trigger] c@[j] == '-'
            } else {
                '0' <= c@[j] && c@[j] <= '9'
            },
        decreases 10 - i,
    {
        let ok = if i == 4 || i == 7 { c[i] == '-' } else { '0' <= c[i] && c[i] <= '9' };
        if !ok {
            return false;
        }
        i += 1;
    }
    true
}

fn file_diagnostic(file: &str, message: String) -> (r: Diagnostic)
    ensures
        diag_view(r) == file_diag(file@, message@),
{
    Diagnostic { message, file: Some(owned(file)), line: None, column: None }
}

fn document_check(file: &str, doc: &Document, diags: &mut Vec<Diagnostic>)
    ensures
        diags_view(final(diags)@) == diags_view(old(diags)@) + document_diags(file@, *doc),
{
    let date = &doc.frontmatter.date;
    if !is_iso_date(date) {
        let d = file_diagnostic(file, concat3("frontmatter `date` must be YYYY-MM-DD, got \"", date, "\""));
        diags.push(d);
    }
    let ghost mid = diags_view(diags@);
    assert(mid =~= diags_view(old(diags)@) + (if iso_date(doc.frontmatter.date@) {
        Seq::empty()
    } else {
        seq![file_diag(file@, date_message(doc.frontmatter.date@))]
    }));
    let tags = &doc.frontmatter.tags;
    let mut i: usize = 0;
    assert(diags_view(diags@) =~= mid + tag_diags(file@, tags@.take(0)));
    while i < tags.len()
        invariant
            i <= tags@.len(),
            diags_view(diags@) == mid + tag_diags(file@, tags@.take(i as int)),
        decreases tags@.len() - i,
    {
        assert(tags@.take(i + 1).drop_last() =~= tags@.take(i as int));
        assert(tags@.take(i + 1).last() == tags@[i as int]);
        let ghost before = diags@;
        if !valid_slug(&tags[i]) {
            let d = file_diagnostic(file, concat3("tag \"", &tags[i], "\" must be a lowercase slug (a-z, 0-9, -) starting with a letter — it names the /tags/{tag} page"));
            diags.push(d);
            assert(diags_view(diags@) =~= diags_view(before).push(diag_view(d)));
        }
        assert(diags_view(diags@) =~= mid + tag_diags(file@, tags@.take(i + 1)));
        i += 1;
    }
    assert(tags@.take(tags@.len() as int) =~= tags@);
}

/// What vetting `post` gives, given its parse: the post itself exactly when
/// nothing is reported, else every problem in order.
pub open spec fn vetted(post: PostSource, parsed: Result<Document, Vec<Diagnostic>>, r: Result<ParsedPost, Vec<Diagnostic>>) -> bool {
    &&& match r {
        Ok(p) => vet_diags(post, parsed).len() == 0 && p.slug@ == post.slug@ && parsed == Ok::<Document, Vec<Diagnostic>>(p.document),
        Err(ds) => diags_view(ds@) == vet_diags(post, parsed),
    }
    &&& (r is Ok <==> (parsed is Ok && vet_diags(post, parsed).len() == 0))
}

/// What checking `post` against `m` gives: its source parsed as its file
/// and validated against `m`, then vetted.
pub open spec fn post_checked(post: PostSource, m: Manifest, r: Result<ParsedPost, Vec<Diagnostic>>) -> bool {
    exists|parsed: Result<Document, Vec<Diagnostic>>| #[trigger] named_outcome(post.source@, post.file@, Some(m), parsed) && vetted(post, parsed, r)
}

/// Each of `results` is what checking the post at its place gives.
pub open spec fn all_checked(posts: Seq<PostSource>, m: Manifest, results: Seq<Result<ParsedPost, Vec<Diagnostic>>>) -> bool {
    results.len() == posts.len() && forall|i: int| 0 <= i < posts.len() ==> post_checked(posts[i], m, #[trigger] results[i])
}

/// Vetting one post, given how its source parsed: the post passes
/// exactly when its slug is valid, it parsed, its date is ISO and its tags
/// are slugs; otherwise every problem is reported.
pub fn vet(post: &PostSource, parsed: Result<Document, Vec<Diagnostic>>) -> (r: Result<ParsedPost, Vec<Diagnostic>>)
    ensures
        vetted(*post, parsed, r),
        match r {
            Ok(p) => vet_diags(*post, parsed) == Seq::<(Option<Seq<char>>, Seq<char>, Option<usize>, Option<usize>)>::empty()
                && p.slug@ == post.slug@ && parsed == Ok::<Document, Vec<Diagnostic>>(p.document),
            Err(ds) => diags_view(ds@) == vet_diags(*post, parsed),
        },
        r is Ok <==> (parsed is Ok && vet_diags(*post, parsed).len() == 0),
{
    let mut diags: Vec<Diagnostic> = Vec::new();
    if !valid_slug(&post.slug) {
        let d = file_diagnostic(&post.file, concat3("slug \"", &post.slug, "\" must be a lowercase slug (a-z, 0-9, -) starting with a letter — it names the /posts/{slug} URL and the post's component module"));
        diags.push(d);
    }
    let ghost d0 = diags_view(diags@);
    assert(d0 =~= if spec_valid_slug(post.slug@) {
        Seq::empty()
    } else {
        seq![file_diag(post.file@, slug_message(post.slug@))]
    });
    let ghost p0 = parsed;
    match parsed {
        Ok(document) => {
            document_check(&post.file, &document, &mut diags);
            if diags.len() == 0 {
                assert(vet_diags(*post, p0) =~= diags_view(diags@));
                Ok(ParsedPost { slug: post.slug.clone(), document })
            } else {
                Err(diags)
            }
        },
        Err(errs) => {
            let ghost e = diags_view(errs@);
            let mut errs = errs;
            diags.append(&mut errs);
            assert(diags_view(diags@) =~= d0 + e);
            Err(diags)
        },
    }
}

/// Per-post check: each source passes or fails on its own, in input order;
/// one broken post does not stop the rest.
pub fn check_each(posts: &[PostSource], manifest: &Manifest) -> (r: Vec<Result<ParsedPost, Vec<Diagnostic>>>)
    ensures
        all_checked(posts@, *manifest, r@),
        r@.len() == posts@.len(),
        forall|i: int| 0 <= i < r@.len() ==> match #[trigger] r@[i] {
            Ok(p) => p.slug@ == posts@[i].slug@ && spec_valid_slug(posts@[i].slug@)
                && document_diags(posts@[i].file@, p.document).len() == 0,
            Err(ds) => ds@.len() > 0
                && forall|k: int| 0 <= k < ds@.len() ==> opt_text((#[trigger] ds@[k]).file) == Some(posts@[i].file@),
        },
{
    let mut r: Vec<Result<ParsedPost, Vec<Diagnostic>>> = Vec::new();
    let mut i: usize = 0;
    while i < posts.len()
        invariant
            i <= posts@.len(),
            r@.len() == i,
            forall|j: int| 0 <= j < i ==> post_checked(posts@[j], *manifest, #[trigger] r@[j]),
            forall|j: int| 0 <= j < i ==> match #[trigger] r@[j] {
                Ok(p) => p.slug@ == posts@[j].slug@ && spec_valid_slug(posts@[j].slug@)
                    && document_diags(posts@[j].file@, p.document).len() == 0,
                Err(ds) => ds@.len() > 0
                    && forall|k: int| 0 <= k < ds@.len() ==> opt_text((#[trigger] ds@[k]).file) == Some(posts@[j].file@),
            },
        decreases posts@.len() - i,
    {
        let post = &posts[i];
        let parsed = parse_validated_named(&post.source, &post.file, manifest);
        let ghost p0 = parsed;
        let g = vet(post, parsed);
        proof {
            assert(named_outcome(post.source@, post.file@, Some(*manifest), p0));
            assert(post_checked(*post, *manifest, g));
            if g is Err {
                let ds = g->Err_0;
                assert(diags_view(ds@).len() == ds@.len());
                match p0 {
                    Ok(_) => {},
                    Err(es) => {
                        assert(diags_view(es@).len() == es@.len());
                    },
                }
                assert forall|k: int| 0 <= k < ds@.len() implies opt_text((#[trigger] ds@[k]).file) == Some(post.file@) by {
                    assert(diag_view(ds@[k]) == diags_view(ds@)[k]);
                    let slug_part: Seq<(Option<Seq<char>>, Seq<char>, Option<usize>, Option<usize>)> =
                        if spec_valid_slug(post.slug@) { Seq::empty() } else { seq![file_diag(post.file@, slug_message(post.slug@))] };
                    if k >= slug_part.len() {
                        match p0 {
                            Ok(doc) => {
                                lemma_document_diags_files(post.file@, doc, k - slug_part.len());
                            },
                            Err(es) => {
                                assert(diags_view(es@)[k - slug_part.len()] == diag_view(es@[k - slug_part.len()]));
                            },
                        }
                    }
                }
            }
        }
        let ghost r0 = r@;
        r.push(g);
        assert forall|j: int| 0 <= j < i + 1 implies match #[trigger] r@[j] {
            Ok(p) => p.slug@ == posts@[j].slug@ && spec_valid_slug(posts@[j].slug@)
                && document_diags(posts@[j].file@, p.document).len() == 0,
            Err(ds) => ds@.len() > 0
                && forall|k: int| 0 <= k < ds@.len() ==> opt_text((#[trigger] ds@[k]).file) == Some(posts@[j].file@),
        } by {
            if j < i {
                assert(r@[j] == r0[j]);
            }
        }
        assert forall|j: int| 0 <= j < i + 1 implies post_checked(posts@[j], *manifest, #[trigger] r@[j]) by {
            if j < i {
                assert(r@[j] == r0[j]);
            }
        }
        i += 1;
    }
    r
}

/// The posts that passed, in source order.
pub open spec fn passed(results: Seq<Result<ParsedPost, Vec<Diagnostic>>>) -> Seq<ParsedPost>
    decreases results.len(),
{
    if results.len() == 0 {
        Seq::empty()
    } else {
        let rest = passed(results.drop_last());
        match results.last() {
            Ok(p) => rest.push(p),
            Err(_) => rest,
        }
    }
}

/// Every failure's diagnostics, in source order.
pub open spec fn failures(results: Seq<Result<ParsedPost, Vec<Diagnostic>>>) -> Seq<Diagnostic>
    decreases results.len(),
{
    if results.len() == 0 {
        Seq::empty()
    } else {
        let rest = failures(results.drop_last());
        match results.last() {
            Ok(_) => rest,
            Err(ds) => rest + ds@,
        }
    }
}

proof fn lemma_no_failures(results: Seq<Result<ParsedPost, Vec<Diagnostic>>>)
    requires
        forall|i: int| 0 <= i < results.len() ==> (#[trigger] results[i] matches Err(ds) ==> ds@.len() > 0),
        failures(results).len() == 0,
    ensures
        forall|i: int| 0 <= i < results.len() ==> #[trigger] results[i] is Ok,
        passed(results).len() == results.len(),
        forall|i: int| 0 <= i < results.len() ==> results[i] == Ok::<ParsedPost, Vec<Diagnostic>>(#[trigger] passed(results)[i]),
    decreases results.len(),
{
    if results.len() > 0 {
        let d = results.drop_last();
        assert forall|i: int| 0 <= i < d.len() implies (#[trigger] d[i] matches Err(ds) ==> ds@.len() > 0) by {
            assert(d[i] == results[i]);
        }
        match results.last() {
            Ok(_) => {},
            Err(ds) => {
                assert(results[results.len() - 1] matches Err(x) ==> x@.len() > 0);
                assert(failures(results) == failures(d) + ds@);
            },
        }
        lemma_no_failures(d);
        assert forall|i: int| 0 <= i < results.len() implies #[trigger] results[i] is Ok by {
            if i < results.len() - 1 {
                assert(d[i] == results[i]);
            }
        }
        assert forall|i: int| 0 <= i < results.len() implies results[i] == Ok::<ParsedPost, Vec<Diagnostic>>(#[trigger] passed(results)[i]) by {
            if i < results.len() - 1 {
                assert(d[i] == results[i]);
            }
        }
    }
}

proof fn lemma_some_failure(results: Seq<Result<ParsedPost, Vec<Diagnostic>>>, i: int)
    requires
        0 <= i < results.len(),
        results[i] matches Err(ds) && ds@.len() > 0,
    ensures
        failures(results).len() > 0,
    decreases results.len(),
{
    if i < results.len() - 1 {
        assert(results.drop_last()[i] == results[i]);
        lemma_some_failure(results.drop_last(), i);
    }
}

/// The outcome of checking every post, from each post's own result: the
/// posts when no post reported a problem, else every problem in post
/// order.
pub fn collect_checks(results: Vec<Result<ParsedPost, Vec<Diagnostic>>>) -> (r: Result<Vec<ParsedPost>, Vec<Diagnostic>>)
    ensures
        failures(results@).len() == 0 ==> (r matches Ok(ps) && ps@ == passed(results@)),
        failures(results@).len() > 0 ==> (r matches Err(ds) && ds@ == failures(results@)),
{
    let ghost all = results@;
    let n = results.len();
    let mut results = results;
    let mut parsed: Vec<ParsedPost> = Vec::new();
    let mut diags: Vec<Diagnostic> = Vec::new();
    let mut i: usize = 0;
    assert(all.skip(0) =~= all);
    while i < n
        invariant
            all.len() == n,
            i <= n,
            results@ == all.skip(i as int),
            parsed@ == passed(all.take(i as int)),
            diags@ == failures(all.take(i as int)),
        decreases n - i,
    {
        let next = results.remove(0);
        proof {
            assert(next == all[i as int]);
            assert(results@ =~= all.skip(i + 1));
            assert(all.take(i + 1).drop_last() =~= all.take(i as int));
            assert(all.take(i + 1).last() == all[i as int]);
        }
        match next {
            Ok(p) => {
                parsed.push(p);
            },
            Err(ds) => {
                let mut ds = ds;
                diags.append(&mut ds);
            },
        }
        i += 1;
    }
    assert(all.take(n as int) =~= all);
    if diags.len() == 0 {
        Ok(parsed)
    } else {
        Err(diags)
    }
}

/// Validates every source, collecting diagnostics across all files: the
/// posts when all pass, else every diagnostic in post order.
pub fn check(posts: &[PostSource], manifest: &Manifest) -> (r: Result<Vec<ParsedPost>, Vec<Diagnostic>>)
    ensures
        exists|rs: Seq<Result<ParsedPost, Vec<Diagnostic>>>| #[trigger] all_checked(posts@, *manifest, rs) && {
            &&& failures(rs).len() == 0 ==> (r matches Ok(ps) && ps@ == passed(rs))
            &&& failures(rs).len() > 0 ==> (r matches Err(ds) && ds@ == failures(rs))
        },
        match r {
            Ok(ps) => ps@.len() == posts@.len() && forall|i: int| 0 <= i < ps@.len() ==>
                (#[trigger] ps@[i]).slug@ == posts@[i].slug@ && spec_valid_slug(posts@[i].slug@)
                    && document_diags(posts@[i].file@, ps@[i].document).len() == 0,
            Err(ds) => ds@.len() > 0 && forall|k: int| 0 <= k < ds@.len()
                ==> exists|i: int| 0 <= i < posts@.len() && opt_text((#[trigger] ds@[k]).file) == Some(posts@[i].file@),
        },
        (exists|i: int| 0 <= i < posts@.len() && !spec_valid_slug(#[trigger] posts@[i].slug@)) ==> r is Err,
{
    let results = check_each(posts, manifest);
    let ghost rs = results@;
    let r = collect_checks(results);
    proof {
        if failures(rs).len() == 0 {
            lemma_no_failures(rs);
            assert forall|i: int| 0 <= i < rs.len() implies (#[trigger] passed(rs)[i]).slug@ == posts@[i].slug@
                && spec_valid_slug(posts@[i].slug@) && document_diags(posts@[i].file@, passed(rs)[i].document).len() == 0 by {
                assert(rs[i] == Ok::<ParsedPost, Vec<Diagnostic>>(passed(rs)[i]));
            }
            if exists|i: int| 0 <= i < posts@.len() && !spec_valid_slug(#[trigger] posts@[i].slug@) {
                let i = choose|i: int| 0 <= i < posts@.len() && !spec_valid_slug(#[trigger] posts@[i].slug@);
                assert(rs[i] is Ok);
            }
        } else {
            lemma_failures_name_files(posts@, rs);
        }
        if r is Ok {
            assert(failures(rs).len() == 0);
            let ps = r->Ok_0;
            assert(ps@ == passed(rs));
            assert forall|i: int| 0 <= i < ps@.len() implies (#[trigger] ps@[i]).slug@ == posts@[i].slug@
                && spec_valid_slug(posts@[i].slug@) && document_diags(posts@[i].file@, ps@[i].document).len() == 0 by {
                assert(ps@[i] == passed(rs)[i]);
            }
        }
        if r is Err {
            let ds = r->Err_0;
            assert(ds@ == failures(rs));
            assert forall|k: int| 0 <= k < ds@.len() implies exists|i: int| 0 <= i < posts@.len()
                && opt_text((#[trigger] ds@[k]).file) == Some(posts@[i].file@) by {
                assert(ds@[k] == failures(rs)[k]);
                assert(names_post_file(posts@, failures(rs)[k]));
            }
        }
    }
    r
}

/// `d` is stamped with the file of one of `posts`.
pub open spec fn names_post_file(posts: Seq<PostSource>, d: Diagnostic) -> bool {
    exists|i: int| 0 <= i < posts.len() && opt_text(d.file) == Some(#[trigger] posts[i].file@)
}

proof fn lemma_failures_name_files(posts: Seq<PostSource>, results: Seq<Result<ParsedPost, Vec<Diagnostic>>>)
    requires
        results.len() <= posts.len(),
        forall|i: int| 0 <= i < results.len() ==> (#[trigger] results[i] matches Err(ds)
            ==> forall|k: int| 0 <= k < ds@.len() ==> opt_text((#[trigger] ds@[k]).file) == Some(posts[i].file@)),
    ensures
        forall|k: int| 0 <= k < failures(results).len() ==> names_post_file(posts, #[trigger] failures(results)[k]),
    decreases results.len(),
{
    if results.len() > 0 {
        let d = results.drop_last();
        assert forall|i: int| 0 <= i < d.len() implies (#[trigger] d[i] matches Err(ds)
            ==> forall|k: int| 0 <= k < ds@.len() ==> opt_text((#[trigger] ds@[k]).file) == Some(posts[i].file@)) by {
            assert(d[i] == results[i]);
        }
        lemma_failures_name_files(posts, d);
        let f = failures(results);
        let fd = failures(d);
        assert forall|k: int| 0 <= k < f.len() implies names_post_file(posts, #[trigger] f[k]) by {
            match results.last() {
                Ok(_) => {
                    assert(f[k] == fd[k]);
                },
                Err(ds) => {
                    if k >= fd.len() {
                        assert(f[k] == ds@[k - fd.len()]);
                        let j = results.len() - 1;
                        assert(results[j] == results.last());
                        assert(opt_text(ds@[k - fd.len()].file) == Some(posts[j].file@));
                        assert(opt_text(f[k].file) == Some(posts[j].file@));
                    } else {
                        assert(f[k] == fd[k]);
                    }
                },
            }
        }
    }
}

// ---- the snapshot ----

/// What an index entry holds, as plain values.
pub open spec fn entry_key(e: IndexEntry) -> (Seq<char>, Seq<char>, Seq<char>, Option<Seq<char>>, Seq<Seq<char>>, bool) {
    (e.slug@, e.title@, e.date@, opt_text(e.description), views(e.tags@), e.draft)
}

/// The index entry a parsed post contributes, as plain values.
pub open spec fn post_key(p: ParsedPost) -> (Seq<char>, Seq<char>, Seq<char>, Option<Seq<char>>, Seq<Seq<char>>, bool) {
    let f = p.document.frontmatter;
    (p.slug@, f.title@, f.date@, opt_text(f.description), views(f.tags@), f.draft)
}

/// The entries of a new snapshot: one per checked post, then each carried
/// post's previous entry.
pub open spec fn snapshot_keys(posts: Seq<ParsedPost>, carried: Seq<CarriedPost>)
    -> Seq<(Seq<char>, Seq<char>, Seq<char>, Option<Seq<char>>, Seq<Seq<char>>, bool)>
{
    posts.map_values(|p: ParsedPost| post_key(p)) + carried.map_values(|c: CarriedPost| entry_key(c.entry))
}

/// `a` lists before `b`: a later date, or the same date and a smaller slug.
pub open spec fn entry_before(a: IndexEntry, b: IndexEntry) -> bool {
    text_lt(b.date@, a.date@) || (a.date@ == b.date@ && text_lt(a.slug@, b.slug@))
}

/// Newest first, then by slug.
pub open spec fn newest_first(s: Seq<IndexEntry>) -> bool {
    forall|i: int, j: int| 0 <= i < j < s.len() ==> !entry_before(#[trigger] s[j], #[trigger] s[i])
}

proof fn lemma_entry_before_transitive(a: IndexEntry, b: IndexEntry, c: IndexEntry)
    requires
        entry_before(a, b),
        entry_before(b, c),
    ensures
        entry_before(a, c),
{
    if text_lt(b.date@, a.date@) && text_lt(c.date@, b.date@) {
        crate::text::lemma_text_lt_transitive(c.date@, b.date@, a.date@);
    } else if text_lt(a.slug@, b.slug@) && text_lt(b.slug@, c.slug@) && a.date@ == b.date@ && b.date@ == c.date@ {
        crate::text::lemma_text_lt_transitive(a.slug@, b.slug@, c.slug@);
    }
}

proof fn lemma_entry_before_total(a: IndexEntry, b: IndexEntry)
    ensures
        !entry_before(a, b) ==> (entry_before(b, a) || (a.date@ == b.date@ && a.slug@ == b.slug@)),
        !(entry_before(a, b) && entry_before(b, a)),
{
    crate::text::lemma_text_lt_total(a.date@, b.date@);
    crate::text::lemma_text_lt_total(a.slug@, b.slug@);
    if text_lt(a.date@, b.date@) {
        crate::text::lemma_text_lt_asymmetric(a.date@, b.date@);
    }
    if text_lt(b.date@, a.date@) {
        crate::text::lemma_text_lt_asymmetric(b.date@, a.date@);
    }
    if text_lt(a.slug@, b.slug@) {
        crate::text::lemma_text_lt_asymmetric(a.slug@, b.slug@);
    }
    crate::text::lemma_text_lt_irreflexive(a.date@);
}

/// Whether the entry with key `a` lists before the one with key `b`: the
/// newer date first, then the smaller slug.
pub open spec fn key_before(a: (Seq<char>, Seq<char>, Seq<char>, Option<Seq<char>>, Seq<Seq<char>>, bool), b: (Seq<char>, Seq<char>, Seq<char>, Option<Seq<char>>, Seq<Seq<char>>, bool)) -> bool {
    text_lt(b.2, a.2) || (a.2 == b.2 && text_lt(a.0, b.0))
}

/// `e` put into `s` just before the first key it lists before, so after
/// every key it ties with.
pub open spec fn key_insert(s: Seq<(Seq<char>, Seq<char>, Seq<char>, Option<Seq<char>>, Seq<Seq<char>>, bool)>, e: (Seq<char>, Seq<char>, Seq<char>, Option<Seq<char>>, Seq<Seq<char>>, bool)) -> Seq<(Seq<char>, Seq<char>, Seq<char>, Option<Seq<char>>, Seq<Seq<char>>, bool)>
    decreases s.len(),
{
    if s.len() == 0 {
        seq![e]
    } else if key_before(e, s[0]) {
        seq![e] + s
    } else {
        seq![s[0]] + key_insert(s.drop_first(), e)
    }
}

/// The keys in listing order, keys that tie keeping the order they came
/// in: a stable sort, by insertion.
pub open spec fn listed(s: Seq<(Seq<char>, Seq<char>, Seq<char>, Option<Seq<char>>, Seq<Seq<char>>, bool)>) -> Seq<(Seq<char>, Seq<char>, Seq<char>, Option<Seq<char>>, Seq<Seq<char>>, bool)>
    decreases s.len(),
{
    if s.len() == 0 {
        Seq::empty()
    } else {
        key_insert(listed(s.drop_last()), s.last())
    }
}

proof fn lemma_key_insert_at(s: Seq<(Seq<char>, Seq<char>, Seq<char>, Option<Seq<char>>, Seq<Seq<char>>, bool)>, e: (Seq<char>, Seq<char>, Seq<char>, Option<Seq<char>>, Seq<Seq<char>>, bool), k: int)
    requires
        0 <= k <= s.len(),
        forall|j: int| 0 <= j < k ==> !key_before(e, #[trigger] s[j]),
        k < s.len() ==> key_before(e, s[k]),
    ensures
        key_insert(s, e) == s.insert(k, e),
    decreases s.len(),
{
    if k == 0 {
        assert(key_insert(s, e) =~= s.insert(0, e));
    } else {
        let t = s.drop_first();
        assert(!key_before(e, s[0]));
        assert forall|j: int| 0 <= j < k - 1 implies !key_before(e, #[trigger] t[j]) by {
            assert(t[j] == s[j + 1]);
        }
        if k - 1 < t.len() {
            assert(t[k - 1] == s[k]);
        }
        lemma_key_insert_at(t, e, k - 1);
        assert(seq![s[0]] + t.insert(k - 1, e) =~= s.insert(k, e));
    }
}

fn lists_before(a: &IndexEntry, b: &IndexEntry) -> (r: bool)
    ensures
        r == entry_before(*a, *b),
{
    match compare_text(&b.date, &a.date) {
        Order::Less => true,
        Order::Equal => compare_text(&a.slug, &b.slug) == Order::Less,
        Order::Greater => {
            proof {
                crate::text::lemma_text_lt_asymmetric(a.date@, b.date@);
            }
            false
        },
    }
}

/// Puts `e` after every entry it does not list before: stable insertion.
fn insert_entry(v: &mut Vec<IndexEntry>, e: IndexEntry)
    requires
        newest_first(old(v)@),
    ensures
        newest_first(final(v)@),
        final(v)@.map_values(|x: IndexEntry| entry_key(x)) == key_insert(old(v)@.map_values(|x: IndexEntry| entry_key(x)), entry_key(e)),
        final(v)@.map_values(|x: IndexEntry| entry_key(x)).to_multiset()
            == old(v)@.map_values(|x: IndexEntry| entry_key(x)).to_multiset().insert(entry_key(e)),
{
    broadcast use vstd::seq_lib::group_to_multiset_ensures;

    let mut k: usize = 0;
    while k < v.len() && !lists_before(&e, &v[k])
        invariant
            k <= v@.len(),
            v@ == old(v)@,
            forall|j: int| 0 <= j < k ==> !entry_before(e, #[trigger] v@[j]),
        decreases v@.len() - k,
    {
        k += 1;
    }
    let ghost s0 = v@;
    proof {
        assert forall|i: int, j: int| 0 <= i < j < s0.len() + 1 implies !entry_before(
            #[trigger] s0.insert(k as int, e)[j],
            #[trigger] s0.insert(k as int, e)[i],
        ) by {
            let t = s0.insert(k as int, e);
            if j < k {
                assert(t[i] == s0[i] && t[j] == s0[j]);
            } else if j == k {
                assert(t[i] == s0[i]);
                lemma_entry_before_total(e, s0[i]);
                assert(!entry_before(e, s0[i]));
            } else if i == k {
                assert(t[j] == s0[j - 1]);
                if entry_before(s0[j - 1], e) {
                    assert(k < s0.len());
                    assert(entry_before(e, s0[k as int]));
                    if j - 1 > k {
                        assert(!entry_before(s0[j - 1], s0[k as int]));
                    }
                    lemma_entry_before_transitive(s0[j - 1], e, s0[k as int]);
                    lemma_entry_before_total(s0[k as int], s0[k as int]);
                }
            } else if i < k {
                assert(t[i] == s0[i] && t[j] == s0[j - 1]);
            } else {
                assert(t[i] == s0[i - 1] && t[j] == s0[j - 1]);
            }
        }
        assert(s0.insert(k as int, e).map_values(|x: IndexEntry| entry_key(x))
            =~= s0.map_values(|x: IndexEntry| entry_key(x)).insert(k as int, entry_key(e)));
        let m = s0.map_values(|x: IndexEntry| entry_key(x));
        assert forall|j: int| 0 <= j < k implies !key_before(entry_key(e), #[trigger] m[j]) by {
            assert(m[j] == entry_key(s0[j]));
        }
        if k < m.len() {
            assert(m[k as int] == entry_key(s0[k as int]));
        }
        lemma_key_insert_at(m, entry_key(e), k as int);
    }
    v.insert(k, e);
}

/// Every URL a post with this slug and these tags is served at: its page
/// and its tags' pages.
pub open spec fn urls_of(slug: Seq<char>, tags: Seq<Seq<char>>) -> Set<Seq<char>> {
    set![spec_post_path(slug)].union(tags.map_values(|t: Seq<char>| spec_tag_path(t)).to_set())
}

pub open spec fn index_urls(s: Seq<IndexEntry>) -> Set<Seq<char>>
    decreases s.len(),
{
    if s.len() == 0 {
        Set::empty()
    } else {
        index_urls(s.drop_last()).union(urls_of(s.last().slug@, views(s.last().tags@)))
    }
}

pub open spec fn posts_urls(s: Seq<ParsedPost>) -> Set<Seq<char>>
    decreases s.len(),
{
    if s.len() == 0 {
        Set::empty()
    } else {
        posts_urls(s.drop_last()).union(urls_of(s.last().slug@, views(s.last().document.frontmatter.tags@)))
    }
}

pub open spec fn carried_urls(s: Seq<CarriedPost>) -> Set<Seq<char>>
    decreases s.len(),
{
    if s.len() == 0 {
        Set::empty()
    } else {
        carried_urls(s.drop_last()).union(urls_of(s.last().entry.slug@, views(s.last().entry.tags@)))
    }
}

/// The listings and feeds, which any change to the index touches.
pub open spec fn fixed_urls() -> Set<Seq<char>> {
    set!["/"@, "/posts"@, "/tags"@, "/rss.xml"@, "/sitemap.xml"@]
}

/// What a full rebuild purges: it cannot tell which bodies changed, so the
/// whole URL surface of both indexes.
pub open spec fn purge_set(prev: Seq<IndexEntry>, posts: Seq<ParsedPost>, carried: Seq<CarriedPost>) -> Set<Seq<char>> {
    fixed_urls().union(index_urls(prev)).union(posts_urls(posts)).union(carried_urls(carried))
}

fn add_urls(set: &mut Vec<String>, slug: &str, tags: &Vec<String>)
    requires
        strictly_sorted(views(old(set)@)),
    ensures
        strictly_sorted(views(final(set)@)),
        views(final(set)@).to_set() == views(old(set)@).to_set().union(urls_of(slug@, views(tags@))),
{
    let ghost s0 = views(set@).to_set();
    insert_sorted(set, post_path(slug));
    let mut i: usize = 0;
    let ghost tv = views(tags@).map_values(|t: Seq<char>| spec_tag_path(t));
    assert(tv.take(0).to_set() =~= Set::<Seq<char>>::empty());
    while i < tags.len()
        invariant
            i <= tags@.len(),
            tv == views(tags@).map_values(|t: Seq<char>| spec_tag_path(t)),
            strictly_sorted(views(set@)),
            views(set@).to_set() == s0.insert(spec_post_path(slug@)).union(tv.take(i as int).to_set()),
        decreases tags@.len() - i,
    {
        proof {
            lemma_push_to_set(tv.take(i as int), tv[i as int]);
            assert(tv.take(i + 1) =~= tv.take(i as int).push(tv[i as int]));
        }
        insert_sorted(set, tag_path(&tags[i]));
        i += 1;
    }
    assert(tv.take(tags@.len() as int) =~= tv);
    assert(views(set@).to_set() =~= s0.union(urls_of(slug@, views(tags@))));
}

fn fixed_url_set() -> (r: Vec<String>)
    ensures
        strictly_sorted(views(r@)),
        views(r@).to_set() == fixed_urls(),
{
    let mut r: Vec<String> = Vec::new();
    proof {
        crate::sorted::lemma_empty_sorted();
        assert(views(r@) =~= Seq::<Seq<char>>::empty());
    }
    insert_sorted(&mut r, owned("/"));
    insert_sorted(&mut r, owned("/posts"));
    insert_sorted(&mut r, owned(TAGS_PATH));
    insert_sorted(&mut r, owned(RSS_PATH));
    insert_sorted(&mut r, owned(SITEMAP_PATH));
    assert(views(r@).to_set() =~= fixed_urls());
    r
}

/// Lays out one immutable snapshot: the index is exactly the checked posts
/// plus the carried ones (anything in neither is retired), newest first;
/// each post's payload lands under the snapshot's key for it, and the index
/// after them. The purge list is the URL surface of both indexes.
pub fn snapshot(prev: &[IndexEntry], posts: &[ParsedPost], carried: Vec<CarriedPost>, sha: &str)
    -> (r: Result<SnapshotPlan, AstError>)
    ensures
        r matches Ok(plan) && {
            &&& plan.post_writes@.len() == posts@.len() + carried@.len()
            &&& forall|i: int| 0 <= i < posts@.len() ==> {
                &&& (#[trigger] plan.post_writes@[i]).key@ == spec_snapshot_post_key(sha@, posts@[i].slug@)
                &&& plan.post_writes@[i].value@ == json_document(posts@[i].document)
            }
            &&& forall|j: int| 0 <= j < carried@.len() ==> {
                &&& (#[trigger] plan.post_writes@[posts@.len() + j]).key@ == spec_snapshot_post_key(sha@, carried@[j].entry.slug@)
                &&& plan.post_writes@[posts@.len() + j].value@ == carried@[j].payload@
            }
            &&& newest_first(plan.index@)
            &&& plan.index@.map_values(|x: IndexEntry| entry_key(x)).to_multiset()
                == snapshot_keys(posts@, carried@).to_multiset()
            &&& plan.index_write.key@ == spec_snapshot_index_key(sha@)
            &&& plan.index_write.value@ == json_index(plan.index@)
            &&& strictly_sorted(views(plan.purge@))
            &&& views(plan.purge@) == sorted_list(purge_set(prev@, posts@, carried@))
        },
{
    broadcast use vstd::seq_lib::group_to_multiset_ensures;

    let mut index: Vec<IndexEntry> = Vec::new();
    let mut post_writes: Vec<KvWrite> = Vec::new();
    let mut purge = fixed_url_set();
    let mut i: usize = 0;
    while i < prev.len()
        invariant
            i <= prev@.len(),
            strictly_sorted(views(purge@)),
            views(purge@).to_set() == fixed_urls().union(index_urls(prev@.take(i as int))),
        decreases prev@.len() - i,
    {
        assert(prev@.take(i + 1).drop_last() =~= prev@.take(i as int));
        add_urls(&mut purge, &prev[i].slug, &prev[i].tags);
        assert(views(purge@).to_set() =~= fixed_urls().union(index_urls(prev@.take(i + 1))));
        i += 1;
    }
    assert(prev@.take(prev@.len() as int) =~= prev@);
    assert(index@.map_values(|x: IndexEntry| entry_key(x)) =~= Seq::empty());
    let mut i: usize = 0;
    while i < posts.len()
        invariant
            i <= posts@.len(),
            newest_first(index@),
            index@.map_values(|x: IndexEntry| entry_key(x)).to_multiset()
                == posts@.take(i as int).map_values(|p: ParsedPost| post_key(p)).to_multiset(),
            post_writes@.len() == i,
            forall|k: int| 0 <= k < i ==> {
                &&& (#[trigger] post_writes@[k]).key@ == spec_snapshot_post_key(sha@, posts@[k].slug@)
                &&& post_writes@[k].value@ == json_document(posts@[k].document)
            },
            strictly_sorted(views(purge@)),
            views(purge@).to_set() == fixed_urls().union(index_urls(prev@)).union(posts_urls(posts@.take(i as int))),
        decreases posts@.len() - i,
    {
        let post = &posts[i];
        assert(posts@.take(i + 1).drop_last() =~= posts@.take(i as int));
        assert(posts@.take(i + 1).map_values(|p: ParsedPost| post_key(p))
            =~= posts@.take(i as int).map_values(|p: ParsedPost| post_key(p)).push(post_key(*post)));
        let payload = post.document.to_json();
        let entry = IndexEntry::new(&post.slug, &post.document.frontmatter);
        assert(entry_key(entry) == post_key(*post));
        let ghost before = posts@.take(i as int).map_values(|p: ParsedPost| post_key(p));
        insert_entry(&mut index, entry);
        proof {
            vstd::seq_lib::to_multiset_build(before, post_key(*post));
        }
        add_urls(&mut purge, &post.slug, &post.document.frontmatter.tags);
        assert(views(purge@).to_set() =~= fixed_urls().union(index_urls(prev@)).union(posts_urls(posts@.take(i + 1))));
        post_writes.push(KvWrite { key: snapshot_post_key(sha, &post.slug), value: payload });
        i += 1;
    }
    assert(posts@.take(posts@.len() as int) =~= posts@);
    let ghost np = posts@.len();
    let mut j: usize = 0;
    let mut rest = carried;
    let ghost all = rest@;
    let total = rest.len();
    let mut back: Vec<CarriedPost> = Vec::new();
    while rest.len() > 0
        invariant
            back@.len() + rest@.len() == all.len(),
            forall|k: int| 0 <= k < rest@.len() ==> rest@[k] == all[k],
            forall|k: int| 0 <= k < back@.len() ==> back@[k] == all[all.len() - 1 - k],
        decreases rest@.len(),
    {
        let c = rest.pop().unwrap();
        back.push(c);
    }
    while back.len() > 0
        invariant
            j == all.len() - back@.len(),
            all.len() == total,
            forall|k: int| 0 <= k < back@.len() ==> back@[k] == all[all.len() - 1 - k],
            newest_first(index@),
            index@.map_values(|x: IndexEntry| entry_key(x)).to_multiset()
                == (posts@.map_values(|p: ParsedPost| post_key(p))
                    + all.take(j as int).map_values(|c: CarriedPost| entry_key(c.entry))).to_multiset(),
            post_writes@.len() == np + j,
            forall|k: int| 0 <= k < np ==> {
                &&& (#[trigger] post_writes@[k]).key@ == spec_snapshot_post_key(sha@, posts@[k].slug@)
                &&& post_writes@[k].value@ == json_document(posts@[k].document)
            },
            forall|k: int| 0 <= k < j ==> {
                &&& (#[trigger] post_writes@[np + k]).key@ == spec_snapshot_post_key(sha@, all[k].entry.slug@)
                &&& post_writes@[np + k].value@ == all[k].payload@
            },
            strictly_sorted(views(purge@)),
            views(purge@).to_set() == fixed_urls().union(index_urls(prev@)).union(posts_urls(posts@)).union(carried_urls(all.take(j as int))),
        decreases back@.len(),
    {
        let c = back.pop().unwrap();
        assert(c == all[j as int]);
        assert(all.take(j + 1).drop_last() =~= all.take(j as int));
        assert(all.take(j + 1).map_values(|c: CarriedPost| entry_key(c.entry))
            =~= all.take(j as int).map_values(|c: CarriedPost| entry_key(c.entry)).push(entry_key(c.entry)));
        assert(posts@.map_values(|p: ParsedPost| post_key(p)) + all.take(j + 1).map_values(|c: CarriedPost| entry_key(c.entry))
            =~= (posts@.map_values(|p: ParsedPost| post_key(p)) + all.take(j as int).map_values(|c: CarriedPost| entry_key(c.entry))).push(entry_key(c.entry)));
        add_urls(&mut purge, &c.entry.slug, &c.entry.tags);
        assert(views(purge@).to_set() =~= fixed_urls().union(index_urls(prev@)).union(posts_urls(posts@)).union(carried_urls(all.take(j + 1))));
        let key = snapshot_post_key(sha, &c.entry.slug);
        let CarriedPost { entry, payload } = c;
        post_writes.push(KvWrite { key, value: payload });
        let ghost before = posts@.map_values(|p: ParsedPost| post_key(p)) + all.take(j as int).map_values(|c: CarriedPost| entry_key(c.entry));
        insert_entry(&mut index, entry);
        proof {
            vstd::seq_lib::to_multiset_build(before, entry_key(entry));
        }
        j += 1;
    }
    assert(all.take(all.len() as int) =~= all);
    proof {
        crate::sorted::lemma_sorted_list_of(views(purge@));
    }
    let index_write = KvWrite { key: snapshot_index_key(sha), value: index_json(&index) };
    Ok(SnapshotPlan { post_writes, index_write, index, purge })
}

// ---- purging ----

/// Every slug of an index.
pub open spec fn slug_set(s: Seq<IndexEntry>) -> Set<Seq<char>> {
    s.map_values(|e: IndexEntry| e.slug@).to_set()
}

/// The cache tags a flip from `prev` to `next` made stale. Index entries
/// carry no content hash, so every post of either index counts as changed:
/// each slug's post tag in slug order, then the views tag when there is
/// any.
pub open spec fn spec_stale_tags(prev: Seq<IndexEntry>, next: Seq<IndexEntry>) -> Seq<Seq<char>> {
    let slugs = sorted_list(slug_set(prev).union(slug_set(next)));
    slugs.map_values(|s: Seq<char>| spec_post_tag(s)) + if slugs.len() == 0 {
        Seq::<Seq<char>>::empty()
    } else {
        seq!["views"@]
    }
}

fn add_slugs(set: &mut Vec<String>, s: &[IndexEntry])
    requires
        strictly_sorted(views(old(set)@)),
    ensures
        strictly_sorted(views(final(set)@)),
        views(final(set)@).to_set() == views(old(set)@).to_set().union(slug_set(s@)),
{
    let ghost s0 = views(set@).to_set();
    let ghost sl = s@.map_values(|e: IndexEntry| e.slug@);
    let mut i: usize = 0;
    assert(sl.take(0).to_set() =~= Set::<Seq<char>>::empty());
    while i < s.len()
        invariant
            i <= s@.len(),
            sl == s@.map_values(|e: IndexEntry| e.slug@),
            strictly_sorted(views(set@)),
            views(set@).to_set() == s0.union(sl.take(i as int).to_set()),
        decreases s@.len() - i,
    {
        proof {
            lemma_push_to_set(sl.take(i as int), sl[i as int]);
            assert(sl.take(i + 1) =~= sl.take(i as int).push(sl[i as int]));
        }
        insert_sorted(set, s[i].slug.clone());
        i += 1;
    }
    assert(sl.take(s@.len() as int) =~= sl);
    assert(views(set@).to_set() =~= s0.union(slug_set(s@)));
}

/// The cache tags a flip from `prev` to `next` made stale: the post tag of
/// every post either index names, in slug order, then the views tag once
/// anything is listed. Empty means there is nothing to purge.
pub fn stale_tags(prev: &[IndexEntry], next: &[IndexEntry]) -> (r: Vec<String>)
    ensures
        views(r@) == spec_stale_tags(prev@, next@),
{
    let mut set: Vec<String> = Vec::new();
    proof {
        crate::sorted::lemma_empty_sorted();
        assert(views(set@) =~= Seq::<Seq<char>>::empty());
    }
    add_slugs(&mut set, prev);
    add_slugs(&mut set, next);
    proof {
        crate::sorted::lemma_sorted_list_of(views(set@));
        assert(views(set@).to_set() =~= slug_set(prev@).union(slug_set(next@)));
    }
    let ghost slugs = views(set@);
    let mut r: Vec<String> = Vec::new();
    let mut i: usize = 0;
    while i < set.len()
        invariant
            i <= set@.len(),
            slugs == views(set@),
            views(r@) == slugs.take(i as int).map_values(|s: Seq<char>| spec_post_tag(s)),
        decreases set@.len() - i,
    {
        let ghost r0 = r@;
        let t = post_tag(&set[i]);
        assert(slugs[i as int] == set@[i as int]@);
        r.push(t);
        assert(views(r@) =~= views(r0).push(t@));
        assert(slugs.take(i + 1).map_values(|s: Seq<char>| spec_post_tag(s))
            =~= slugs.take(i as int).map_values(|s: Seq<char>| spec_post_tag(s)).push(spec_post_tag(slugs[i as int])));
        i += 1;
    }
    assert(slugs.take(set@.len() as int) =~= slugs);
    if set.len() > 0 {
        r.push(owned(VIEWS_TAG));
    }
    assert(views(r@) =~= spec_stale_tags(prev@, next@));
    r
}

/// `origin` without trailing slashes.
pub open spec fn bare_origin(s: Seq<char>) -> Seq<char>
    decreases s.len(),
{
    if s.len() > 0 && s.last() == '/' {
        bare_origin(s.drop_last())
    } else {
        s
    }
}

/// The purge URLs under `origin`, in batches of at most
/// [`PURGE_FILES_LIMIT`]: batch `k` holds URLs `30k` up to `30k + 30`.
pub open spec fn purge_batch(origin: Seq<char>, purge: Seq<Seq<char>>, k: int) -> Seq<Seq<char>> {
    let end = if 30 * k + 30 <= purge.len() { 30 * k + 30 } else { purge.len() as int };
    purge.subrange(30 * k, end).map_values(|p: Seq<char>| bare_origin(origin) + p)
}

proof fn lemma_bare_origin(s: Seq<char>, k: int)
    requires
        0 <= k <= s.len(),
        forall|j: int| k <= j < s.len() ==> s[j] == '/',
        k == 0 || s[k - 1] != '/',
    ensures
        bare_origin(s) == s.take(k),
    decreases s.len() - k,
{
    if k < s.len() {
        lemma_bare_origin(s.drop_last(), k);
        assert(s.drop_last().take(k) =~= s.take(k));
    } else {
        assert(s.take(k) =~= s);
    }
}

impl SnapshotPlan {
    /// The purge list as absolute URLs under `origin` (a trailing slash is
    /// dropped), split into batches the purge-by-URL API accepts; never
    /// truncated.
    pub fn purge_chunks(&self, origin: &str) -> (r: Vec<Vec<String>>)
        ensures
            r@.len() == (self.purge@.len() + 29) / 30,
            forall|k: int| 0 <= k < r@.len() ==> views((#[trigger] r@[k])@) == purge_batch(origin@, views(self.purge@), k),
    {
        let oc = crate::text::chars_of(origin);
        let mut b: usize = oc.len();
        while b > 0 && oc[b - 1] == '/'
            invariant
                b <= oc@.len(),
                forall|j: int| b <= j < oc@.len() ==> oc@[j] == '/',
            decreases b,
        {
            b -= 1;
        }
        proof {
            lemma_bare_origin(origin@, b as int);
        }
        let base = crate::text::string_of(&crate::text::head_chars(&oc, b));
        let n = self.purge.len();
        let ghost pv = views(self.purge@);
        let mut r: Vec<Vec<String>> = Vec::new();
        let mut start: usize = 0;
        while start < n
            invariant
                n == self.purge@.len(),
                pv == views(self.purge@),
                base@ == bare_origin(origin@),
                start == if 30 * r@.len() <= n { (30 * r@.len()) as int } else { n as int },
                r@.len() == 0 || 30 * (r@.len() - 1) < n,
                forall|k: int| 0 <= k < r@.len() ==> views((#[trigger] r@[k])@) == purge_batch(origin@, pv, k),
            decreases n + 30 - start,
        {
            let end = if n - start >= 30 { start + 30 } else { n };
            let mut batch: Vec<String> = Vec::new();
            let mut i = start;
            while i < end
                invariant
                    start <= i <= end <= n,
                    n == self.purge@.len(),
                    pv == views(self.purge@),
                    base@ == bare_origin(origin@),
                    views(batch@) == pv.subrange(start as int, i as int).map_values(|p: Seq<char>| bare_origin(origin@) + p),
                decreases end - i,
            {
                let ghost b0 = batch@;
                let u = concat(&base, &self.purge[i]);
                assert(pv[i as int] == self.purge@[i as int]@);
                batch.push(u);
                assert(views(batch@) =~= views(b0).push(u@));
                assert(pv.subrange(start as int, i + 1).map_values(|p: Seq<char>| bare_origin(origin@) + p)
                    =~= pv.subrange(start as int, i as int).map_values(|p: Seq<char>| bare_origin(origin@) + p).push(bare_origin(origin@) + pv[i as int]));
                i += 1;
            }
            let ghost k = r@.len() as int;
            assert(views(batch@) == purge_batch(origin@, pv, k));
            r.push(batch);
            start = end;
        }
        assert(r@.len() == (n + 29) / 30) by (nonlinear_arith)
            requires
                n <= 30 * r@.len(),
                r@.len() == 0 || 30 * (r@.len() - 1) < n,
        ;
        r
    }
}

/// The `{"key","value"}` object of one write.
pub open spec fn write_object(w: KvWrite) -> Seq<char> {
    "{\"key\":"@ + crate::content::json::json_string(w.key@) + ",\"value\":"@
        + crate::content::json::json_string(w.value@) + "}"@
}

/// The body of a bulk upload: the writes' objects in a JSON array, in order.
pub open spec fn bulk_json(writes: Seq<KvWrite>) -> Seq<char> {
    "["@ + crate::content::json::joined(writes.map_values(|w: KvWrite| write_object(w))) + "]"@
}

/// The bulk upload body for `writes`, in order.
pub fn bulk_body(writes: &[KvWrite]) -> (r: String)
    ensures
        r@ == bulk_json(writes@),
{
    let ghost items = writes@.map_values(|w: KvWrite| write_object(w));
    let mut out = owned("[");
    let ghost start = out@;
    let mut i: usize = 0;
    assert(items.take(0) =~= Seq::<Seq<char>>::empty());
    while i < writes.len()
        invariant
            i <= writes@.len(),
            items == writes@.map_values(|w: KvWrite| write_object(w)),
            start == "["@,
            out@ == start + crate::content::json::joined(items.take(i as int)),
        decreases writes@.len() - i,
    {
        assert(items.take(i + 1).drop_last() =~= items.take(i as int));
        if i > 0 {
            push_text(&mut out, ",");
        }
        let o = writes[i].to_json();
        push_text(&mut out, &o);
        i += 1;
    }
    assert(items.take(writes@.len() as int) =~= items);
    push_text(&mut out, "]");
    out
}

impl SnapshotPlan {
    /// Every write of the snapshot in upload order: the posts, then the
    /// index last.
    pub fn writes(&self) -> (r: Vec<KvWrite>)
        ensures
            r@.len() == self.post_writes@.len() + 1,
            forall|i: int| 0 <= i < self.post_writes@.len() ==> (#[trigger] r@[i]).key@ == self.post_writes@[i].key@
                && r@[i].value@ == self.post_writes@[i].value@,
            r@[self.post_writes@.len() as int].key@ == self.index_write.key@,
            r@[self.post_writes@.len() as int].value@ == self.index_write.value@,
    {
        let mut r: Vec<KvWrite> = Vec::new();
        let mut i: usize = 0;
        while i < self.post_writes.len()
            invariant
                i <= self.post_writes@.len(),
                r@.len() == i,
                forall|k: int| 0 <= k < i ==> (#[trigger] r@[k]).key@ == self.post_writes@[k].key@
                    && r@[k].value@ == self.post_writes@[k].value@,
            decreases self.post_writes@.len() - i,
        {
            let w = &self.post_writes[i];
            r.push(KvWrite { key: w.key.clone(), value: w.value.clone() });
            i += 1;
        }
        r.push(KvWrite { key: self.index_write.key.clone(), value: self.index_write.value.clone() });
        r
    }
}

impl KvWrite {
    /// The `{"key","value"}` object a bulk KV upload takes.
    pub fn to_json(&self) -> (r: String)
        ensures
            r@ == write_object(*self),
    {
        let mut out = owned("{\"key\":");
        crate::content::json::write_string(&mut out, &self.key);
        push_text(&mut out, ",\"value\":");
        crate::content::json::write_string(&mut out, &self.value);
        push_text(&mut out, "}");
        out
    }
}

// ---- content addressing ----

/// SHA-256 of a byte string.
pub uninterp spec fn sha256(data: Seq<u8>) -> Seq<u8>;

/// `Sha256::digest`: the SHA-256 digest of `data`, 32 bytes long.
#[verifier::external_body]
fn sha256_digest(data: &[u8]) -> (r: Vec<u8>)
    ensures
        r@ == sha256(data@),
        r@.len() == 32,
{
    Sha256::digest(data).to_vec()
}

pub open spec fn hex_of(bytes: Seq<u8>) -> Seq<char>
    decreases bytes.len(),
{
    if bytes.len() == 0 {
        Seq::empty()
    } else {
        hex_of(bytes.drop_last()) + seq![
            crate::content::json::hex_digit((bytes.last() / 16) as nat),
            crate::content::json::hex_digit((bytes.last() % 16) as nat),
        ]
    }
}

fn hex_char(d: u8) -> (c: char)
    requires
        d < 16,
    ensures
        c == crate::content::json::hex_digit(d as nat),
{
    if d < 10 {
        (48u8 + d) as char
    } else {
        (97u8 + d - 10) as char
    }
}

/// Content address of a serialized payload: the lowercase hex SHA-256 of
/// its UTF-8 bytes.
pub fn content_hash(payload: &str) -> (r: String)
    ensures
        r@ == hex_of(sha256(payload.spec_bytes())),
{
    let digest = sha256_digest(payload.as_bytes());
    let mut r = String::new();
    let mut i: usize = 0;
    while i < digest.len()
        invariant
            i <= digest@.len(),
            r@ == hex_of(digest@.take(i as int)),
        decreases digest@.len() - i,
    {
        assert(digest@.take(i + 1).drop_last() =~= digest@.take(i as int));
        let b = digest[i];
        push_char(&mut r, hex_char(b / 16));
        push_char(&mut r, hex_char(b % 16));
        i += 1;
    }
    assert(digest@.take(digest@.len() as int) =~= digest@);
    r
}

// ---- incremental plans ----

/// An incremental publish: puts, then deletes.
#[derive(Debug, Clone)]
pub struct PublishPlan {
    /// Post payloads of every changed post, then the index.
    pub writes: Vec<KvWrite>,
    /// Post keys of removed posts.
    pub deletes: Vec<String>,
    /// The rewritten index, newest first.
    pub index: Vec<IndexEntry>,
    /// The listings and feeds, plus the pages of every post the plan
    /// touches and of every tag those posts carry before or after; sorted,
    /// each once.
    pub purge: Vec<String>,
}

/// Whether a plan rewrites or removes the post at `slug`.
pub open spec fn replaced(slug: Seq<char>, changed: Seq<ParsedPost>, removed: Seq<String>) -> bool {
    (exists|i: int| 0 <= i < removed.len() && (#[trigger] removed[i])@ == slug)
        || (exists|i: int| 0 <= i < changed.len() && (#[trigger] changed[i]).slug@ == slug)
}

/// The previous entries a plan keeps, in order.
pub open spec fn kept(prev: Seq<IndexEntry>, changed: Seq<ParsedPost>, removed: Seq<String>) -> Seq<IndexEntry>
    decreases prev.len(),
{
    if prev.len() == 0 {
        Seq::empty()
    } else {
        let k = kept(prev.drop_last(), changed, removed);
        if replaced(prev.last().slug@, changed, removed) {
            k
        } else {
            k.push(prev.last())
        }
    }
}

/// The previous entries a plan touches.
pub open spec fn touched(prev: Seq<IndexEntry>, changed: Seq<ParsedPost>, removed: Seq<String>) -> Seq<IndexEntry>
    decreases prev.len(),
{
    if prev.len() == 0 {
        Seq::empty()
    } else {
        let k = touched(prev.drop_last(), changed, removed);
        if replaced(prev.last().slug@, changed, removed) {
            k.push(prev.last())
        } else {
            k
        }
    }
}

/// What an incremental plan purges: listings and feeds, every changed
/// post's page and tag pages, the touched previous entries' pages and tag
/// pages, and removed posts' pages.
pub open spec fn plan_purge_set(prev: Seq<IndexEntry>, changed: Seq<ParsedPost>, removed: Seq<String>) -> Set<Seq<char>> {
    fixed_urls().union(posts_urls(changed)).union(index_urls(touched(prev, changed, removed)))
        .union(views(removed).map_values(|s: Seq<char>| spec_post_path(s)).to_set())
}

fn is_replaced(slug: &str, changed: &[ParsedPost], removed: &[String]) -> (r: bool)
    ensures
        r == replaced(slug@, changed@, removed@),
{
    let mut i: usize = 0;
    while i < removed.len()
        invariant
            i <= removed@.len(),
            forall|j: int| 0 <= j < i ==> (#[trigger] removed@[j])@ != slug@,
        decreases removed@.len() - i,
    {
        if crate::text::text_eq(&removed[i], slug) {
            return true;
        }
        i += 1;
    }
    let mut i: usize = 0;
    while i < changed.len()
        invariant
            i <= changed@.len(),
            forall|j: int| 0 <= j < removed@.len() ==> (#[trigger] removed@[j])@ != slug@,
            forall|j: int| 0 <= j < i ==> (#[trigger] changed@[j]).slug@ != slug@,
        decreases changed@.len() - i,
    {
        if crate::text::text_eq(&changed[i].slug, slug) {
            return true;
        }
        i += 1;
    }
    false
}

/// Merges changed and removed posts into the previous index and lays out
/// the KV writes: each changed post's payload under its post key, then the
/// index (the kept previous entries plus the changed posts, newest first);
/// removed posts' keys are deleted.
pub fn plan(prev_index: Vec<IndexEntry>, changed: &[ParsedPost], removed: &[String]) -> (r: Result<PublishPlan, AstError>)
    ensures
        r matches Ok(p) && {
            &&& p.writes@.len() == changed@.len() + 1
            &&& forall|i: int| 0 <= i < changed@.len() ==> {
                &&& (#[trigger] p.writes@[i]).key@ == crate::content::routes::spec_post_key(changed@[i].slug@)
                &&& p.writes@[i].value@ == json_document(changed@[i].document)
            }
            &&& p.writes@[changed@.len() as int].key@ == crate::content::INDEX_KEY@
            &&& p.writes@[changed@.len() as int].value@ == json_index(p.index@)
            &&& views(p.deletes@) == views(removed@).map_values(|s: Seq<char>| crate::content::routes::spec_post_key(s))
            &&& p.index@.map_values(|x: IndexEntry| entry_key(x))
                == listed(kept(prev_index@, changed@, removed@).map_values(|x: IndexEntry| entry_key(x))
                    + changed@.map_values(|q: ParsedPost| post_key(q)))
            &&& newest_first(p.index@)
            &&& p.index@.map_values(|x: IndexEntry| entry_key(x)).to_multiset()
                == (kept(prev_index@, changed@, removed@).map_values(|x: IndexEntry| entry_key(x))
                    + changed@.map_values(|q: ParsedPost| post_key(q))).to_multiset()
            &&& strictly_sorted(views(p.purge@))
            &&& views(p.purge@) == sorted_list(plan_purge_set(prev_index@, changed@, removed@))
        },
{
    let ghost prev = prev_index@;
    let mut purge = fixed_url_set();
    let mut index: Vec<IndexEntry> = Vec::new();
    let mut rest = prev_index;
    let mut back: Vec<IndexEntry> = Vec::new();
    while rest.len() > 0
        invariant
            back@.len() + rest@.len() == prev.len(),
            forall|k: int| 0 <= k < rest@.len() ==> rest@[k] == prev[k],
            forall|k: int| 0 <= k < back@.len() ==> back@[k] == prev[prev.len() - 1 - k],
        decreases rest@.len(),
    {
        let e = rest.pop().unwrap();
        back.push(e);
    }
    assert(index@.map_values(|x: IndexEntry| entry_key(x)) =~= Seq::empty());
    let mut j: usize = 0;
    let total = back.len();
    while back.len() > 0
        invariant
            j == prev.len() - back@.len(),
            prev.len() == total,
            forall|k: int| 0 <= k < back@.len() ==> back@[k] == prev[prev.len() - 1 - k],
            newest_first(index@),
            index@.map_values(|x: IndexEntry| entry_key(x))
                == listed(kept(prev.take(j as int), changed@, removed@).map_values(|x: IndexEntry| entry_key(x))),
            index@.map_values(|x: IndexEntry| entry_key(x)).to_multiset()
                == kept(prev.take(j as int), changed@, removed@).map_values(|x: IndexEntry| entry_key(x)).to_multiset(),
            strictly_sorted(views(purge@)),
            views(purge@).to_set() == fixed_urls().union(index_urls(touched(prev.take(j as int), changed@, removed@))),
        decreases back@.len(),
    {
        let e = back.pop().unwrap();
        assert(e == prev[j as int]);
        assert(prev.take(j + 1).drop_last() =~= prev.take(j as int));
        let ghost kb = kept(prev.take(j as int), changed@, removed@).map_values(|x: IndexEntry| entry_key(x));
        let ghost tb = touched(prev.take(j as int), changed@, removed@);
        if is_replaced(&e.slug, changed, removed) {
            add_urls(&mut purge, &e.slug, &e.tags);
            assert(tb.push(e).drop_last() =~= tb);
            assert(views(purge@).to_set() =~= fixed_urls().union(index_urls(touched(prev.take(j + 1), changed@, removed@))));
        } else {
            assert(kept(prev.take(j + 1), changed@, removed@).map_values(|x: IndexEntry| entry_key(x)) =~= kb.push(entry_key(e)));
            proof {
                vstd::seq_lib::to_multiset_build(kb, entry_key(e));
                assert(kb.push(entry_key(e)).drop_last() =~= kb);
            }
            insert_entry(&mut index, e);
        }
        j += 1;
    }
    assert(prev.take(prev.len() as int) =~= prev);
    let ghost kk = kept(prev, changed@, removed@).map_values(|x: IndexEntry| entry_key(x));
    let mut writes: Vec<KvWrite> = Vec::new();
    let mut i: usize = 0;
    assert(kk + changed@.take(0).map_values(|q: ParsedPost| post_key(q)) =~= kk);
    while i < changed.len()
        invariant
            i <= changed@.len(),
            newest_first(index@),
            index@.map_values(|x: IndexEntry| entry_key(x))
                == listed(kk + changed@.take(i as int).map_values(|q: ParsedPost| post_key(q))),
            index@.map_values(|x: IndexEntry| entry_key(x)).to_multiset()
                == (kk + changed@.take(i as int).map_values(|q: ParsedPost| post_key(q))).to_multiset(),
            writes@.len() == i,
            forall|k: int| 0 <= k < i ==> {
                &&& (#[trigger] writes@[k]).key@ == crate::content::routes::spec_post_key(changed@[k].slug@)
                &&& writes@[k].value@ == json_document(changed@[k].document)
            },
            strictly_sorted(views(purge@)),
            views(purge@).to_set() == fixed_urls().union(index_urls(touched(prev, changed@, removed@)))
                .union(posts_urls(changed@.take(i as int))),
        decreases changed@.len() - i,
    {
        let post = &changed[i];
        assert(changed@.take(i + 1).drop_last() =~= changed@.take(i as int));
        let ghost before = kk + changed@.take(i as int).map_values(|q: ParsedPost| post_key(q));
        assert(kk + changed@.take(i + 1).map_values(|q: ParsedPost| post_key(q)) =~= before.push(post_key(*post)));
        let entry = IndexEntry::new(&post.slug, &post.document.frontmatter);
        assert(entry_key(entry) == post_key(*post));
        proof {
            vstd::seq_lib::to_multiset_build(before, post_key(*post));
            assert(before.push(post_key(*post)).drop_last() =~= before);
        }
        insert_entry(&mut index, entry);
        add_urls(&mut purge, &post.slug, &post.document.frontmatter.tags);
        assert(views(purge@).to_set() =~= fixed_urls().union(index_urls(touched(prev, changed@, removed@)))
            .union(posts_urls(changed@.take(i + 1))));
        writes.push(KvWrite { key: crate::content::post_key(&post.slug), value: post.document.to_json() });
        i += 1;
    }
    assert(changed@.take(changed@.len() as int) =~= changed@);
    writes.push(KvWrite { key: owned(crate::content::INDEX_KEY), value: index_json(&index) });
    let mut deletes: Vec<String> = Vec::new();
    let ghost rv = views(removed@).map_values(|s: Seq<char>| spec_post_path(s));
    let ghost pre_removed = views(purge@).to_set();
    let mut i: usize = 0;
    assert(rv.take(0).to_set() =~= Set::<Seq<char>>::empty());
    while i < removed.len()
        invariant
            i <= removed@.len(),
            rv == views(removed@).map_values(|s: Seq<char>| spec_post_path(s)),
            views(deletes@) == views(removed@).take(i as int).map_values(|s: Seq<char>| crate::content::routes::spec_post_key(s)),
            strictly_sorted(views(purge@)),
            views(purge@).to_set() == pre_removed.union(rv.take(i as int).to_set()),
        decreases removed@.len() - i,
    {
        proof {
            lemma_push_to_set(rv.take(i as int), rv[i as int]);
            assert(rv.take(i + 1) =~= rv.take(i as int).push(rv[i as int]));
        }
        insert_sorted(&mut purge, post_path(&removed[i]));
        let ghost d0 = deletes@;
        let k = crate::content::post_key(&removed[i]);
        deletes.push(k);
        assert(views(deletes@) =~= views(d0).push(k@));
        assert(views(removed@).take(i + 1).map_values(|s: Seq<char>| crate::content::routes::spec_post_key(s))
            =~= views(removed@).take(i as int).map_values(|s: Seq<char>| crate::content::routes::spec_post_key(s)).push(crate::content::routes::spec_post_key(removed@[i as int]@)));
        i += 1;
    }
    assert(views(removed@).take(removed@.len() as int) =~= views(removed@));
    assert(rv.take(removed@.len() as int) =~= rv);
    proof {
        assert(views(purge@).to_set() =~= plan_purge_set(prev, changed@, removed@));
        crate::sorted::lemma_sorted_list_of(views(purge@));
    }
    Ok(PublishPlan { writes, deletes, index, purge })
}


/// Every entry of a snapshot's index names a post whose payload the same
/// snapshot writes: a checked post or a carried one. Posts land before the
/// index, so a published index never names a missing payload.
pub proof fn law_snapshot_index_names_written_posts(
    posts: Seq<ParsedPost>,
    carried: Seq<CarriedPost>,
    index: Seq<IndexEntry>,
    k: int,
)
    requires
        index.map_values(|x: IndexEntry| entry_key(x)).to_multiset() == snapshot_keys(posts, carried).to_multiset(),
        0 <= k < index.len(),
    ensures
        (exists|i: int| 0 <= i < posts.len() && (#[trigger] posts[i]).slug@ == index[k].slug@)
            || (exists|j: int| 0 <= j < carried.len() && (#[trigger] carried[j]).entry.slug@ == index[k].slug@),
{
    broadcast use vstd::seq_lib::group_to_multiset_ensures;

    let keys = index.map_values(|x: IndexEntry| entry_key(x));
    let all = snapshot_keys(posts, carried);
    let e = keys[k];
    assert(keys.contains(e));
    assert(keys.to_multiset().count(e) > 0);
    assert(all.to_multiset().count(e) > 0);
    assert(all.contains(e));
    let m = choose|m: int| 0 <= m < all.len() && all[m] == e;
    if m < posts.len() {
        assert(all[m] == post_key(posts[m]));
        assert(posts[m].slug@ == index[k].slug@);
    } else {
        let j = m - posts.len();
        assert(all[m] == entry_key(carried[j].entry));
        assert(carried[j].entry.slug@ == index[k].slug@);
    }
}

proof fn lemma_index_urls_cover(s: Seq<IndexEntry>, k: int)
    requires
        0 <= k < s.len(),
    ensures
        index_urls(s).contains(spec_post_path(s[k].slug@)),
        forall|t: int| 0 <= t < s[k].tags@.len() ==> index_urls(s).contains(spec_tag_path(#[trigger] s[k].tags@[t]@)),
    decreases s.len(),
{
    if k < s.len() - 1 {
        lemma_index_urls_cover(s.drop_last(), k);
    } else {
        let tv = views(s[k].tags@).map_values(|t: Seq<char>| spec_tag_path(t));
        assert forall|t: int| 0 <= t < s[k].tags@.len() implies index_urls(s).contains(spec_tag_path(#[trigger] s[k].tags@[t]@)) by {
            assert(tv[t] == spec_tag_path(s[k].tags@[t]@));
            assert(tv.to_set().contains(tv[t]));
        }
    }
}

proof fn lemma_posts_urls_cover(s: Seq<ParsedPost>, k: int)
    requires
        0 <= k < s.len(),
    ensures
        posts_urls(s).contains(spec_post_path(s[k].slug@)),
        forall|t: int| 0 <= t < s[k].document.frontmatter.tags@.len()
            ==> posts_urls(s).contains(spec_tag_path(#[trigger] s[k].document.frontmatter.tags@[t]@)),
    decreases s.len(),
{
    if k < s.len() - 1 {
        lemma_posts_urls_cover(s.drop_last(), k);
    } else {
        let tags = s[k].document.frontmatter.tags@;
        let tv = views(tags).map_values(|t: Seq<char>| spec_tag_path(t));
        assert forall|t: int| 0 <= t < tags.len() implies posts_urls(s).contains(spec_tag_path(#[trigger] tags[t]@)) by {
            assert(tv[t] == spec_tag_path(tags[t]@));
            assert(tv.to_set().contains(tv[t]));
        }
    }
}

/// A rebuild purges every page either index lists: each post page and tag
/// page of the previous index and of every checked post, and the listings
/// and feeds.
pub proof fn law_rebuild_purges_both_indexes(prev: Seq<IndexEntry>, posts: Seq<ParsedPost>, carried: Seq<CarriedPost>)
    ensures
        fixed_urls().subset_of(purge_set(prev, posts, carried)),
        forall|k: int| 0 <= k < prev.len() ==> purge_set(prev, posts, carried).contains(spec_post_path(#[trigger] prev[k].slug@)),
        forall|k: int, t: int| 0 <= k < prev.len() && 0 <= t < prev[k].tags@.len()
            ==> purge_set(prev, posts, carried).contains(spec_tag_path(#[trigger] prev[k].tags@[t]@)),
        forall|k: int| 0 <= k < posts.len() ==> purge_set(prev, posts, carried).contains(spec_post_path(#[trigger] posts[k].slug@)),
        forall|k: int, t: int| 0 <= k < posts.len() && 0 <= t < posts[k].document.frontmatter.tags@.len()
            ==> purge_set(prev, posts, carried).contains(spec_tag_path(#[trigger] posts[k].document.frontmatter.tags@[t]@)),
{
    assert forall|k: int| 0 <= k < prev.len() implies purge_set(prev, posts, carried).contains(spec_post_path(#[trigger] prev[k].slug@)) by {
        lemma_index_urls_cover(prev, k);
    }
    assert forall|k: int, t: int| 0 <= k < prev.len() && 0 <= t < prev[k].tags@.len()
        implies purge_set(prev, posts, carried).contains(spec_tag_path(#[trigger] prev[k].tags@[t]@)) by {
        lemma_index_urls_cover(prev, k);
    }
    assert forall|k: int| 0 <= k < posts.len() implies purge_set(prev, posts, carried).contains(spec_post_path(#[trigger] posts[k].slug@)) by {
        lemma_posts_urls_cover(posts, k);
    }
    assert forall|k: int, t: int| 0 <= k < posts.len() && 0 <= t < posts[k].document.frontmatter.tags@.len()
        implies purge_set(prev, posts, carried).contains(spec_tag_path(#[trigger] posts[k].document.frontmatter.tags@[t]@)) by {
        lemma_posts_urls_cover(posts, k);
    }
}

proof fn lemma_kept_members(prev: Seq<IndexEntry>, changed: Seq<ParsedPost>, removed: Seq<String>, k: int)
    requires
        0 <= k < kept(prev, changed, removed).len(),
    ensures
        !replaced(kept(prev, changed, removed)[k].slug@, changed, removed),
    decreases prev.len(),
{
    if prev.len() > 0 {
        let rest = kept(prev.drop_last(), changed, removed);
        if k < rest.len() {
            lemma_kept_members(prev.drop_last(), changed, removed, k);
        }
    }
}

/// A plan unlists what it removes: no entry of the new index has a removed
/// slug, unless the same plan publishes that slug again.
pub proof fn law_plan_unlists_removed(
    prev: Seq<IndexEntry>,
    changed: Seq<ParsedPost>,
    removed: Seq<String>,
    index: Seq<IndexEntry>,
    slug: Seq<char>,
)
    requires
        index.map_values(|x: IndexEntry| entry_key(x)).to_multiset()
            == (kept(prev, changed, removed).map_values(|x: IndexEntry| entry_key(x))
                + changed.map_values(|q: ParsedPost| post_key(q))).to_multiset(),
        exists|i: int| 0 <= i < removed.len() && (#[trigger] removed[i])@ == slug,
        forall|i: int| 0 <= i < changed.len() ==> (#[trigger] changed[i]).slug@ != slug,
    ensures
        forall|k: int| 0 <= k < index.len() ==> (#[trigger] index[k]).slug@ != slug,
{
    broadcast use vstd::seq_lib::group_to_multiset_ensures;

    let keys = index.map_values(|x: IndexEntry| entry_key(x));
    let ks = kept(prev, changed, removed);
    let all = ks.map_values(|x: IndexEntry| entry_key(x)) + changed.map_values(|q: ParsedPost| post_key(q));
    assert forall|k: int| 0 <= k < index.len() implies (#[trigger] index[k]).slug@ != slug by {
        let e = keys[k];
        assert(keys.contains(e));
        assert(keys.to_multiset().count(e) > 0);
        assert(all.contains(e));
        let m = choose|m: int| 0 <= m < all.len() && all[m] == e;
        if m < ks.len() {
            lemma_kept_members(prev, changed, removed, m);
            assert(all[m] == entry_key(ks[m]));
        } else {
            assert(all[m] == post_key(changed[m - ks.len()]));
        }
    }
}

/// A date is ISO exactly when it is ten characters: digits, with `-` at
/// positions 4 and 7 and nowhere else; so no date holding `/`, a space or
/// any other separator passes.
pub proof fn law_iso_dates_are_digits_and_dashes(d: Seq<char>)
    ensures
        iso_date(d) <==> (d.len() == 10 && d[4] == '-' && d[7] == '-'
            && forall|i: int| 0 <= i < 10 && i != 4 && i != 7 ==> '0' <= #[trigger] d[i] && d[i] <= '9'),
        iso_date(d) ==> !d.contains('/') && !d.contains(' '),
{
    if iso_date(d) {
        assert(d[4] == '-');
        assert(d[7] == '-');
        if d.contains('/') {
            let k = choose|k: int| 0 <= k < d.len() && d[k] == '/';
            assert(d[k] == '/');
        }
        if d.contains(' ') {
            let k = choose|k: int| 0 <= k < d.len() && d[k] == ' ';
            assert(d[k] == ' ');
        }
    }
    if d.len() == 10 && d[4] == '-' && d[7] == '-'
        && forall|i: int| 0 <= i < 10 && i != 4 && i != 7 ==> '0' <= #[trigger] d[i] && d[i] <= '9' {
        assert forall|i: int| 0 <= i < 10 implies if i == 4 || i == 7 {
            #[trigger] d[i] == '-'
        } else {
            '0' <= d[i] && d[i] <= '9'
        } by {}
    }
}

/// A post passes vetting only with an ISO date: ten characters, digits
/// with `-` at positions 4 and 7.
pub proof fn law_vetted_posts_have_iso_dates(post: PostSource, parsed: Result<Document, Vec<Diagnostic>>, r: Result<ParsedPost, Vec<Diagnostic>>)
    requires
        vetted(post, parsed, r),
        r is Ok,
    ensures
        ({
            let d = r->Ok_0.document.frontmatter.date@;
            &&& d.len() == 10 && d[4] == '-' && d[7] == '-'
            &&& forall|i: int| 0 <= i < 10 && i != 4 && i != 7 ==> '0' <= #[trigger] d[i] && d[i] <= '9'
        }),
{
    let p = r->Ok_0;
    let doc = p.document;
    let d = doc.frontmatter.date@;
    assert(vet_diags(post, parsed).len() == 0);
    assert(parsed == Ok::<Document, Vec<Diagnostic>>(doc));
    let slug_part: Seq<(Option<Seq<char>>, Seq<char>, Option<usize>, Option<usize>)> =
        if spec_valid_slug(post.slug@) { Seq::empty() } else { seq![file_diag(post.file@, slug_message(post.slug@))] };
    assert(vet_diags(post, parsed) == slug_part + document_diags(post.file@, doc));
    assert(document_diags(post.file@, doc).len() == 0);
    if !iso_date(d) {
        assert(document_diags(post.file@, doc)[0] == file_diag(post.file@, date_message(d)));
    }
    law_iso_dates_are_digits_and_dashes(d);
}

} // verus!

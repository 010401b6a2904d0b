//! The authoring tools' decisions: flag parsing, the index capture rules,
//! which posts a publish selects and removes, and the report lines. Files,
//! environment and HTTP stay with the binaries.
use vstd::prelude::*;

use crate::content::parse::{diag_view, diags_view};
use crate::content::strmap::{assoc_get, assoc_insert, keys_sorted};
use crate::content::{rendered_diagnostic, Diagnostic, IndexEntry, StrMap};
use crate::publish::{ParsedPost, PostSource};
use crate::sorted::views;
use crate::text::{
    chars_of, compare_text, concat, concat3, has_prefix, owned, push_text, starts_with, text_eq, trim,
    trim_chars, usize_digits, usize_text,
};

verus! {

/// What wrangler's `kv key get` prints when the key does not exist.
pub const WRANGLER_VALUE_NOT_FOUND: &'static str = "Value not found";

/// The scripts' usage text.
pub const USAGE: &'static str = "usage:\n  xtask check [--content-dir DIR]\n  xtask plan --sha LABEL [--content-dir DIR] --out DIR\n  xtask ast FILE.mdx";

/// Whether a captured index stands for "nothing published yet": empty
/// output, or wrangler's exact not-found message.
pub open spec fn first_publish(raw: Seq<char>) -> bool {
    trim(raw).len() == 0 || trim(raw) == WRANGLER_VALUE_NOT_FOUND@
}

/// What an index captured from KV holds: `None` for no index yet (empty
/// output, or wrangler's `Value not found`); else the trimmed capture,
/// which must then read as the index's JSON array, so that a garbled
/// capture never plans a listing from scratch.
pub fn index_capture(raw: &str) -> (r: Option<String>)
    ensures
        first_publish(raw@) ==> r is None,
        !first_publish(raw@) ==> (r matches Some(t) && t@ == trim(raw@)),
{
    let c = chars_of(raw);
    let t = trim_chars(&c);
    let nf = chars_of(WRANGLER_VALUE_NOT_FOUND);
    if t.len() == 0 || crate::text::seq_eq(&t, &nf) {
        return None;
    }
    Some(crate::text::string_of(&t))
}

/// `--flag VALUE` pairs from `args[i..]` into `acc`: an unknown flag, or a
/// flag without a value (or followed by another flag), is an error; a
/// repeated flag keeps its last value.
pub open spec fn flags_from(args: Seq<Seq<char>>, known: Seq<Seq<char>>, i: nat, acc: Seq<(Seq<char>, Seq<char>)>)
    -> Result<Seq<(Seq<char>, Seq<char>)>, Seq<char>>
    decreases args.len() - i,
{
    if i >= args.len() {
        Ok(acc)
    } else if !known.contains(args[i as int]) {
        Err("unrecognized argument `"@ + args[i as int] + "`\n"@ + USAGE@)
    } else if i + 1 >= args.len() || has_prefix(args[(i + 1) as int], "--"@) {
        Err(args[i as int] + " needs a value"@)
    } else {
        flags_from(args, known, i + 2, assoc_insert(acc, args[i as int], args[(i + 1) as int]))
    }
}

/// The value of the last `key VALUE` pair from `args[i..]`, else `prev`.
pub open spec fn last_value(args: Seq<Seq<char>>, key: Seq<char>, i: nat, prev: Option<Seq<char>>) -> Option<Seq<char>>
    decreases args.len() - i,
{
    if i + 1 >= args.len() {
        prev
    } else {
        last_value(args, key, i + 2, if args[i as int] == key { Some(args[(i + 1) as int]) } else { prev })
    }
}

/// A repeated flag keeps its last value: whatever flags parse, each one
/// maps to the value that follows its last occurrence.
pub proof fn law_last_flag_wins(args: Seq<Seq<char>>, known: Seq<Seq<char>>, i: nat,
    acc: Seq<(Seq<char>, Seq<char>)>, key: Seq<char>)
    requires
        flags_from(args, known, i, acc) is Ok,
    ensures
        assoc_get(flags_from(args, known, i, acc)->Ok_0, key) == last_value(args, key, i, assoc_get(acc, key)),
    decreases args.len() - i,
{
    if i < args.len() {
        let next = assoc_insert(acc, args[i as int], args[(i + 1) as int]);
        crate::content::strmap::law_get_after_insert(acc, args[i as int], args[(i + 1) as int], key);
        law_last_flag_wins(args, known, i + 2, next, key);
    }
}

pub open spec fn strs(v: Seq<&str>) -> Seq<Seq<char>> {
    v.map_values(|s: &str| s@)
}

/// Parses `--flag VALUE` pairs against the known flags; a typo'd flag is an
/// error rather than a silent default.
pub fn parse_flags(args: &[String], known: &[&str]) -> (r: Result<StrMap<String>, String>)
    ensures
        match flags_from(views(args@), strs(known@), 0, Seq::empty()) {
            Ok(m) => r matches Ok(f) && crate::content::map_entries(f@, |v: String| crate::content::string_view(v)) == m,
            Err(e) => r matches Err(x) && x@ == e,
        },
{
    let ghost av = views(args@);
    let ghost kv = strs(known@);
    let mut flags: StrMap<String> = StrMap::new();
    let mut i: usize = 0;
    proof {
        assert(crate::content::map_entries(flags@, |v: String| crate::content::string_view(v)) =~= Seq::empty());
    }
    while i < args.len()
        invariant
            av == views(args@),
            kv == strs(known@),
            i <= args@.len() + 1,
            flags.wf(),
            flags_from(av, kv, 0, Seq::empty()) == flags_from(av, kv, i as nat,
                crate::content::map_entries(flags@, |v: String| crate::content::string_view(v))),
        decreases args@.len() + 1 - i,
    {
        let flag = &args[i];
        let mut found = false;
        let mut k: usize = 0;
        while k < known.len()
            invariant
                k <= known@.len(),
                kv == strs(known@),
                found <==> exists|j: int| 0 <= j < k && kv[j] == flag@,
            decreases known@.len() - k,
        {
            assert(kv[k as int] == known@[k as int]@);
            if text_eq(flag, known[k]) {
                found = true;
            }
            k += 1;
        }
        assert(found <==> kv.contains(av[i as int])) by {
            assert(av[i as int] == flag@);
            if kv.contains(av[i as int]) {
                let j = choose|j: int| 0 <= j < kv.len() && kv[j] == av[i as int];
                assert(kv[j] == flag@);
            }
        }
        if !found {
            let mut m = concat3("unrecognized argument `", flag, "`\n");
            push_text(&mut m, USAGE);
            return Err(m);
        }
        if i + 1 >= args.len() {
            return Err(concat(flag, " needs a value"));
        }
        let value = &args[i + 1];
        let vc = chars_of(value);
        let dd = chars_of("--");
        assert(av[i + 1] == value@);
        if starts_with(&vc, &dd) {
            return Err(concat(flag, " needs a value"));
        }
        let v = value.clone();
        proof {
            crate::content::strmap::lemma_map_entries_insert(flags@, flag@, v, |v: String| crate::content::string_view(v));
        }
        flags.insert(flag.clone(), v);
        i += 2;
    }
    Ok(flags)
}

/// `n problem(s) found`.
pub open spec fn problems_line(n: nat) -> Seq<char> {
    usize_digits(n) + " problem"@ + (if n == 1 { ""@ } else { "s"@ }) + " found"@
}

/// Lines joined with newlines.
pub open spec fn lines(s: Seq<Seq<char>>) -> Seq<char>
    decreases s.len(),
{
    if s.len() == 0 {
        Seq::empty()
    } else if s.len() == 1 {
        s[0]
    } else {
        lines(s.drop_last()) + "\n"@ + s.last()
    }
}

/// Every diagnostic on its own line, then the count.
pub open spec fn diagnostics_report(diags: Seq<Diagnostic>) -> Seq<char> {
    lines(diags.map_values(|d: Diagnostic| rendered_diagnostic(d)).push(problems_line(diags.len())))
}

/// The report a failed check prints: each diagnostic, then how many.
pub fn render_diags(diags: &[Diagnostic]) -> (r: String)
    ensures
        r@ == diagnostics_report(diags@),
{
    let ghost ls = diags@.map_values(|d: Diagnostic| rendered_diagnostic(d));
    let mut r = String::new();
    let mut i: usize = 0;
    assert(ls.take(0) =~= Seq::<Seq<char>>::empty());
    while i < diags.len()
        invariant
            i <= diags@.len(),
            ls == diags@.map_values(|d: Diagnostic| rendered_diagnostic(d)),
            r@ == lines(ls.take(i as int)),
        decreases diags@.len() - i,
    {
        let line = diags[i].render();
        assert(ls.take(i + 1).drop_last() =~= ls.take(i as int));
        if i > 0 {
            push_text(&mut r, "\n");
        }
        push_text(&mut r, &line);
        i += 1;
    }
    assert(ls.take(diags@.len() as int) =~= ls);
    let n = diags.len();
    let mut last = usize_text(n);
    push_text(&mut last, " problem");
    if n != 1 {
        push_text(&mut last, "s");
    } else {
        push_text(&mut last, "");
    }
    push_text(&mut last, " found");
    let ghost all = ls.push(last@);
    assert(all.drop_last() =~= ls);
    if n > 0 {
        push_text(&mut r, "\n");
    }
    push_text(&mut r, &last);
    r
}

/// A tree check's outcome from the structural problems found while reading
/// the tree and the check of the posts that were read: publishable only
/// when both are clean; otherwise every problem, structural ones first.
pub fn tree_outcome(structural: Vec<Diagnostic>, checked: Result<Vec<ParsedPost>, Vec<Diagnostic>>)
    -> (r: Result<Vec<ParsedPost>, Vec<Diagnostic>>)
    ensures
        match checked {
            Ok(ps) => if structural@.len() == 0 {
                r matches Ok(x) && x@ == ps@
            } else {
                r matches Err(ds) && ds@ == structural@
            },
            Err(cs) => r matches Err(ds) && ds@ == structural@ + cs@,
        },
{
    match checked {
        Ok(ps) => {
            if structural.len() == 0 {
                Ok(ps)
            } else {
                Err(structural)
            }
        },
        Err(cs) => {
            let mut ds = structural;
            let mut cs = cs;
            ds.append(&mut cs);
            Err(ds)
        },
    }
}

/// Whether some post has `slug`.
pub open spec fn has_post(changed: Seq<ParsedPost>, slug: Seq<char>) -> bool {
    exists|i: int| 0 <= i < changed.len() && (#[trigger] changed[i]).slug@ == slug
}

/// The slugs of previous entries that no changed post replaces, in index
/// order: what a whole-tree publish prunes.
pub open spec fn pruned(prev: Seq<IndexEntry>, changed: Seq<ParsedPost>) -> Seq<Seq<char>>
    decreases prev.len(),
{
    if prev.len() == 0 {
        Seq::empty()
    } else {
        let rest = pruned(prev.drop_last(), changed);
        if has_post(changed, prev.last().slug@) {
            rest
        } else {
            rest.push(prev.last().slug@)
        }
    }
}

/// The previous entries a whole-tree publish removes: those whose post is
/// gone from the tree.
pub fn removed_slugs(prev: &[IndexEntry], changed: &[ParsedPost]) -> (r: Vec<String>)
    ensures
        views(r@) == pruned(prev@, changed@),
{
    let mut r: Vec<String> = Vec::new();
    let mut i: usize = 0;
    while i < prev.len()
        invariant
            i <= prev@.len(),
            views(r@) == pruned(prev@.take(i as int), changed@),
        decreases prev@.len() - i,
    {
        assert(prev@.take(i + 1).drop_last() =~= prev@.take(i as int));
        let slug = &prev[i].slug;
        let mut found = false;
        let mut k: usize = 0;
        while k < changed.len()
            invariant
                k <= changed@.len(),
                found <==> exists|j: int| 0 <= j < k && (#[trigger] changed@[j]).slug@ == slug@,
            decreases changed@.len() - k,
        {
            if text_eq(&changed[k].slug, slug) {
                found = true;
            }
            k += 1;
        }
        if !found {
            let ghost r0 = r@;
            r.push(slug.clone());
            assert(views(r@) =~= views(r0).push(slug@));
        }
        i += 1;
    }
    assert(prev@.take(prev@.len() as int) =~= prev@);
    r
}

/// Items joined with `, `.
pub open spec fn comma_list(s: Seq<Seq<char>>) -> Seq<char>
    decreases s.len(),
{
    if s.len() == 0 {
        Seq::empty()
    } else if s.len() == 1 {
        s[0]
    } else {
        comma_list(s.drop_last()) + ", "@ + s.last()
    }
}

/// The report of a local publish.
pub open spec fn publish_report(published: Seq<Seq<char>>, index_len: nat, removed: Seq<Seq<char>>) -> Seq<char> {
    "published "@ + comma_list(published) + " (index: "@ + usize_digits(index_len) + " entries"@
        + (if removed.len() == 0 { ""@ } else { ", removed "@ + comma_list(removed) }) + ")"@
}

fn join_comma(items: &Vec<String>) -> (r: String)
    ensures
        r@ == comma_list(views(items@)),
{
    let ghost v = views(items@);
    let mut r = String::new();
    let mut i: usize = 0;
    assert(v.take(0) =~= Seq::<Seq<char>>::empty());
    while i < items.len()
        invariant
            i <= items@.len(),
            v == views(items@),
            r@ == comma_list(v.take(i as int)),
        decreases items@.len() - i,
    {
        assert(v.take(i + 1).drop_last() =~= v.take(i as int));
        if i > 0 {
            push_text(&mut r, ", ");
        }
        push_text(&mut r, &items[i]);
        i += 1;
    }
    assert(v.take(items@.len() as int) =~= v);
    r
}

/// The slugs of the posts, in order.
pub open spec fn slugs_of(posts: Seq<ParsedPost>) -> Seq<Seq<char>> {
    posts.map_values(|p: ParsedPost| p.slug@)
}

/// `published a, b (index: N entries, removed c)`.
pub fn publish_summary(changed: &[ParsedPost], index_len: usize, removed: &Vec<String>) -> (r: String)
    ensures
        r@ == publish_report(slugs_of(changed@), index_len as nat, views(removed@)),
{
    let mut published: Vec<String> = Vec::new();
    let mut i: usize = 0;
    while i < changed.len()
        invariant
            i <= changed@.len(),
            views(published@) == slugs_of(changed@.take(i as int)),
        decreases changed@.len() - i,
    {
        let ghost p0 = published@;
        published.push(changed[i].slug.clone());
        assert(views(published@) =~= views(p0).push(changed@[i as int].slug@));
        assert(slugs_of(changed@.take(i + 1)) =~= slugs_of(changed@.take(i as int)).push(changed@[i as int].slug@));
        i += 1;
    }
    assert(changed@.take(changed@.len() as int) =~= changed@);
    let mut r = owned("published ");
    push_text(&mut r, &join_comma(&published));
    push_text(&mut r, " (index: ");
    push_text(&mut r, &usize_text(index_len));
    push_text(&mut r, " entries");
    if removed.len() == 0 {
        push_text(&mut r, "");
    } else {
        push_text(&mut r, ", removed ");
        push_text(&mut r, &join_comma(removed));
    }
    push_text(&mut r, ")");
    r
}

/// The position of the first source with `slug`.
pub open spec fn source_index(sources: Seq<PostSource>, slug: Seq<char>) -> Option<int>
    decreases sources.len(),
{
    if sources.len() == 0 {
        None
    } else {
        match source_index(sources.drop_last(), slug) {
            Some(i) => Some(i),
            None => if sources.last().slug@ == slug {
                Some(sources.len() - 1)
            } else {
                None
            },
        }
    }
}

/// `p` is a copy of the first source with `slug`.
pub open spec fn picked(sources: Seq<PostSource>, slug: Seq<char>, p: PostSource) -> bool {
    source_index(sources, slug) matches Some(i) && 0 <= i < sources.len() && p.slug@ == sources[i].slug@
        && p.file@ == sources[i].file@ && p.source@ == sources[i].source@
}

/// The sources of the requested slugs, in request order; the first slug
/// with no source is an error naming where its file was looked for.
pub fn select_sources(sources: &[PostSource], slugs: &[String], content_dir: &str) -> (r: Result<Vec<PostSource>, String>)
    ensures
        match r {
            Ok(v) => v@.len() == slugs@.len() && forall|k: int| 0 <= k < v@.len() ==>
                picked(sources@, slugs@[k]@, #[trigger] v@[k]),
            Err(e) => exists|k: int| 0 <= k < slugs@.len() && source_index(sources@, (#[trigger] slugs@[k])@) is None
                && e@ == "no post at "@ + content_dir@ + "/"@ + slugs@[k]@ + "/index.mdx"@,
        },
{
    let mut out: Vec<PostSource> = Vec::new();
    let mut k: usize = 0;
    while k < slugs.len()
        invariant
            k <= slugs@.len(),
            out@.len() == k,
            forall|j: int| 0 <= j < k ==> picked(sources@, slugs@[j]@, #[trigger] out@[j]),
        decreases slugs@.len() - k,
    {
        let slug = &slugs[k];
        let mut found: Option<usize> = None;
        let mut i: usize = 0;
        while i < sources.len() && found.is_none()
            invariant
                i <= sources@.len(),
                found is None ==> source_index(sources@.take(i as int), slug@) is None,
                found matches Some(f) ==> source_index(sources@, slug@) == Some(f as int) && f < sources@.len(),
            decreases sources@.len() - i,
        {
            assert(sources@.take(i + 1).drop_last() =~= sources@.take(i as int));
            if text_eq(&sources[i].slug, slug) {
                proof {
                    lemma_source_index_prefix(sources@, slug@, i as int);
                }
                found = Some(i);
            }
            i += 1;
        }
        match found {
            None => {
                assert(sources@.take(sources@.len() as int) =~= sources@);
                let mut e = concat3("no post at ", content_dir, "/");
                push_text(&mut e, slug);
                push_text(&mut e, "/index.mdx");
                return Err(e);
            },
            Some(f) => {
                let s = &sources[f];
                let ghost o0 = out@;
                out.push(PostSource { slug: s.slug.clone(), file: s.file.clone(), source: s.source.clone() });
                assert(picked(sources@, slugs@[k as int]@, out@[k as int]));
                assert forall|j: int| 0 <= j < k + 1 implies picked(sources@, slugs@[j]@, #[trigger] out@[j]) by {
                    if j < k {
                        assert(out@[j] == o0[j]);
                    }
                }
            },
        }
        k += 1;
    }
    Ok(out)
}

proof fn lemma_source_index_prefix(sources: Seq<PostSource>, slug: Seq<char>, i: int)
    requires
        0 <= i < sources.len(),
        source_index(sources.take(i), slug) is None,
        sources[i].slug@ == slug,
    ensures
        source_index(sources, slug) == Some(i),
    decreases sources.len(),
{
    assert(sources.take(i + 1).drop_last() =~= sources.take(i));
    if i + 1 < sources.len() {
        assert(sources.drop_last().take(i) =~= sources.take(i));
        lemma_source_index_prefix(sources.drop_last(), slug, i);
    } else {
        assert(sources.take(i + 1) =~= sources);
    }
}

/// Where the authoring tools publish: one Cloudflare KV namespace.
pub struct KvClient {
    /// `…/accounts/{account}/storage/kv/namespaces/{namespace}`.
    pub base: String,
    pub token: String,
}

/// Where to find the scoped-token setup.
pub const KV_SETUP_HINT: &'static str = "see docs/guides/publishing.md for the scoped-token setup";

impl KvClient {
    /// The client for one account's namespace.
    pub fn new(account: &str, namespace: &str, token: String) -> (r: Self)
        ensures
            r.base@ == "https://api.cloudflare.com/client/v4/accounts/"@ + account@ + "/storage/kv/namespaces/"@ + namespace@,
            r.token == token,
    {
        let mut base = concat3("https://api.cloudflare.com/client/v4/accounts/", account, "/storage/kv/namespaces/");
        push_text(&mut base, namespace);
        KvClient { base, token }
    }

    /// The `Authorization` header value.
    pub fn bearer(&self) -> (r: String)
        ensures
            r@ == "Bearer "@ + self.token@,
    {
        concat("Bearer ", &self.token)
    }
}

/// What the KV API's status for reading the index means: 404 is an empty
/// index (nothing published yet), 200 a body that must read as the index,
/// anything else aborts before a write happens.
pub fn index_status(status: u16) -> (r: Result<bool, String>)
    ensures
        status == 404 ==> r == Ok::<bool, String>(false),
        status == 200 ==> r == Ok::<bool, String>(true),
        status != 404 && status != 200 ==> (r matches Err(e) && e@ == "GET index: HTTP "@ + usize_digits(status as nat)),
{
    if status == 404 {
        Ok(false)
    } else if status == 200 {
        Ok(true)
    } else {
        Err(concat("GET index: HTTP ", &usize_text(status as usize)))
    }
}

/// A bulk request's outcome: Cloudflare answers 200 with `success: false`
/// when part of a bulk fails, so only an explicit success counts.
pub fn bulk_result(what: &str, succeeded: bool, outcome: &str) -> (r: Result<(), String>)
    ensures
        succeeded ==> r is Ok,
        !succeeded ==> (r matches Err(e) && e@ == what@ + ": Cloudflare reported failure: "@ + outcome@),
{
    if succeeded {
        Ok(())
    } else {
        let mut e = concat(what, ": Cloudflare reported failure: ");
        push_text(&mut e, outcome);
        Err(e)
    }
}

/// The body of a bulk delete: the keys as a JSON array of strings.
pub fn bulk_delete_body(keys: &Vec<String>) -> (r: String)
    ensures
        r@ == crate::content::json::json_string_list(views(keys@)),
{
    let mut out = String::new();
    crate::content::json::write_string_list(&mut out, keys);
    assert(keys@.map_values(|t: String| t@) =~= views(keys@));
    out
}

/// `p` put into slug-sorted `sorted` after every source whose slug is not
/// greater: a stable insertion.
pub open spec fn insert_by_slug(sorted: Seq<PostSource>, p: PostSource) -> Seq<PostSource>
    decreases sorted.len(),
{
    if sorted.len() == 0 {
        seq![p]
    } else if crate::text::text_lt(p.slug@, sorted.last().slug@) {
        insert_by_slug(sorted.drop_last(), p).push(sorted.last())
    } else {
        sorted.push(p)
    }
}

/// The sources in slug order; sources with equal slugs keep their order.
pub open spec fn sort_by_slug(s: Seq<PostSource>) -> Seq<PostSource>
    decreases s.len(),
{
    if s.len() == 0 {
        Seq::empty()
    } else {
        insert_by_slug(sort_by_slug(s.drop_last()), s.last())
    }
}

proof fn lemma_insert_by_slug_at(sorted: Seq<PostSource>, p: PostSource, j: int)
    requires
        0 <= j <= sorted.len(),
        forall|k: int| j <= k < sorted.len() ==> crate::text::text_lt(p.slug@, #[trigger] sorted[k].slug@),
        j == 0 || !crate::text::text_lt(p.slug@, sorted[j - 1].slug@),
    ensures
        insert_by_slug(sorted, p) == sorted.insert(j, p),
    decreases sorted.len(),
{
    if sorted.len() == 0 {
        assert(sorted.insert(j, p) =~= seq![p]);
    } else if j == sorted.len() {
        assert(sorted.insert(j, p) =~= sorted.push(p));
    } else {
        lemma_insert_by_slug_at(sorted.drop_last(), p, j);
        assert(sorted.insert(j, p) =~= sorted.drop_last().insert(j, p).push(sorted.last()));
    }
}

/// The discovered sources in slug order, however the directory listing
/// came.
pub fn sort_sources(sources: Vec<PostSource>) -> (r: Vec<PostSource>)
    ensures
        r@ == sort_by_slug(sources@),
{
    let ghost all = sources@;
    let n = sources.len();
    let mut rest = sources;
    let mut out: Vec<PostSource> = Vec::new();
    let mut i: usize = 0;
    assert(all.skip(0) =~= all);
    while rest.len() > 0
        invariant
            all.len() == n,
            i <= all.len(),
            i + rest@.len() == all.len(),
            rest@ == all.skip(i as int),
            out@ == sort_by_slug(all.take(i as int)),
        decreases rest@.len(),
    {
        let ghost sorted = out@;
        let p = rest.remove(0);
        proof {
            assert(p == all[i as int]);
            assert(rest@ =~= all.skip(i + 1));
            assert(all.take(i + 1).drop_last() =~= all.take(i as int));
            assert(all.take(i + 1).last() == p);
        }
        let mut j: usize = out.len();
        while j > 0 && compare_text(&p.slug, &out[j - 1].slug) == crate::text::Order::Less
            invariant
                j <= out@.len(),
                sorted == out@,
                forall|k: int| j <= k < out@.len() ==> crate::text::text_lt(p.slug@, #[trigger] sorted[k].slug@),
            decreases j,
        {
            j -= 1;
        }
        proof {
            lemma_insert_by_slug_at(sorted, p, j as int);
        }
        out.insert(j, p);
        i += 1;
    }
    assert(all.take(all.len() as int) =~= all);
    out
}

/// What reading one post directory of the content tree found.
pub enum PostDir {
    /// Its `index.mdx`, read.
    Read(PostSource),
    /// A post directory without `index.mdx`, at this path.
    NoIndex(String),
    /// The `index.mdx` at this path, which could not be read, and why.
    Unreadable(String, String),
}

/// The sources read, in listing order.
pub open spec fn dir_sources(dirs: Seq<PostDir>) -> Seq<PostSource>
    decreases dirs.len(),
{
    if dirs.len() == 0 {
        Seq::empty()
    } else {
        let rest = dir_sources(dirs.drop_last());
        match dirs.last() {
            PostDir::Read(p) => rest.push(p),
            _ => rest,
        }
    }
}

/// The structural problems met, in listing order: each names the path.
pub open spec fn dir_diags(dirs: Seq<PostDir>) -> Seq<(Option<Seq<char>>, Seq<char>, Option<usize>, Option<usize>)>
    decreases dirs.len(),
{
    if dirs.len() == 0 {
        Seq::empty()
    } else {
        let rest = dir_diags(dirs.drop_last());
        match dirs.last() {
            PostDir::Read(_) => rest,
            PostDir::NoIndex(path) => rest.push((Some(path@), "post directory has no index.mdx"@, None, None)),
            PostDir::Unreadable(path, why) => rest.push((Some(path@), "cannot read post: "@ + why@, None, None)),
        }
    }
}

/// The post sources of a content tree, in slug order, and its structural
/// problems in listing order, from what reading each post directory found.
pub fn discovered(dirs: Vec<PostDir>) -> (r: (Vec<PostSource>, Vec<Diagnostic>))
    ensures
        r.0@ == sort_by_slug(dir_sources(dirs@)),
        diags_view(r.1@) == dir_diags(dirs@),
{
    let ghost all = dirs@;
    let n = dirs.len();
    let mut rest = dirs;
    let mut posts: Vec<PostSource> = Vec::new();
    let mut diags: Vec<Diagnostic> = Vec::new();
    let mut i: usize = 0;
    assert(all.skip(0) =~= all);
    while i < n
        invariant
            all.len() == n,
            i <= n,
            rest@ == all.skip(i as int),
            posts@ == dir_sources(all.take(i as int)),
            diags_view(diags@) == dir_diags(all.take(i as int)),
        decreases n - i,
    {
        let next = rest.remove(0);
        proof {
            assert(next == all[i as int]);
            assert(rest@ =~= all.skip(i + 1));
            assert(all.take(i + 1).drop_last() =~= all.take(i as int));
            assert(all.take(i + 1).last() == all[i as int]);
        }
        let ghost d0 = diags@;
        match next {
            PostDir::Read(p) => {
                posts.push(p);
            },
            PostDir::NoIndex(path) => {
                diags.push(Diagnostic { message: owned("post directory has no index.mdx"), file: Some(path), line: None, column: None });
                assert(diags_view(diags@) =~= diags_view(d0).push(diag_view(diags@.last())));
            },
            PostDir::Unreadable(path, why) => {
                diags.push(Diagnostic { message: concat("cannot read post: ", &why), file: Some(path), line: None, column: None });
                assert(diags_view(diags@) =~= diags_view(d0).push(diag_view(diags@.last())));
            },
        }
        i += 1;
    }
    assert(all.take(n as int) =~= all);
    (sort_sources(posts), diags)
}

} // verus!

//! The Atom feed and the sitemap, rendered from the stored index.
use vstd::prelude::*;

use crate::content::{listed, IndexEntry};
use crate::sorted::{insert_sorted, sorted_list, strictly_sorted, views};
use crate::text::{chars_of, owned, push_char, push_text, text_lt};

verus! {

/// Feed title and author.
pub const SITE_TITLE: &'static str = "chris";

/// Feed-level `updated` when nothing is published (Atom requires one).
pub const EPOCH: &'static str = "1970-01-01";

/// The published entries, in stored order.
pub open spec fn published_entries(index: Seq<IndexEntry>) -> Seq<IndexEntry>
    decreases index.len(),
{
    if index.len() == 0 {
        Seq::empty()
    } else if listed(index.last()) {
        published_entries(index.drop_last()).push(index.last())
    } else {
        published_entries(index.drop_last())
    }
}

/// The published entries of `index`, in stored (newest-first) order.
pub fn published(index: &[IndexEntry]) -> (r: Vec<&IndexEntry>)
    ensures
        r@.len() == published_entries(index@).len(),
        forall|i: int| 0 <= i < r@.len() ==> *(#[trigger] r@[i]) == published_entries(index@)[i],
{
    let mut r: Vec<&IndexEntry> = Vec::new();
    let mut i: usize = 0;
    while i < index.len()
        invariant
            i <= index@.len(),
            r@.len() == published_entries(index@.take(i as int)).len(),
            forall|k: int| 0 <= k < r@.len() ==> *(#[trigger] r@[k]) == published_entries(index@.take(i as int))[k],
        decreases index@.len() - i,
    {
        assert(index@.take(i + 1).drop_last() =~= index@.take(i as int));
        if index[i].is_listed() {
            r.push(&index[i]);
        }
        i += 1;
    }
    assert(index@.take(index@.len() as int) =~= index@);
    r
}

/// How one character is written inside XML text or an attribute.
pub open spec fn escape_char(c: char) -> Seq<char> {
    if c == '&' {
        "&amp;"@
    } else if c == '<' {
        "&lt;"@
    } else if c == '>' {
        "&gt;"@
    } else if c == '"' {
        "&quot;"@
    } else if c == '\'' {
        "&apos;"@
    } else {
        seq![c]
    }
}

/// `s` with the XML special characters escaped.
pub open spec fn spec_xml_escape(s: Seq<char>) -> Seq<char>
    decreases s.len(),
{
    if s.len() == 0 {
        Seq::empty()
    } else {
        spec_xml_escape(s.drop_last()) + escape_char(s.last())
    }
}

/// `text` with `&`, `<`, `>`, `"` and `'` escaped.
pub fn xml_escape(text: &str) -> (r: String)
    ensures
        r@ == spec_xml_escape(text@),
{
    let cs = chars_of(text);
    let mut r = String::new();
    let mut i: usize = 0;
    while i < cs.len()
        invariant
            i <= cs@.len(),
            r@ == spec_xml_escape(cs@.take(i as int)),
        decreases cs@.len() - i,
    {
        assert(cs@.take(i + 1).drop_last() =~= cs@.take(i as int));
        let c = cs[i];
        if c == '&' {
            push_text(&mut r, "&amp;");
        } else if c == '<' {
            push_text(&mut r, "&lt;");
        } else if c == '>' {
            push_text(&mut r, "&gt;");
        } else if c == '"' {
            push_text(&mut r, "&quot;");
        } else if c == '\'' {
            push_text(&mut r, "&apos;");
        } else {
            push_char(&mut r, c);
            assert(r@ =~= spec_xml_escape(cs@.take(i as int)) + seq![c]);
        }
        i += 1;
    }
    assert(cs@.take(cs@.len() as int) =~= cs@);
    r
}

pub open spec fn spec_atom_timestamp(date: Seq<char>) -> Seq<char> {
    date + "T00:00:00Z"@
}

/// Frontmatter dates are date-only; Atom wants a full timestamp.
pub fn atom_timestamp(date: &str) -> (r: String)
    ensures
        r@ == spec_atom_timestamp(date@),
{
    crate::text::concat(date, "T00:00:00Z")
}

/// The newest date among `entries`, if any.
pub open spec fn latest_date(entries: Seq<IndexEntry>) -> Option<Seq<char>>
    decreases entries.len(),
{
    if entries.len() == 0 {
        None
    } else {
        let d = entries.last().date@;
        match latest_date(entries.drop_last()) {
            None => Some(d),
            Some(m) => if text_lt(d, m) {
                Some(m)
            } else {
                Some(d)
            },
        }
    }
}

/// The public URL of a post.
pub open spec fn post_url(origin: Seq<char>, e: IndexEntry) -> Seq<char> {
    origin + "/posts/"@ + e.slug@
}

/// One Atom `<entry>`; with no content, Atom requires a summary, so the
/// title stands in for a missing description.
pub open spec fn spec_atom_entry(origin: Seq<char>, e: IndexEntry) -> Seq<char> {
    let url = post_url(origin, e);
    let summary = match e.description {
        Some(d) => d@,
        None => e.title@,
    };
    "<entry><title>"@ + spec_xml_escape(e.title@) + "</title><id>"@ + url + "</id><link href=\""@ + url
        + "\"/><updated>"@ + spec_atom_timestamp(e.date@) + "</updated><summary>"@ + spec_xml_escape(summary)
        + "</summary></entry>\n"@
}

/// The Atom entries of `entries`, in order.
pub open spec fn spec_atom_entries(origin: Seq<char>, entries: Seq<IndexEntry>) -> Seq<char>
    decreases entries.len(),
{
    if entries.len() == 0 {
        Seq::empty()
    } else {
        spec_atom_entries(origin, entries.drop_last()) + spec_atom_entry(origin, entries.last())
    }
}

/// The Atom feed served at `/rss.xml`.
pub open spec fn spec_atom(origin: Seq<char>, index: Seq<IndexEntry>) -> Seq<char> {
    let pubs = published_entries(index);
    let updated = match latest_date(pubs) {
        Some(d) => d,
        None => "1970-01-01"@,
    };
    "<?xml version=\"1.0\" encoding=\"utf-8\"?>\n<feed xmlns=\"http://www.w3.org/2005/Atom\">\n<title>"@
        + spec_xml_escape("chris"@) + "</title><id>"@ + origin + "/</id><link href=\""@ + origin
        + "/\"/><link rel=\"self\" href=\""@ + origin + "/rss.xml"@ + "\"/><updated>"@
        + spec_atom_timestamp(updated) + "</updated><author><name>"@ + spec_xml_escape("chris"@)
        + "</name></author>\n"@ + spec_atom_entries(origin, pubs) + "</feed>\n"@
}

fn atom_entry(origin: &str, e: &IndexEntry) -> (r: String)
    ensures
        r@ == spec_atom_entry(origin@, *e),
{
    let url = crate::text::concat3(origin, "/posts/", &e.slug);
    let summary: &String = match &e.description {
        Some(d) => d,
        None => &e.title,
    };
    let mut r = owned("<entry><title>");
    push_text(&mut r, &xml_escape(&e.title));
    push_text(&mut r, "</title><id>");
    push_text(&mut r, &url);
    push_text(&mut r, "</id><link href=\"");
    push_text(&mut r, &url);
    push_text(&mut r, "\"/><updated>");
    push_text(&mut r, &atom_timestamp(&e.date));
    push_text(&mut r, "</updated><summary>");
    push_text(&mut r, &xml_escape(summary));
    push_text(&mut r, "</summary></entry>\n");
    r
}

/// The Atom feed served at `/rss.xml`. `origin` is scheme and host, with no
/// trailing slash.
pub fn atom(origin: &str, index: &[IndexEntry]) -> (r: String)
    ensures
        r@ == spec_atom(origin@, index@),
{
    let pubs = published(index);
    let ghost ps = published_entries(index@);
    let mut latest: Option<&String> = None;
    let mut entries = String::new();
    let mut i: usize = 0;
    while i < pubs.len()
        invariant
            i <= pubs@.len(),
            pubs@.len() == ps.len(),
            forall|k: int| 0 <= k < pubs@.len() ==> *(#[trigger] pubs@[k]) == ps[k],
            match latest {
                Some(d) => latest_date(ps.take(i as int)) == Some(d@),
                None => latest_date(ps.take(i as int)) is None,
            },
            entries@ == spec_atom_entries(origin@, ps.take(i as int)),
        decreases pubs@.len() - i,
    {
        assert(ps.take(i + 1).drop_last() =~= ps.take(i as int));
        let e: &IndexEntry = pubs[i];
        latest = match latest {
            None => Some(&e.date),
            Some(m) => if crate::text::compare_text(&e.date, m) == crate::text::Order::Less {
                Some(m)
            } else {
                Some(&e.date)
            },
        };
        push_text(&mut entries, &atom_entry(origin, e));
        i += 1;
    }
    assert(ps.take(ps.len() as int) =~= ps);
    let updated: &str = match latest {
        Some(d) => d.as_str(),
        None => EPOCH,
    };
    let title = xml_escape(SITE_TITLE);
    let mut r = owned("<?xml version=\"1.0\" encoding=\"utf-8\"?>\n<feed xmlns=\"http://www.w3.org/2005/Atom\">\n<title>");
    push_text(&mut r, &title);
    push_text(&mut r, "</title><id>");
    push_text(&mut r, origin);
    push_text(&mut r, "/</id><link href=\"");
    push_text(&mut r, origin);
    push_text(&mut r, "/\"/><link rel=\"self\" href=\"");
    push_text(&mut r, origin);
    push_text(&mut r, crate::content::RSS_PATH);
    push_text(&mut r, "\"/><updated>");
    push_text(&mut r, &atom_timestamp(updated));
    push_text(&mut r, "</updated><author><name>");
    push_text(&mut r, &title);
    push_text(&mut r, "</name></author>\n");
    push_text(&mut r, &entries);
    push_text(&mut r, "</feed>\n");
    r
}

/// Every tag a published entry carries.
pub open spec fn published_tags(index: Seq<IndexEntry>) -> Set<Seq<char>> {
    Set::new(|t: Seq<char>| exists|i: int, j: int| 0 <= i < published_entries(index).len()
        && 0 <= j < published_entries(index)[i].tags@.len() && published_entries(index)[i].tags@[j]@ == t)
}

/// One sitemap `<url>` without a modification date.
pub open spec fn spec_sitemap_url(origin: Seq<char>, path: Seq<char>) -> Seq<char> {
    "<url><loc>"@ + origin + path + "</loc></url>\n"@
}

/// A post's sitemap `<url>`, its publication date as `lastmod`.
pub open spec fn spec_sitemap_post(origin: Seq<char>, e: IndexEntry) -> Seq<char> {
    "<url><loc>"@ + origin + "/posts/"@ + e.slug@ + "</loc><lastmod>"@ + e.date@ + "</lastmod></url>\n"@
}

pub open spec fn spec_sitemap_tag_urls(origin: Seq<char>, tags: Seq<Seq<char>>) -> Seq<char>
    decreases tags.len(),
{
    if tags.len() == 0 {
        Seq::empty()
    } else {
        spec_sitemap_tag_urls(origin, tags.drop_last()) + spec_sitemap_url(origin, "/tags/"@ + tags.last())
    }
}

pub open spec fn spec_sitemap_posts(origin: Seq<char>, entries: Seq<IndexEntry>) -> Seq<char>
    decreases entries.len(),
{
    if entries.len() == 0 {
        Seq::empty()
    } else {
        spec_sitemap_posts(origin, entries.drop_last()) + spec_sitemap_post(origin, entries.last())
    }
}

/// Home, the listings, the tags page, the static pages, a page per
/// published tag (in tag order), and every published post.
pub open spec fn spec_sitemap(origin: Seq<char>, index: Seq<IndexEntry>) -> Seq<char> {
    "<?xml version=\"1.0\" encoding=\"UTF-8\"?>\n<urlset xmlns=\"http://www.sitemaps.org/schemas/sitemap/0.9\">\n"@
        + spec_sitemap_url(origin, "/"@) + spec_sitemap_url(origin, "/posts"@)
        + spec_sitemap_url(origin, "/tags"@) + spec_sitemap_url(origin, "/about"@)
        + spec_sitemap_tag_urls(origin, sorted_list(published_tags(index)))
        + spec_sitemap_posts(origin, published_entries(index)) + "</urlset>\n"@
}

fn sitemap_url(origin: &str, path: &str) -> (r: String)
    ensures
        r@ == spec_sitemap_url(origin@, path@),
{
    let mut r = owned("<url><loc>");
    push_text(&mut r, origin);
    push_text(&mut r, path);
    push_text(&mut r, "</loc></url>\n");
    r
}

/// The tags of the published entries, sorted, each once.
fn published_tag_list(pubs: &Vec<&IndexEntry>, Ghost(ps): Ghost<Seq<IndexEntry>>, Ghost(index): Ghost<Seq<IndexEntry>>) -> (r: Vec<String>)
    requires
        ps == published_entries(index),
        pubs@.len() == ps.len(),
        forall|k: int| 0 <= k < pubs@.len() ==> *(#[trigger] pubs@[k]) == ps[k],
    ensures
        strictly_sorted(views(r@)),
        views(r@).to_set() == published_tags(index),
{
    let mut tags: Vec<String> = Vec::new();
    proof {
        crate::sorted::lemma_empty_sorted();
        assert(views(tags@) =~= Seq::<Seq<char>>::empty());
    }
    let mut i: usize = 0;
    while i < pubs.len()
        invariant
            i <= pubs@.len(),
            pubs@.len() == ps.len(),
            forall|k: int| 0 <= k < pubs@.len() ==> *(#[trigger] pubs@[k]) == ps[k],
            strictly_sorted(views(tags@)),
            views(tags@).to_set() == Set::new(|t: Seq<char>| exists|a: int, b: int| 0 <= a < i
                && 0 <= b < ps[a].tags@.len() && ps[a].tags@[b]@ == t),
        decreases pubs@.len() - i,
    {
        let e: &IndexEntry = pubs[i];
        let mut j: usize = 0;
        while j < e.tags.len()
            invariant
                i < pubs@.len(),
                *e == ps[i as int],
                j <= e.tags@.len(),
                strictly_sorted(views(tags@)),
                views(tags@).to_set() == Set::new(|t: Seq<char>| (exists|a: int, b: int| 0 <= a < i
                    && 0 <= b < ps[a].tags@.len() && ps[a].tags@[b]@ == t)
                    || (exists|b: int| 0 <= b < j && e.tags@[b]@ == t)),
            decreases e.tags@.len() - j,
        {
            let ghost before = views(tags@).to_set();
            insert_sorted(&mut tags, e.tags[j].clone());
            proof {
                assert(views(tags@).to_set() =~= Set::new(|t: Seq<char>| (exists|a: int, b: int| 0 <= a < i
                    && 0 <= b < ps[a].tags@.len() && ps[a].tags@[b]@ == t)
                    || (exists|b: int| 0 <= b < j + 1 && e.tags@[b]@ == t))) by {
                    assert forall|t: Seq<char>| #![trigger views(tags@).to_set().contains(t)]
                        (exists|b: int| 0 <= b < j + 1 && e.tags@[b]@ == t) implies views(tags@).to_set().contains(t) by {
                        let b = choose|b: int| 0 <= b < j + 1 && e.tags@[b]@ == t;
                        if b < j {
                            assert(before.contains(t));
                        }
                    }
                }
            }
            j += 1;
        }
        proof {
            assert(views(tags@).to_set() =~= Set::new(|t: Seq<char>| exists|a: int, b: int| 0 <= a < i + 1
                && 0 <= b < ps[a].tags@.len() && ps[a].tags@[b]@ == t)) by {
                assert forall|t: Seq<char>| (exists|a: int, b: int| 0 <= a < i + 1
                    && 0 <= b < ps[a].tags@.len() && ps[a].tags@[b]@ == t) implies views(tags@).to_set().contains(t) by {
                    let (a, b) = choose|a: int, b: int| 0 <= a < i + 1 && 0 <= b < ps[a].tags@.len() && ps[a].tags@[b]@ == t;
                    if a == i {
                        assert(exists|b: int| 0 <= b < e.tags@.len() && e.tags@[b]@ == t);
                    }
                }
                assert forall|t: Seq<char>| views(tags@).to_set().contains(t) implies (exists|a: int, b: int| 0 <= a < i + 1
                    && 0 <= b < ps[a].tags@.len() && ps[a].tags@[b]@ == t) by {
                    if exists|b: int| 0 <= b < e.tags@.len() && e.tags@[b]@ == t {
                        let b = choose|b: int| 0 <= b < e.tags@.len() && e.tags@[b]@ == t;
                        assert(0 <= i < i + 1 && 0 <= b < ps[i as int].tags@.len() && ps[i as int].tags@[b]@ == t);
                    }
                }
            }
        }
        i += 1;
    }
    assert(views(tags@).to_set() =~= published_tags(index));
    tags
}

/// The sitemap: home, listings, the tags page, static pages, a page per
/// published tag, and every published post with its date as `lastmod`.
pub fn sitemap(origin: &str, index: &[IndexEntry]) -> (r: String)
    ensures
        r@ == spec_sitemap(origin@, index@),
{
    let pubs = published(index);
    let ghost ps = published_entries(index@);
    let tags = published_tag_list(&pubs, Ghost(ps), Ghost(index@));
    proof {
        crate::sorted::lemma_sorted_list_of(views(tags@));
    }
    let ghost st = views(tags@);
    let mut tag_urls = String::new();
    let mut i: usize = 0;
    while i < tags.len()
        invariant
            i <= tags@.len(),
            st == views(tags@),
            tag_urls@ == spec_sitemap_tag_urls(origin@, st.take(i as int)),
        decreases tags@.len() - i,
    {
        assert(st.take(i + 1).drop_last() =~= st.take(i as int));
        push_text(&mut tag_urls, &sitemap_url(origin, &crate::content::tag_path(&tags[i])));
        i += 1;
    }
    assert(st.take(st.len() as int) =~= st);
    let mut posts = String::new();
    let mut k: usize = 0;
    while k < pubs.len()
        invariant
            k <= pubs@.len(),
            pubs@.len() == ps.len(),
            forall|m: int| 0 <= m < pubs@.len() ==> *(#[trigger] pubs@[m]) == ps[m],
            posts@ == spec_sitemap_posts(origin@, ps.take(k as int)),
        decreases pubs@.len() - k,
    {
        assert(ps.take(k + 1).drop_last() =~= ps.take(k as int));
        let e: &IndexEntry = pubs[k];
        push_text(&mut posts, "<url><loc>");
        push_text(&mut posts, origin);
        push_text(&mut posts, "/posts/");
        push_text(&mut posts, &e.slug);
        push_text(&mut posts, "</loc><lastmod>");
        push_text(&mut posts, &e.date);
        push_text(&mut posts, "</lastmod></url>\n");
        k += 1;
    }
    assert(ps.take(ps.len() as int) =~= ps);
    let mut r = owned("<?xml version=\"1.0\" encoding=\"UTF-8\"?>\n<urlset xmlns=\"http://www.sitemaps.org/schemas/sitemap/0.9\">\n");
    push_text(&mut r, &sitemap_url(origin, "/"));
    push_text(&mut r, &sitemap_url(origin, "/posts"));
    push_text(&mut r, &sitemap_url(origin, crate::content::TAGS_PATH));
    push_text(&mut r, &sitemap_url(origin, crate::content::ABOUT_PATH));
    push_text(&mut r, &tag_urls);
    push_text(&mut r, &posts);
    push_text(&mut r, "</urlset>\n");
    r
}

/// Feeds and the sitemap see exactly the published entries: no draft, and
/// every entry that is not a draft, in stored order.
pub proof fn law_feeds_list_exactly_the_published(index: Seq<IndexEntry>)
    ensures
        forall|i: int| 0 <= i < published_entries(index).len() ==> !(#[trigger] published_entries(index)[i]).draft,
        forall|i: int| 0 <= i < index.len() && !(#[trigger] index[i]).draft ==> published_entries(index).contains(index[i]),
        published_entries(index).len() <= index.len(),
    decreases index.len(),
{
    if index.len() > 0 {
        let d = index.drop_last();
        law_feeds_list_exactly_the_published(d);
        let p = published_entries(index);
        let pd = published_entries(d);
        assert forall|i: int| 0 <= i < index.len() && !(#[trigger] index[i]).draft implies p.contains(index[i]) by {
            if i < index.len() - 1 {
                assert(d[i] == index[i]);
                let k = choose|k: int| 0 <= k < pd.len() && pd[k] == d[i];
                if !index.last().draft {
                    assert(p[k] == pd[k]);
                } else {
                    assert(p[k] == pd[k]);
                }
            } else {
                assert(p[p.len() - 1] == index[i]);
            }
        }
        assert forall|i: int| 0 <= i < p.len() implies !(#[trigger] p[i]).draft by {
            if i < pd.len() {
                assert(p[i] == pd[i]);
            }
        }
    }
}

/// The newest of `entries`' dates: no entry's date is later, and it is one
/// of them.
proof fn lemma_latest_date_is_the_newest(entries: Seq<IndexEntry>)
    ensures
        entries.len() == 0 <==> latest_date(entries) is None,
        latest_date(entries) matches Some(d) ==> {
            &&& exists|i: int| 0 <= i < entries.len() && (#[trigger] entries[i]).date@ == d
            &&& forall|i: int| 0 <= i < entries.len() ==> !text_lt(d, (#[trigger] entries[i]).date@)
        },
    decreases entries.len(),
{
    if entries.len() > 0 {
        let rest = entries.drop_last();
        lemma_latest_date_is_the_newest(rest);
        let d = entries.last().date@;
        assert(entries[entries.len() - 1] == entries.last());
        match latest_date(rest) {
            None => {
                assert forall|i: int| 0 <= i < entries.len() implies !text_lt(d, (#[trigger] entries[i]).date@) by {
                    crate::text::lemma_text_lt_irreflexive(d);
                }
            },
            Some(m) => {
                let k = choose|i: int| 0 <= i < rest.len() && (#[trigger] rest[i]).date@ == m;
                assert(entries[k] == rest[k]);
                if text_lt(d, m) {
                    assert forall|i: int| 0 <= i < entries.len() implies !text_lt(m, (#[trigger] entries[i]).date@) by {
                        if i < entries.len() - 1 {
                            assert(entries[i] == rest[i]);
                        } else {
                            crate::text::lemma_text_lt_asymmetric(d, m);
                        }
                    }
                } else {
                    crate::text::lemma_text_lt_total(d, m);
                    assert forall|i: int| 0 <= i < entries.len() implies !text_lt(d, (#[trigger] entries[i]).date@) by {
                        if i < entries.len() - 1 {
                            assert(entries[i] == rest[i]);
                            if text_lt(d, rest[i].date@) {
                                if d == m {
                                } else {
                                    crate::text::lemma_text_lt_transitive(m, d, rest[i].date@);
                                }
                            }
                        } else {
                            crate::text::lemma_text_lt_irreflexive(d);
                        }
                    }
                }
            },
        }
    }
}

/// The feed opens with its fixed head, up to the feed's own `<updated>`.
pub open spec fn atom_head(origin: Seq<char>) -> Seq<char> {
    "<?xml version=\"1.0\" encoding=\"utf-8\"?>\n<feed xmlns=\"http://www.w3.org/2005/Atom\">\n<title>"@
        + spec_xml_escape("chris"@) + "</title><id>"@ + origin + "/</id><link href=\""@ + origin
        + "/\"/><link rel=\"self\" href=\""@ + origin + "/rss.xml"@ + "\"/><updated>"@
}

/// The feed's own `<updated>` is the newest date among the published
/// entries, at midnight UTC: no published entry is dated later, and one is
/// dated then. With nothing published it is the epoch.
pub proof fn law_feed_updated_is_the_newest_published_date(origin: Seq<char>, index: Seq<IndexEntry>)
    ensures
        exists|d: Seq<char>, rest: Seq<char>| {
            &&& spec_atom(origin, index) == atom_head(origin) + d + "T00:00:00Z"@ + rest
            &&& published_entries(index).len() == 0 ==> d == "1970-01-01"@
            &&& published_entries(index).len() > 0 ==> {
                &&& exists|i: int| 0 <= i < published_entries(index).len()
                    && (#[trigger] published_entries(index)[i]).date@ == d
                &&& forall|i: int| 0 <= i < published_entries(index).len()
                    ==> !text_lt(d, (#[trigger] published_entries(index)[i]).date@)
            }
        },
{
    let pubs = published_entries(index);
    lemma_latest_date_is_the_newest(pubs);
    let d = match latest_date(pubs) {
        Some(x) => x,
        None => "1970-01-01"@,
    };
    let rest = "</updated><author><name>"@ + spec_xml_escape("chris"@)
        + "</name></author>\n"@ + spec_atom_entries(origin, pubs) + "</feed>\n"@;
    assert(spec_atom(origin, index) =~= atom_head(origin) + d + "T00:00:00Z"@ + rest);
}

} // verus!

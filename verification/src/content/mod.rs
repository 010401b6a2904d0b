//! The versioned content IR: what the store holds for every post (a semantic
//! AST plus frontmatter, never rendered HTML), the index entries that
//! listings are built from, and the diagnostics the parser reports.
use vstd::prelude::*;

use crate::text::{concat, owned, text_lt};

pub mod strmap;
pub mod routes;
pub mod derived;
pub mod manifest;
pub mod numbers;
pub mod suggest;
pub mod syntax;
pub mod frontmatter;
pub mod parse;
pub mod json;
pub mod stored;

pub use strmap::{map_entries, StrMap};
pub use routes::{
    index_key_at, post_key, post_key_at, post_path, post_path_slug, post_slug, post_tag,
    snapshot_index_key, snapshot_key_sha, snapshot_post_key, source_path, tag_filter_path,
    tag_path, valid_slug, CurrentPointer, ABOUT_PATH, CONTENT_ROOT, CURRENT_KEY, FEED_PATHS,
    INDEX_KEY, LISTING_PAGES, POST_FILE, RSS_PATH, SITEMAP_PATH, SITE_TAG, SNAPSHOT_KEY_SPACE,
    STATIC_PAGES, TAGS_PATH, VIEWS_TAG, WRITING_PATH,
};
pub use numbers::NumberValue;
pub use derived::{format_date, reading_minutes};
pub use manifest::{ComponentSpec, Manifest, PropSpec, PropType};
pub use parse::{convert, parse, parse_named, parse_validated, parse_validated_named, stamp};
pub use syntax::MdNode;

verus! {

/// Version stamped into every stored [`Document`]. Bumped on any change to
/// the stored shape of [`Document`], [`Frontmatter`], [`Node`] or
/// [`PropValue`].
pub const SCHEMA_VERSION: u32 = 1;

/// Errors from reading or writing a stored [`Document`].
#[derive(Debug, Clone)]
pub enum AstError {
    /// The payload was written under a different [`SCHEMA_VERSION`].
    SchemaVersionMismatch { found: u32, expected: u32 },
    /// The payload is not valid JSON for this schema; the decoder's message.
    Json(String),
}

impl AstError {
    /// The one-line description of the error.
    pub fn message(&self) -> (r: String)
        ensures
            r@ == match *self {
                AstError::SchemaVersionMismatch { found, expected } => "schema version mismatch: found "@
                    + crate::text::usize_digits(found as nat) + ", expected "@ + crate::text::usize_digits(expected as nat),
                AstError::Json(m) => "invalid document JSON: "@ + m@,
            },
    {
        match self {
            AstError::SchemaVersionMismatch { found, expected } => {
                let mut r = owned("schema version mismatch: found ");
                crate::text::push_text(&mut r, &crate::text::u32_text(*found));
                crate::text::push_text(&mut r, ", expected ");
                crate::text::push_text(&mut r, &crate::text::u32_text(*expected));
                r
            },
            AstError::Json(m) => concat("invalid document JSON: ", m),
        }
    }
}

/// A fully parsed post: the unit stored under a post key.
#[derive(Debug, PartialEq)]
pub struct Document {
    /// Schema version this document was written under.
    pub schema_version: u32,
    /// Post metadata from the YAML frontmatter block.
    pub frontmatter: Frontmatter,
    /// The post body as block-level nodes.
    pub ast: Vec<Node>,
}

/// Accepts a decoded document only when it was written under the current
/// schema version: stale stored data is detected, never misrendered.
pub fn check_schema_version(doc: Document) -> (r: Result<Document, AstError>)
    ensures
        doc.schema_version == SCHEMA_VERSION ==> r == Ok::<Document, AstError>(doc),
        doc.schema_version != SCHEMA_VERSION ==> r == Err::<Document, AstError>(
            AstError::SchemaVersionMismatch { found: doc.schema_version, expected: SCHEMA_VERSION },
        ),
{
    if doc.schema_version != SCHEMA_VERSION {
        Err(AstError::SchemaVersionMismatch { found: doc.schema_version, expected: SCHEMA_VERSION })
    } else {
        Ok(doc)
    }
}

/// Post metadata; drives listings, tag filters and feeds.
#[derive(Debug, Clone, PartialEq)]
pub struct Frontmatter {
    pub title: String,
    /// ISO `YYYY-MM-DD`; listings sort on it.
    pub date: String,
    /// One-line summary for feeds.
    pub description: Option<String>,
    pub tags: Vec<String>,
    /// Drafts stay reachable by slug but are kept out of listings and feeds.
    pub draft: bool,
}

/// One entry of the stored post listing.
#[derive(Debug, Clone, PartialEq)]
pub struct IndexEntry {
    pub slug: String,
    pub title: String,
    /// ISO `YYYY-MM-DD`; the index is ordered newest-first on it.
    pub date: String,
    pub description: Option<String>,
    pub tags: Vec<String>,
    pub draft: bool,
}

/// The draft-visibility rule, as a predicate on the abstract entry.
pub open spec fn listed(e: IndexEntry) -> bool {
    !e.draft
}

impl IndexEntry {
    /// The one draft-visibility rule: a draft renders by slug but appears in
    /// no listing, feed, sitemap or tag filter.
    pub fn is_listed(&self) -> (r: bool)
        ensures
            r == listed(*self),
    {
        !self.draft
    }

    /// The index entry for the post at `slug` with this frontmatter.
    pub fn new(slug: &str, frontmatter: &Frontmatter) -> (r: Self)
        ensures
            r.slug@ == slug@,
            r.title == frontmatter.title,
            r.date == frontmatter.date,
            r.description == frontmatter.description,
            r.tags@ == frontmatter.tags@,
            r.draft == frontmatter.draft,
    {
        let tags = crate::text::copy_strings(&frontmatter.tags);
        IndexEntry {
            slug: owned(slug),
            title: frontmatter.title.clone(),
            date: frontmatter.date.clone(),
            description: crate::text::copy_opt(&frontmatter.description),
            tags,
            draft: frontmatter.draft,
        }
    }
}

/// One semantic node of a post body. Prose maps to HTML-shaped variants;
/// [`Node::Component`] names a registered component, resolved at render
/// time.
#[derive(Debug, PartialEq)]
pub enum Node {
    /// `level` is 1 through 6.
    Heading { level: u8, children: Vec<Node> },
    Paragraph { children: Vec<Node> },
    Text { value: String },
    Emphasis { children: Vec<Node> },
    Strong { children: Vec<Node> },
    InlineCode { value: String },
    Link { url: String, title: Option<String>, children: Vec<Node> },
    Image { url: String, alt: String, title: Option<String> },
    /// `start` is the first ordinal of an ordered list.
    List { ordered: bool, start: Option<u32>, items: Vec<ListItem> },
    /// Raw text plus language; highlighting is a renderer concern.
    CodeBlock { lang: Option<String>, text: String },
    Blockquote { children: Vec<Node> },
    ThematicBreak,
    Break,
    /// Lowercase-tag HTML passthrough; children are markdown.
    Html { tag: String, attrs: StrMap<String>, children: Vec<Node> },
    /// PascalCase component invocation; children are markdown.
    Component { name: String, props: StrMap<PropValue>, children: Vec<Node> },
}

/// One item of a [`Node::List`].
#[derive(Debug, PartialEq)]
pub struct ListItem {
    pub children: Vec<Node>,
}

/// A component prop value: scalar literals only.
#[derive(Debug, Clone, PartialEq)]
pub enum PropValue {
    String(String),
    Number(NumberValue),
    Bool(bool),
}

/// What a prop value is, over plain values.
pub enum PropValueV {
    String(Seq<char>),
    /// The canonical decimal text.
    Number(Seq<char>),
    Bool(bool),
}

impl View for PropValue {
    type V = PropValueV;

    open spec fn view(&self) -> PropValueV {
        match self {
            PropValue::String(s) => PropValueV::String(s@),
            PropValue::Number(n) => PropValueV::Number(n@),
            PropValue::Bool(b) => PropValueV::Bool(*b),
        }
    }
}

/// What a [`Node`] is, over plain values: text as character sequences,
/// children as sequences, attribute and prop maps as their key-ordered
/// entries.
pub enum NodeV {
    Heading(u8, Seq<NodeV>),
    Paragraph(Seq<NodeV>),
    Text(Seq<char>),
    Emphasis(Seq<NodeV>),
    Strong(Seq<NodeV>),
    InlineCode(Seq<char>),
    Link(Seq<char>, Option<Seq<char>>, Seq<NodeV>),
    Image(Seq<char>, Seq<char>, Option<Seq<char>>),
    List(bool, Option<u32>, Seq<Seq<NodeV>>),
    CodeBlock(Option<Seq<char>>, Seq<char>),
    Blockquote(Seq<NodeV>),
    ThematicBreak,
    Break,
    Html(Seq<char>, Seq<(Seq<char>, Seq<char>)>, Seq<NodeV>),
    Component(Seq<char>, Seq<(Seq<char>, PropValueV)>, Seq<NodeV>),
}

pub open spec fn opt_text(o: Option<String>) -> Option<Seq<char>> {
    match o {
        Some(s) => Some(s@),
        None => None,
    }
}

pub open spec fn string_view(s: String) -> Seq<char> {
    s@
}

pub open spec fn prop_view(v: PropValue) -> PropValueV {
    v@
}

pub open spec fn node_view(n: Node) -> NodeV
    decreases n,
{
    match n {
        Node::Heading { level, children } => NodeV::Heading(level, nodes_view(children@)),
        Node::Paragraph { children } => NodeV::Paragraph(nodes_view(children@)),
        Node::Text { value } => NodeV::Text(value@),
        Node::Emphasis { children } => NodeV::Emphasis(nodes_view(children@)),
        Node::Strong { children } => NodeV::Strong(nodes_view(children@)),
        Node::InlineCode { value } => NodeV::InlineCode(value@),
        Node::Link { url, title, children } => NodeV::Link(url@, opt_text(title), nodes_view(children@)),
        Node::Image { url, alt, title } => NodeV::Image(url@, alt@, opt_text(title)),
        Node::List { ordered, start, items } => NodeV::List(ordered, start, items_view(items@)),
        Node::CodeBlock { lang, text } => NodeV::CodeBlock(opt_text(lang), text@),
        Node::Blockquote { children } => NodeV::Blockquote(nodes_view(children@)),
        Node::ThematicBreak => NodeV::ThematicBreak,
        Node::Break => NodeV::Break,
        Node::Html { tag, attrs, children } => NodeV::Html(
            tag@,
            map_entries(attrs@, |v: String| string_view(v)),
            nodes_view(children@),
        ),
        Node::Component { name, props, children } => NodeV::Component(
            name@,
            map_entries(props@, |v: PropValue| prop_view(v)),
            nodes_view(children@),
        ),
    }
}

pub open spec fn nodes_view(s: Seq<Node>) -> Seq<NodeV>
    decreases s,
{
    if s.len() == 0 {
        Seq::empty()
    } else {
        nodes_view(s.drop_last()).push(node_view(s.last()))
    }
}

pub open spec fn items_view(s: Seq<ListItem>) -> Seq<Seq<NodeV>>
    decreases s,
{
    if s.len() == 0 {
        Seq::empty()
    } else {
        items_view(s.drop_last()).push(nodes_view(s.last().children@))
    }
}

/// A parse or validation problem, with a source location when known.
#[derive(Debug, Clone, PartialEq, Eq)]
pub struct Diagnostic {
    pub message: String,
    /// The file the source came from, when the caller named it.
    pub file: Option<String>,
    /// 1-based line.
    pub line: Option<usize>,
    /// 1-based column.
    pub column: Option<usize>,
}

/// `file:line:column: message`, dropping what is unknown.
pub open spec fn rendered_diagnostic(d: Diagnostic) -> Seq<char> {
    let file = match d.file {
        Some(f) => f@,
        None => "<input>"@,
    };
    match (d.line, d.column) {
        (Some(l), Some(c)) => file + ":"@ + crate::text::usize_digits(l as nat) + ":"@
            + crate::text::usize_digits(c as nat) + ": "@ + d.message@,
        (Some(l), None) => file + ":"@ + crate::text::usize_digits(l as nat) + ": "@ + d.message@,
        _ => file + ": "@ + d.message@,
    }
}

impl Diagnostic {
    /// The diagnostic as one line: `file:line:column: message`.
    pub fn render(&self) -> (r: String)
        ensures
            r@ == rendered_diagnostic(*self),
    {
        let mut r = match &self.file {
            Some(f) => f.clone(),
            None => owned("<input>"),
        };
        match (self.line, self.column) {
            (Some(l), Some(c)) => {
                crate::text::push_text(&mut r, ":");
                crate::text::push_text(&mut r, &crate::text::usize_text(l));
                crate::text::push_text(&mut r, ":");
                crate::text::push_text(&mut r, &crate::text::usize_text(c));
            },
            (Some(l), None) => {
                crate::text::push_text(&mut r, ":");
                crate::text::push_text(&mut r, &crate::text::usize_text(l));
            },
            _ => {},
        }
        crate::text::push_text(&mut r, ": ");
        crate::text::push_text(&mut r, &self.message);
        r
    }
}

} // verus!

//! The markdown syntax tree the parser converts, as plain values.
//!
//! markdown-rs parses the MDX-syntax source; its tree comes back as
//! [`MdNode`], the library's own tree of the parts the converter reads.
use vstd::prelude::*;

use markdown::mdast;
use markdown::mdast::Node as SyntaxNode;
use markdown::message::Place;
use markdown::{Constructs, MdxSignal, ParseOptions};

verus! {

#[verifier::external_type_specification]
#[verifier::external_body]
pub struct ExMarkdownAttribute(mdast::AttributeContent);

#[verifier::external_type_specification]
#[verifier::external_body]
pub struct ExSyntaxNode(SyntaxNode);

/// A markdown-rs parse failure: its reason and where it points.
#[derive(Debug, Clone, PartialEq, Eq)]
pub struct MdMessage {
    pub reason: String,
    /// 1-based line and column of the start of the place, when known.
    pub point: Option<(usize, usize)>,
}

/// A JSX attribute value as written.
#[derive(Debug, Clone, PartialEq, Eq)]
pub enum MdAttrValue {
    /// `<X flag />`.
    Bare,
    /// `<X a="text" />`.
    Literal(String),
    /// `<X a={raw} />`, with the raw text between the braces.
    Expression(String),
}

/// A JSX attribute.
#[derive(Debug, Clone, PartialEq, Eq)]
pub enum MdAttr {
    /// `{...spread}`.
    Spread,
    Property(String, MdAttrValue),
}

/// The kind of a markdown node and what the converter reads of it.
#[derive(Debug, PartialEq, Eq)]
pub enum MdKind {
    Root(Vec<MdNode>),
    Heading(u8, Vec<MdNode>),
    Paragraph(Vec<MdNode>),
    Emphasis(Vec<MdNode>),
    Strong(Vec<MdNode>),
    Blockquote(Vec<MdNode>),
    ListItem(Vec<MdNode>),
    /// Ordered, start, items.
    List(bool, Option<u32>, Vec<MdNode>),
    Text(String),
    InlineCode(String),
    /// Fenced code: language and text.
    Code(Option<String>, String),
    /// URL, title, children.
    Link(String, Option<String>, Vec<MdNode>),
    /// URL, alt text, title.
    Image(String, String, Option<String>),
    ThematicBreak,
    Break,
    /// A JSX element (flow or text): name (none for a fragment), attributes,
    /// children.
    Jsx(Option<String>, Vec<MdAttr>, Vec<MdNode>),
    /// An `import`/`export` block, as written.
    Esm(String),
    /// A `{...}` expression (flow or text), as written between the braces.
    Expression(String),
    /// YAML frontmatter text.
    Yaml(String),
    /// TOML frontmatter.
    Toml,
    /// A definition, link reference or image reference.
    Reference,
    /// Any other construct.
    Other,
}

/// A markdown node: where it starts, and what it is.
#[derive(Debug, PartialEq, Eq)]
pub struct MdNode {
    /// 1-based line and column of the node's start, when known.
    pub point: Option<(usize, usize)>,
    pub kind: MdKind,
}

/// What markdown-rs makes of `source` with the options of
/// [`markdown_root`]: its tree, or its reason for rejecting the source and
/// where it points, as plain values.
pub uninterp spec fn md_parsed(source: Seq<char>) -> Result<MdNode, MdMessage>;

/// Calls `markdown::to_mdast` with the MDX constructs and YAML frontmatter
/// enabled; ESM blocks and expressions are accepted as written (the
/// converter reports them). The tree comes back as an [`MdNode`], variant
/// for variant; a failure keeps its reason and the start of its place.
/// The result is named [`md_parsed`] of the source: markdown-rs computes it
/// from the text and the options alone.
#[verifier::external_body]
pub(crate) fn markdown_root(source: &str) -> (r: Result<MdNode, MdMessage>)
    ensures
        r == md_parsed(source@),
{
    let options = ParseOptions {
        constructs: Constructs { frontmatter: true, ..Constructs::mdx() },
        mdx_esm_parse: Some(Box::new(|_| MdxSignal::Ok)),
        mdx_expression_parse: Some(Box::new(|_, _| MdxSignal::Ok)),
        ..ParseOptions::default()
    };
    markdown::to_mdast(source, &options).map(md_node).map_err(|m| MdMessage {
        point: match m.place.as_deref() {
            Some(Place::Position(p)) => Some((p.start.line, p.start.column)),
            Some(Place::Point(p)) => Some((p.line, p.column)),
            None => None,
        },
        reason: m.reason,
    })
}

/// A markdown-rs node and its subtree as an [`MdNode`]: the start of its
/// position, and its variant by [`block_kind`] and the functions it hands on
/// to.
#[verifier::external_body]
fn md_node(n: SyntaxNode) -> (r: MdNode) {
    let point = n.position().map(|p| (p.start.line, p.start.column));
    MdNode { point, kind: block_kind(n) }
}

/// Each node of a list, in order, by [`md_node`].
fn md_nodes(ns: Vec<SyntaxNode>) -> (r: Vec<MdNode>)
    ensures
        r@.len() == ns@.len(),
{
    let mut rest = ns;
    let mut back: Vec<SyntaxNode> = Vec::new();
    while rest.len() > 0
        invariant
            back@.len() + rest@.len() == ns@.len(),
        decreases rest@.len(),
    {
        let n = rest.pop().unwrap();
        back.push(n);
    }
    let mut r: Vec<MdNode> = Vec::new();
    while back.len() > 0
        invariant
            r@.len() + back@.len() == ns@.len(),
        decreases back@.len(),
    {
        let n = back.pop().unwrap();
        r.push(md_node(n));
    }
    r
}

/// The root and the block and emphasis parents, moving out their children;
/// other variants go on to [`container_kind`].
#[verifier::external_body]
fn block_kind(n: SyntaxNode) -> (r: MdKind) {
    match n {
        SyntaxNode::Root(x) => MdKind::Root(md_nodes(x.children)),
        SyntaxNode::Paragraph(x) => MdKind::Paragraph(md_nodes(x.children)),
        SyntaxNode::Emphasis(x) => MdKind::Emphasis(md_nodes(x.children)),
        SyntaxNode::Strong(x) => MdKind::Strong(md_nodes(x.children)),
        SyntaxNode::Blockquote(x) => MdKind::Blockquote(md_nodes(x.children)),
        other => container_kind(other),
    }
}

/// List items, headings, lists and links, moving out their fields and
/// children; other variants go on to [`element_kind`].
#[verifier::external_body]
fn container_kind(n: SyntaxNode) -> (r: MdKind) {
    match n {
        SyntaxNode::ListItem(x) => MdKind::ListItem(md_nodes(x.children)),
        SyntaxNode::Heading(x) => MdKind::Heading(x.depth, md_nodes(x.children)),
        SyntaxNode::List(x) => MdKind::List(x.ordered, x.start, md_nodes(x.children)),
        SyntaxNode::Link(x) => MdKind::Link(x.url, x.title, md_nodes(x.children)),
        other => element_kind(other),
    }
}

/// JSX elements, flow and text, moving out the name, the attributes and the
/// children; other variants go on to [`leaf_kind`].
#[verifier::external_body]
fn element_kind(n: SyntaxNode) -> (r: MdKind) {
    match n {
        SyntaxNode::MdxJsxFlowElement(x) => MdKind::Jsx(x.name, md_attrs(x.attributes), md_nodes(x.children)),
        SyntaxNode::MdxJsxTextElement(x) => MdKind::Jsx(x.name, md_attrs(x.attributes), md_nodes(x.children)),
        other => leaf_kind(other),
    }
}

/// The text-valued leaves, moving out the value; other variants go on to
/// [`mark_kind`].
#[verifier::external_body]
fn leaf_kind(n: SyntaxNode) -> (r: MdKind) {
    match n {
        SyntaxNode::Text(x) => MdKind::Text(x.value),
        SyntaxNode::InlineCode(x) => MdKind::InlineCode(x.value),
        SyntaxNode::MdxjsEsm(x) => MdKind::Esm(x.value),
        SyntaxNode::MdxFlowExpression(x) => MdKind::Expression(x.value),
        SyntaxNode::MdxTextExpression(x) => MdKind::Expression(x.value),
        SyntaxNode::Yaml(x) => MdKind::Yaml(x.value),
        other => mark_kind(other),
    }
}

/// Code, images, breaks and TOML, moving out their fields; other variants
/// go on to [`reference_kind`].
#[verifier::external_body]
fn mark_kind(n: SyntaxNode) -> (r: MdKind) {
    match n {
        SyntaxNode::Code(x) => MdKind::Code(x.lang, x.value),
        SyntaxNode::Image(x) => MdKind::Image(x.url, x.alt, x.title),
        SyntaxNode::ThematicBreak(_) => MdKind::ThematicBreak,
        SyntaxNode::Break(_) => MdKind::Break,
        SyntaxNode::Toml(_) => MdKind::Toml,
        other => reference_kind(other),
    }
}

/// Definitions and link and image references; every other variant is
/// [`MdKind::Other`].
#[verifier::external_body]
fn reference_kind(n: SyntaxNode) -> (r: MdKind) {
    match n {
        SyntaxNode::Definition(_) => MdKind::Reference,
        SyntaxNode::LinkReference(_) => MdKind::Reference,
        SyntaxNode::ImageReference(_) => MdKind::Reference,
        _ => MdKind::Other,
    }
}

/// Each JSX attribute, in order, by [`md_attr`].
fn md_attrs(attrs: Vec<mdast::AttributeContent>) -> (r: Vec<MdAttr>)
    ensures
        r@.len() == attrs@.len(),
{
    let mut rest = attrs;
    let mut back: Vec<mdast::AttributeContent> = Vec::new();
    while rest.len() > 0
        invariant
            back@.len() + rest@.len() == attrs@.len(),
        decreases rest@.len(),
    {
        let a = rest.pop().unwrap();
        back.push(a);
    }
    let mut r: Vec<MdAttr> = Vec::new();
    while back.len() > 0
        invariant
            r@.len() + back@.len() == attrs@.len(),
        decreases back@.len(),
    {
        let a = back.pop().unwrap();
        r.push(md_attr(a));
    }
    r
}

/// A JSX attribute: a spread, or a property with its value as written.
#[verifier::external_body]
fn md_attr(a: mdast::AttributeContent) -> (r: MdAttr) {
    match a {
        mdast::AttributeContent::Expression(_) => MdAttr::Spread,
        mdast::AttributeContent::Property(p) => MdAttr::Property(p.name, match p.value {
            None => MdAttrValue::Bare,
            Some(mdast::AttributeValue::Literal(s)) => MdAttrValue::Literal(s),
            Some(mdast::AttributeValue::Expression(e)) => MdAttrValue::Expression(e.value),
        }),
    }
}

} // verus!

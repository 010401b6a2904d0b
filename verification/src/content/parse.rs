//! Converts a post's markdown tree into the stored IR, reporting everything
//! outside the authoring subset — `import`/`export`, `{expressions}`,
//! non-literal props, reference-style links — as a diagnostic with a source
//! location, and, given a manifest, validating every component against it.
use vstd::prelude::*;

use super::frontmatter::{decode_frontmatter, frontmatter_fields, frontmatter_of};
use super::manifest::{
    component_index, prop_index, type_accepts, type_phrase, ComponentSpec, Manifest, PropSpec,
    PropType,
};
use super::numbers::{braced_number, reads_as_finite, reads_as_i64, NumberValue};
use super::strmap::{assoc_get, assoc_insert, lemma_map_entries_get, lemma_map_entries_insert};
use super::suggest::{suggest, suggestion};
use super::syntax::{markdown_root, md_parsed, MdAttr, MdAttrValue, MdKind, MdMessage, MdNode};
use super::{
    map_entries, node_view, nodes_view, opt_text, prop_view, string_view, Diagnostic, Document,
    Frontmatter, ListItem, Node, NodeV, PropValue, PropValueV, StrMap, SCHEMA_VERSION,
};
use crate::text::{
    chars_of, concat, concat3, has_prefix, owned, push_text, seq_eq, starts_with, string_of, trim,
    trim_chars, trim_start, trim_start_chars,
};

verus! {

/// A diagnostic as plain values: file, message, line, column.
pub open spec fn diag_view(d: Diagnostic) -> (Option<Seq<char>>, Seq<char>, Option<usize>, Option<usize>) {
    (opt_text(d.file), d.message@, d.line, d.column)
}

pub open spec fn diags_view(ds: Seq<Diagnostic>) -> Seq<(Option<Seq<char>>, Seq<char>, Option<usize>, Option<usize>)> {
    ds.map_values(|d: Diagnostic| diag_view(d))
}

/// A diagnostic with no file, at `point` when known.
pub open spec fn at(msg: Seq<char>, point: Option<(usize, usize)>) -> (Option<Seq<char>>, Seq<char>, Option<usize>, Option<usize>) {
    (
        None,
        msg,
        match point {
            Some(p) => Some(p.0),
            None => None,
        },
        match point {
            Some(p) => Some(p.1),
            None => None,
        },
    )
}

pub open spec fn opt_manifest(m: Option<&Manifest>) -> Option<Manifest> {
    match m {
        Some(x) => Some(*x),
        None => None,
    }
}

pub open spec fn bool_text(b: bool) -> Seq<char> {
    if b { "true"@ } else { "false"@ }
}

// ---- messages ----

pub open spec fn esm_message(value: Seq<char>) -> Seq<char> {
    let keyword = if has_prefix(trim_start(value), "export"@) { "export"@ } else { "import"@ };
    "`"@ + keyword + "` statements are not supported: posts are an MDX-syntax subset without JavaScript; component names resolve through the registry instead"@
}

pub open spec fn expression_message(value: Seq<char>) -> Seq<char> {
    "`{"@ + value + "}` is not supported: JS expressions are outside the authoring subset; props take scalar literals and rich content goes in children"@
}

pub open spec fn unsupported_message(k: MdKind) -> Seq<char> {
    if k is Reference {
        "reference-style links are outside the authoring subset; use inline `[text](url)` links"@
    } else {
        "this syntax is outside the authoring subset"@
    }
}

pub open spec fn fragment_message() -> Seq<char> {
    "JSX fragments (`<>…</>`) are not supported; use markdown or a named tag"@
}

pub open spec fn dotted_message(name: Seq<char>) -> Seq<char> {
    "`<"@ + name + ">` is not supported: component names are plain PascalCase identifiers resolved through the registry"@
}

pub open spec fn prop_spread_message(component: Seq<char>) -> Seq<char> {
    "`{...}` spread attributes on `<"@ + component
        + ">` are not supported: props must be named scalar literals"@
}

pub open spec fn attr_spread_message(tag: Seq<char>) -> Seq<char> {
    "`{...}` spread attributes on `<"@ + tag
        + ">` are not supported: HTML attributes must be string literals"@
}

pub open spec fn attr_expression_message(tag: Seq<char>, name: Seq<char>, value: Seq<char>) -> Seq<char> {
    "non-literal attribute `"@ + name + "={"@ + value + "}` on `<"@ + tag
        + ">`: HTML attributes must be string literals"@
}

pub open spec fn duplicate_attr_message(tag: Seq<char>, name: Seq<char>) -> Seq<char> {
    "duplicate attribute `"@ + name + "` on `<"@ + tag + ">`: an attribute may appear only once"@
}

pub open spec fn literal_message(component: Seq<char>, prop: Seq<char>, raw: Seq<char>) -> Seq<char> {
    let value = trim(raw);
    "non-literal prop `"@ + prop + "={"@ + raw + "}` on `<"@ + component
        + ">`: props must be scalar literals — a quoted string, a number, or true/false"@
        + if value.len() > 0 && (value[0] == '"' || value[0] == '\'') {
        "; for strings, drop the braces: prop=\"value\""@
    } else {
        ""@
    }
}

pub open spec fn unknown_component_message(name: Seq<char>, hint: Option<Seq<char>>) -> Seq<char> {
    "unknown component `<"@ + name + ">`"@ + match hint {
        Some(c) => "; did you mean `<"@ + c + ">`?"@,
        None => ": it is not in the component registry (see CONTENT.md for the vocabulary)"@,
    }
}

pub open spec fn missing_prop_message(name: Seq<char>, prop: Seq<char>, ty: PropType) -> Seq<char> {
    "`<"@ + name + ">` is missing required prop `"@ + prop + "` ("@ + type_phrase(ty) + ")"@
}

pub open spec fn unknown_prop_message(name: Seq<char>, prop: Seq<char>, hint: Option<Seq<char>>) -> Seq<char> {
    "unknown prop `"@ + prop + "` on `<"@ + name + ">`"@ + match hint {
        Some(c) => "; did you mean `"@ + c + "`?"@,
        None => ""@,
    }
}

/// A prop value as it would appear in source.
pub open spec fn show_value(v: PropValueV) -> Seq<char> {
    match v {
        PropValueV::String(s) => "`\""@ + s + "\"`"@,
        PropValueV::Number(t) => "`"@ + t + "`"@,
        PropValueV::Bool(b) => "`"@ + bool_text(b) + "`"@,
    }
}

/// Whether a quoted string would be a valid braced literal of `ty`.
pub open spec fn reads_as(ty: PropType, s: Seq<char>) -> bool {
    match ty {
        PropType::Int => reads_as_i64(s),
        PropType::Float => reads_as_finite(s),
        PropType::Bool => s == "true"@ || s == "false"@,
        PropType::String => false,
    }
}

/// The nudge for the two classic quoting mistakes.
pub open spec fn mismatch_hint(prop: Seq<char>, ty: PropType, v: PropValueV) -> Seq<char> {
    match (ty, v) {
        (PropType::String, PropValueV::Number(t)) => "; strings use quotes: "@ + prop + "=\""@ + t + "\""@,
        (PropType::String, PropValueV::Bool(b)) => "; strings use quotes: "@ + prop + "=\""@ + bool_text(b) + "\""@,
        (_, PropValueV::String(s)) => if reads_as(ty, s) {
            "; numbers and booleans use braces: "@ + prop + "={"@ + s + "}"@
        } else {
            ""@
        },
        _ => ""@,
    }
}

pub open spec fn mismatch_message(name: Seq<char>, prop: Seq<char>, ty: PropType, v: PropValueV) -> Seq<char> {
    "prop `"@ + prop + "` on `<"@ + name + ">` expects "@ + type_phrase(ty) + ", got "@ + show_value(v)
        + mismatch_hint(prop, ty, v)
}

pub open spec fn children_message(name: Seq<char>) -> Seq<char> {
    "`<"@ + name + ">` does not accept children"@
}

pub open spec fn missing_frontmatter_message() -> Seq<char> {
    "missing frontmatter: posts must start with `---` YAML frontmatter declaring at least `title` and `date`"@
}

pub open spec fn toml_message() -> Seq<char> {
    "frontmatter must be YAML (`---` fences), not TOML"@
}

// ---- conversion ----

/// A braced prop value: `true`, `false`, or a finite number literal.
pub open spec fn scalar_value(raw: Seq<char>) -> Option<PropValueV> {
    let value = trim(raw);
    if value == "true"@ {
        Some(PropValueV::Bool(true))
    } else if value == "false"@ {
        Some(PropValueV::Bool(false))
    } else {
        match braced_number(value) {
            Some(t) => Some(PropValueV::Number(t)),
            None => None,
        }
    }
}

/// A component's props, later ones replacing earlier ones of the same
/// name, and the diagnostics for attributes that are not scalar literals.
pub open spec fn conv_props(component: Seq<char>, attrs: Seq<MdAttr>, point: Option<(usize, usize)>)
    -> (Seq<(Seq<char>, PropValueV)>, Seq<(Option<Seq<char>>, Seq<char>, Option<usize>, Option<usize>)>)
    decreases attrs.len(),
{
    if attrs.len() == 0 {
        (Seq::empty(), Seq::empty())
    } else {
        let (m, ds) = conv_props(component, attrs.drop_last(), point);
        match attrs.last() {
            MdAttr::Spread => (m, ds.push(at(prop_spread_message(component), point))),
            MdAttr::Property(name, MdAttrValue::Bare) => (assoc_insert(m, name@, PropValueV::Bool(true)), ds),
            MdAttr::Property(name, MdAttrValue::Literal(s)) => (assoc_insert(m, name@, PropValueV::String(s@)), ds),
            MdAttr::Property(name, MdAttrValue::Expression(e)) => match scalar_value(e@) {
                Some(v) => (assoc_insert(m, name@, v), ds),
                None => (m, ds.push(at(literal_message(component, name@, e@), point))),
            },
        }
    }
}

/// An HTML tag's attributes (a bare attribute is empty text), and the
/// diagnostics for spreads, expressions and repeated names.
pub open spec fn conv_attrs(tag: Seq<char>, attrs: Seq<MdAttr>, point: Option<(usize, usize)>)
    -> (Seq<(Seq<char>, Seq<char>)>, Seq<(Option<Seq<char>>, Seq<char>, Option<usize>, Option<usize>)>)
    decreases attrs.len(),
{
    if attrs.len() == 0 {
        (Seq::empty(), Seq::empty())
    } else {
        let (m, ds) = conv_attrs(tag, attrs.drop_last(), point);
        match attrs.last() {
            MdAttr::Spread => (m, ds.push(at(attr_spread_message(tag), point))),
            MdAttr::Property(name, MdAttrValue::Expression(e)) => (m, ds.push(at(attr_expression_message(tag, name@, e@), point))),
            MdAttr::Property(name, value) => {
                let text = match value {
                    MdAttrValue::Literal(s) => s@,
                    _ => Seq::empty(),
                };
                if assoc_get(m, name@) is Some {
                    (m, ds.push(at(duplicate_attr_message(tag, name@), point)))
                } else {
                    (assoc_insert(m, name@, text), ds)
                }
            },
        }
    }
}

pub open spec fn component_names(cs: Seq<ComponentSpec>) -> Seq<Seq<char>> {
    cs.map_values(|c: ComponentSpec| c.name@)
}

pub open spec fn prop_names(ps: Seq<PropSpec>) -> Seq<Seq<char>> {
    ps.map_values(|p: PropSpec| p.name@)
}

/// Required props that are absent, in declaration order.
pub open spec fn missing_props(name: Seq<char>, ps: Seq<PropSpec>, props: Seq<(Seq<char>, PropValueV)>, point: Option<(usize, usize)>)
    -> Seq<(Option<Seq<char>>, Seq<char>, Option<usize>, Option<usize>)>
    decreases ps.len(),
{
    if ps.len() == 0 {
        Seq::empty()
    } else {
        let rest = missing_props(name, ps.drop_last(), props, point);
        let p = ps.last();
        if p.required && assoc_get(props, p.name@) is None {
            rest.push(at(missing_prop_message(name, p.name@, p.ty), point))
        } else {
            rest
        }
    }
}

/// Unknown and mistyped props, in key order.
pub open spec fn checked_props(name: Seq<char>, spec: ComponentSpec, props: Seq<(Seq<char>, PropValueV)>, point: Option<(usize, usize)>)
    -> Seq<(Option<Seq<char>>, Seq<char>, Option<usize>, Option<usize>)>
    decreases props.len(),
{
    if props.len() == 0 {
        Seq::empty()
    } else {
        let rest = checked_props(name, spec, props.drop_last(), point);
        let (p, v) = props.last();
        match prop_index(spec.props@, p) {
            None => rest.push(at(unknown_prop_message(name, p, suggestion(p, prop_names(spec.props@))), point)),
            Some(j) => if !type_accepts(spec.props@[j].ty, v) {
                rest.push(at(mismatch_message(name, p, spec.props@[j].ty, v), point))
            } else {
                rest
            },
        }
    }
}

/// Manifest validation of one component invocation; nothing without a
/// manifest.
pub open spec fn validate(m: Option<Manifest>, name: Seq<char>, props: Seq<(Seq<char>, PropValueV)>, has_children: bool, point: Option<(usize, usize)>)
    -> Seq<(Option<Seq<char>>, Seq<char>, Option<usize>, Option<usize>)>
{
    match m {
        None => Seq::empty(),
        Some(man) => match component_index(man.components@, name) {
            None => seq![at(unknown_component_message(name, suggestion(name, component_names(man.components@))), point)],
            Some(i) => {
                let spec = man.components@[i];
                missing_props(name, spec.props@, props, point) + checked_props(name, spec, props, point)
                    + if has_children && !spec.accepts_children {
                    seq![at(children_message(name), point)]
                } else {
                    Seq::empty()
                }
            },
        },
    }
}

pub open spec fn is_ascii_upper(c: char) -> bool {
    'A' <= c && c <= 'Z'
}

/// A JSX element, given its converted children: fragments and dotted names
/// are rejected; a capitalized name is a component, anything else HTML.
pub open spec fn conv_jsx(
    name: Option<String>,
    attrs: Seq<MdAttr>,
    kids: (Seq<NodeV>, Seq<(Option<Seq<char>>, Seq<char>, Option<usize>, Option<usize>)>),
    point: Option<(usize, usize)>,
    m: Option<Manifest>,
) -> (Option<NodeV>, Seq<(Option<Seq<char>>, Seq<char>, Option<usize>, Option<usize>)>) {
    match name {
        None => (None, seq![at(fragment_message(), point)]),
        Some(n) => if n@.contains('.') || n@.contains(':') {
            (None, seq![at(dotted_message(n@), point)])
        } else if n@.len() > 0 && is_ascii_upper(n@[0]) {
            let (props, dp) = conv_props(n@, attrs, point);
            (
                Some(NodeV::Component(n@, props, kids.0)),
                dp + kids.1 + validate(m, n@, props, kids.0.len() > 0, point),
            )
        } else {
            let (a, da) = conv_attrs(n@, attrs, point);
            (Some(NodeV::Html(n@, a, kids.0)), da + kids.1)
        },
    }
}

/// One markdown node: the IR node it becomes, if any, and its diagnostics.
pub open spec fn conv_node(n: MdNode, m: Option<Manifest>)
    -> (Option<NodeV>, Seq<(Option<Seq<char>>, Seq<char>, Option<usize>, Option<usize>)>)
    decreases n,
{
    match n.kind {
        MdKind::Heading(d, ch) => {
            let (c, ds) = conv_nodes(ch@, m);
            (Some(NodeV::Heading(d, c)), ds)
        },
        MdKind::Paragraph(ch) => {
            let (c, ds) = conv_nodes(ch@, m);
            (Some(NodeV::Paragraph(c)), ds)
        },
        MdKind::Emphasis(ch) => {
            let (c, ds) = conv_nodes(ch@, m);
            (Some(NodeV::Emphasis(c)), ds)
        },
        MdKind::Strong(ch) => {
            let (c, ds) = conv_nodes(ch@, m);
            (Some(NodeV::Strong(c)), ds)
        },
        MdKind::Blockquote(ch) => {
            let (c, ds) = conv_nodes(ch@, m);
            (Some(NodeV::Blockquote(c)), ds)
        },
        MdKind::Text(v) => (Some(NodeV::Text(v@)), Seq::empty()),
        MdKind::InlineCode(v) => (Some(NodeV::InlineCode(v@)), Seq::empty()),
        MdKind::Link(url, title, ch) => {
            let (c, ds) = conv_nodes(ch@, m);
            (Some(NodeV::Link(url@, opt_text(title), c)), ds)
        },
        MdKind::Image(url, alt, title) => (Some(NodeV::Image(url@, alt@, opt_text(title))), Seq::empty()),
        MdKind::List(ordered, start, ch) => {
            let (items, ds) = conv_items(ch@, m);
            (Some(NodeV::List(ordered, start, items)), ds)
        },
        MdKind::Code(lang, v) => (Some(NodeV::CodeBlock(opt_text(lang), v@)), Seq::empty()),
        MdKind::ThematicBreak => (Some(NodeV::ThematicBreak), Seq::empty()),
        MdKind::Break => (Some(NodeV::Break), Seq::empty()),
        MdKind::Jsx(name, attrs, ch) => conv_jsx(name, attrs@, conv_nodes(ch@, m), n.point, m),
        MdKind::Esm(v) => (None, seq![at(esm_message(v@), n.point)]),
        MdKind::Expression(v) => (None, seq![at(expression_message(v@), n.point)]),
        _ => (None, seq![at(unsupported_message(n.kind), n.point)]),
    }
}

/// Converting a markdown node keeps its kind and what it says of itself:
/// a heading its depth, text and inline code their text, a link its URL and
/// title, an image its URL, alt text and title, a list whether it is
/// numbered and where it starts, a code block its language and text. Nodes
/// of these kinds always convert.
pub proof fn law_conversion_keeps_node_data(n: MdNode, m: Option<Manifest>)
    ensures
        match n.kind {
            MdKind::Heading(d, _) => conv_node(n, m).0 matches Some(NodeV::Heading(e, _)) && e == d,
            MdKind::Paragraph(_) => conv_node(n, m).0 matches Some(NodeV::Paragraph(_)),
            MdKind::Emphasis(_) => conv_node(n, m).0 matches Some(NodeV::Emphasis(_)),
            MdKind::Strong(_) => conv_node(n, m).0 matches Some(NodeV::Strong(_)),
            MdKind::Blockquote(_) => conv_node(n, m).0 matches Some(NodeV::Blockquote(_)),
            MdKind::Text(v) => conv_node(n, m).0 == Some(NodeV::Text(v@)),
            MdKind::InlineCode(v) => conv_node(n, m).0 == Some(NodeV::InlineCode(v@)),
            MdKind::Link(u, t, _) => conv_node(n, m).0 matches Some(NodeV::Link(u2, t2, _)) && u2 == u@ && t2 == opt_text(t),
            MdKind::Image(u, a, t) => conv_node(n, m).0 == Some(NodeV::Image(u@, a@, opt_text(t))),
            MdKind::List(o, st, _) => conv_node(n, m).0 matches Some(NodeV::List(o2, st2, _)) && o2 == o && st2 == st,
            MdKind::Code(l, v) => conv_node(n, m).0 == Some(NodeV::CodeBlock(opt_text(l), v@)),
            MdKind::ThematicBreak => conv_node(n, m).0 == Some(NodeV::ThematicBreak),
            MdKind::Break => conv_node(n, m).0 == Some(NodeV::Break),
            _ => true,
        },
{
}

/// A run of sibling nodes: the converted ones in order, and all
/// diagnostics in order.
pub open spec fn conv_nodes(ns: Seq<MdNode>, m: Option<Manifest>)
    -> (Seq<NodeV>, Seq<(Option<Seq<char>>, Seq<char>, Option<usize>, Option<usize>)>)
    decreases ns,
{
    if ns.len() == 0 {
        (Seq::empty(), Seq::empty())
    } else {
        let (a, da) = conv_nodes(ns.drop_last(), m);
        let (o, d) = conv_node(ns.last(), m);
        (
            match o {
                Some(x) => a.push(x),
                None => a,
            },
            da + d,
        )
    }
}

/// A list's children: each list item's converted children; anything else
/// is reported.
pub open spec fn conv_items(ns: Seq<MdNode>, m: Option<Manifest>)
    -> (Seq<Seq<NodeV>>, Seq<(Option<Seq<char>>, Seq<char>, Option<usize>, Option<usize>)>)
    decreases ns,
{
    if ns.len() == 0 {
        (Seq::empty(), Seq::empty())
    } else {
        let (a, da) = conv_items(ns.drop_last(), m);
        let last = ns.last();
        match last.kind {
            MdKind::ListItem(ch) => {
                let (c, d) = conv_nodes(ch@, m);
                (a.push(c), da + d)
            },
            _ => (a, da.push(at(unsupported_message(last.kind), last.point))),
        }
    }
}

// ---- the converter ----

fn push_diag(diags: &mut Vec<Diagnostic>, message: String, point: Option<(usize, usize)>)
    ensures
        diags_view(final(diags)@) == diags_view(old(diags)@).push(at(message@, point)),
{
    let (line, column) = match point {
        Some(p) => (Some(p.0), Some(p.1)),
        None => (None, None),
    };
    diags.push(Diagnostic { message, file: None, line, column });
    assert(diags_view(diags@) =~= diags_view(old(diags)@).push(at(message@, point)));
}

fn esm_text(value: &str) -> (r: String)
    ensures
        r@ == esm_message(value@),
{
    let v = chars_of(value);
    let t = trim_start_chars(&v);
    let export = chars_of("export");
    let keyword = if starts_with(&t, &export) { "export" } else { "import" };
    let mut r = concat3("`", keyword, "` statements are not supported: posts are an MDX-syntax subset without JavaScript; component names resolve through the registry instead");
    r
}

fn expression_text(value: &str) -> (r: String)
    ensures
        r@ == expression_message(value@),
{
    concat3("`{", value, "}` is not supported: JS expressions are outside the authoring subset; props take scalar literals and rich content goes in children")
}

fn wrap(a: &str, x: &str, b: &str, y: &str, c: &str) -> (r: String)
    ensures
        r@ == a@ + x@ + b@ + y@ + c@,
{
    let mut r = concat3(a, x, b);
    push_text(&mut r, y);
    push_text(&mut r, c);
    r
}

/// A braced prop value, when it is a scalar literal.
fn scalar(raw: &str) -> (r: Option<PropValue>)
    ensures
        match scalar_value(raw@) {
            Some(v) => r matches Some(x) && x@ == v,
            None => r is None,
        },
{
    let c = chars_of(raw);
    let value = trim_chars(&c);
    let t = chars_of("true");
    let f = chars_of("false");
    if seq_eq(&value, &t) {
        Some(PropValue::Bool(true))
    } else if seq_eq(&value, &f) {
        Some(PropValue::Bool(false))
    } else {
        let text = string_of(&value);
        match NumberValue::parse(&text) {
            Some(n) => Some(PropValue::Number(n)),
            None => None,
        }
    }
}

fn literal_text(component: &str, prop: &str, raw: &str) -> (r: String)
    ensures
        r@ == literal_message(component@, prop@, raw@),
{
    let c = chars_of(raw);
    let value = trim_chars(&c);
    let mut r = wrap("non-literal prop `", prop, "={", raw, "}` on `<");
    push_text(&mut r, component);
    push_text(&mut r, ">`: props must be scalar literals — a quoted string, a number, or true/false");
    if value.len() > 0 && (value[0] == '"' || value[0] == '\'') {
        push_text(&mut r, "; for strings, drop the braces: prop=\"value\"");
    } else {
        push_text(&mut r, "");
    }
    r
}

fn convert_props(component: &str, attrs: &Vec<MdAttr>, point: Option<(usize, usize)>, diags: &mut Vec<Diagnostic>)
    -> (r: StrMap<PropValue>)
    ensures
        r.wf(),
        map_entries(r@, |v: PropValue| prop_view(v)) == conv_props(component@, attrs@, point).0,
        diags_view(final(diags)@) == diags_view(old(diags)@) + conv_props(component@, attrs@, point).1,
{
    let mut m: StrMap<PropValue> = StrMap::new();
    let mut i: usize = 0;
    assert(diags_view(diags@) =~= diags_view(old(diags)@) + conv_props(component@, attrs@.take(0), point).1);
    while i < attrs.len()
        invariant
            i <= attrs@.len(),
            m.wf(),
            map_entries(m@, |v: PropValue| prop_view(v)) == conv_props(component@, attrs@.take(i as int), point).0,
            diags_view(diags@) == diags_view(old(diags)@) + conv_props(component@, attrs@.take(i as int), point).1,
        decreases attrs@.len() - i,
    {
        let ghost before = diags_view(diags@);
        let ghost prev = conv_props(component@, attrs@.take(i as int), point);
        assert(attrs@.take(i + 1).drop_last() =~= attrs@.take(i as int));
        assert(attrs@.take(i + 1).last() == attrs@[i as int]);
        match &attrs[i] {
            MdAttr::Spread => {
                let msg = concat3("`{...}` spread attributes on `<", component, ">` are not supported: props must be named scalar literals");
                push_diag(diags, msg, point);
                assert(diags_view(diags@) =~= diags_view(old(diags)@) + prev.1.push(at(prop_spread_message(component@), point)));
            },
            MdAttr::Property(name, value) => {
                match value {
                    MdAttrValue::Bare => {
                        proof { lemma_map_entries_insert(m@, name@, PropValue::Bool(true), |v: PropValue| prop_view(v)); }
                        m.insert(name.clone(), PropValue::Bool(true));
                    },
                    MdAttrValue::Literal(s) => {
                        let v = PropValue::String(s.clone());
                        proof { lemma_map_entries_insert(m@, name@, v, |v: PropValue| prop_view(v)); }
                        m.insert(name.clone(), v);
                    },
                    MdAttrValue::Expression(e) => {
                        match scalar(e) {
                            Some(v) => {
                                proof { lemma_map_entries_insert(m@, name@, v, |v: PropValue| prop_view(v)); }
                                m.insert(name.clone(), v);
                            },
                            None => {
                                let msg = literal_text(component, name, e);
                                push_diag(diags, msg, point);
                                assert(diags_view(diags@) =~= diags_view(old(diags)@) + prev.1.push(at(literal_message(component@, name@, e@), point)));
                            },
                        }
                    },
                }
            },
        }
        i += 1;
    }
    assert(attrs@.take(attrs@.len() as int) =~= attrs@);
    m
}

fn convert_attrs(tag: &str, attrs: &Vec<MdAttr>, point: Option<(usize, usize)>, diags: &mut Vec<Diagnostic>)
    -> (r: StrMap<String>)
    ensures
        r.wf(),
        map_entries(r@, |v: String| string_view(v)) == conv_attrs(tag@, attrs@, point).0,
        diags_view(final(diags)@) == diags_view(old(diags)@) + conv_attrs(tag@, attrs@, point).1,
{
    let mut m: StrMap<String> = StrMap::new();
    let mut i: usize = 0;
    assert(diags_view(diags@) =~= diags_view(old(diags)@) + conv_attrs(tag@, attrs@.take(0), point).1);
    while i < attrs.len()
        invariant
            i <= attrs@.len(),
            m.wf(),
            map_entries(m@, |v: String| string_view(v)) == conv_attrs(tag@, attrs@.take(i as int), point).0,
            diags_view(diags@) == diags_view(old(diags)@) + conv_attrs(tag@, attrs@.take(i as int), point).1,
        decreases attrs@.len() - i,
    {
        let ghost prev = conv_attrs(tag@, attrs@.take(i as int), point);
        assert(attrs@.take(i + 1).drop_last() =~= attrs@.take(i as int));
        assert(attrs@.take(i + 1).last() == attrs@[i as int]);
        match &attrs[i] {
            MdAttr::Spread => {
                let msg = concat3("`{...}` spread attributes on `<", tag, ">` are not supported: HTML attributes must be string literals");
                push_diag(diags, msg, point);
                assert(diags_view(diags@) =~= diags_view(old(diags)@) + prev.1.push(at(attr_spread_message(tag@), point)));
            },
            MdAttr::Property(name, MdAttrValue::Expression(e)) => {
                let msg = wrap("non-literal attribute `", name, "={", e, "}` on `<");
                let mut msg = msg;
                push_text(&mut msg, tag);
                push_text(&mut msg, ">`: HTML attributes must be string literals");
                push_diag(diags, msg, point);
                assert(diags_view(diags@) =~= diags_view(old(diags)@) + prev.1.push(at(attr_expression_message(tag@, name@, e@), point)));
            },
            MdAttr::Property(name, value) => {
                let text = match value {
                    MdAttrValue::Literal(s) => s.clone(),
                    _ => String::new(),
                };
                proof {
                    lemma_map_entries_get(m@, name@, |v: String| string_view(v));
                }
                if m.contains_key(name) {
                    let msg = wrap("duplicate attribute `", name, "` on `<", tag, ">`: an attribute may appear only once");
                    push_diag(diags, msg, point);
                    assert(diags_view(diags@) =~= diags_view(old(diags)@) + prev.1.push(at(duplicate_attr_message(tag@, name@), point)));
                } else {
                    proof { lemma_map_entries_insert(m@, name@, text, |v: String| string_view(v)); }
                    m.insert(name.clone(), text);
                }
            },
        }
        i += 1;
    }
    assert(attrs@.take(attrs@.len() as int) =~= attrs@);
    m
}

fn bool_word(b: bool) -> (r: &'static str)
    ensures
        r@ == bool_text(b),
{
    if b { "true" } else { "false" }
}

fn show_text(v: &PropValue) -> (r: String)
    ensures
        r@ == show_value(v@),
{
    match v {
        PropValue::String(s) => concat3("`\"", s, "\"`"),
        PropValue::Number(n) => concat3("`", n.text(), "`"),
        PropValue::Bool(b) => concat3("`", bool_word(*b), "`"),
    }
}

fn reads_as_text(ty: PropType, s: &str) -> (r: bool)
    ensures
        r == reads_as(ty, s@),
{
    match ty {
        PropType::Int => super::numbers::reads_as_int(s),
        PropType::Float => super::numbers::reads_as_double(s),
        PropType::Bool => crate::text::text_eq(s, "true") || crate::text::text_eq(s, "false"),
        PropType::String => false,
    }
}

fn hint_text(prop: &str, ty: PropType, v: &PropValue) -> (r: String)
    ensures
        r@ == mismatch_hint(prop@, ty, v@),
{
    match (ty, v) {
        (PropType::String, PropValue::Number(n)) => wrap("; strings use quotes: ", prop, "=\"", n.text(), "\""),
        (PropType::String, PropValue::Bool(b)) => wrap("; strings use quotes: ", prop, "=\"", bool_word(*b), "\""),
        (_, PropValue::String(s)) => {
            if reads_as_text(ty, s) {
                wrap("; numbers and booleans use braces: ", prop, "={", s, "}")
            } else {
                owned("")
            }
        },
        _ => owned(""),
    }
}

fn mismatch_text(name: &str, prop: &str, ty: PropType, v: &PropValue) -> (r: String)
    ensures
        r@ == mismatch_message(name@, prop@, ty, v@),
{
    let mut r = wrap("prop `", prop, "` on `<", name, ">` expects ");
    push_text(&mut r, ty.describe());
    push_text(&mut r, ", got ");
    push_text(&mut r, &show_text(v));
    push_text(&mut r, &hint_text(prop, ty, v));
    r
}

fn check_missing(name: &str, spec: &ComponentSpec, props: &StrMap<PropValue>, point: Option<(usize, usize)>, diags: &mut Vec<Diagnostic>)
    ensures
        diags_view(final(diags)@) == diags_view(old(diags)@)
            + missing_props(name@, spec.props@, map_entries(props@, |v: PropValue| prop_view(v)), point),
{
    let ghost pv = map_entries(props@, |v: PropValue| prop_view(v));
    let mut i: usize = 0;
    assert(diags_view(diags@) =~= diags_view(old(diags)@) + missing_props(name@, spec.props@.take(0), pv, point));
    while i < spec.props.len()
        invariant
            i <= spec.props@.len(),
            pv == map_entries(props@, |v: PropValue| prop_view(v)),
            diags_view(diags@) == diags_view(old(diags)@) + missing_props(name@, spec.props@.take(i as int), pv, point),
        decreases spec.props@.len() - i,
    {
        let ghost prev = missing_props(name@, spec.props@.take(i as int), pv, point);
        assert(spec.props@.take(i + 1).drop_last() =~= spec.props@.take(i as int));
        assert(spec.props@.take(i + 1).last() == spec.props@[i as int]);
        let p = &spec.props[i];
        proof {
            lemma_map_entries_get(props@, p.name@, |v: PropValue| prop_view(v));
        }
        if p.required && !props.contains_key(&p.name) {
            let mut msg = wrap("`<", name, ">` is missing required prop `", &p.name, "` (");
            push_text(&mut msg, p.ty.describe());
            push_text(&mut msg, ")");
            push_diag(diags, msg, point);
            assert(diags_view(diags@) =~= diags_view(old(diags)@) + prev.push(at(missing_prop_message(name@, p.name@, p.ty), point)));
        }
        i += 1;
    }
    assert(spec.props@.take(spec.props@.len() as int) =~= spec.props@);
}

fn check_props(name: &str, spec: &ComponentSpec, props: &StrMap<PropValue>, point: Option<(usize, usize)>, diags: &mut Vec<Diagnostic>)
    ensures
        diags_view(final(diags)@) == diags_view(old(diags)@)
            + checked_props(name@, *spec, map_entries(props@, |v: PropValue| prop_view(v)), point),
{
    let ghost pv = map_entries(props@, |v: PropValue| prop_view(v));
    let names = spec.prop_names();
    assert(super::suggest::strs_view(names@) =~= prop_names(spec.props@));
    let mut i: usize = 0;
    assert(diags_view(diags@) =~= diags_view(old(diags)@) + checked_props(name@, *spec, pv.take(0), point));
    while i < props.len()
        invariant
            i <= props@.len(),
            pv == map_entries(props@, |v: PropValue| prop_view(v)),
            super::suggest::strs_view(names@) == prop_names(spec.props@),
            diags_view(diags@) == diags_view(old(diags)@) + checked_props(name@, *spec, pv.take(i as int), point),
        decreases props@.len() - i,
    {
        let ghost prev = checked_props(name@, *spec, pv.take(i as int), point);
        assert(pv.take(i + 1).drop_last() =~= pv.take(i as int));
        assert(pv.take(i + 1).last() == pv[i as int]);
        let (pname, value) = props.entry(i);
        assert(pv[i as int] == (pname@, value@));
        match spec.prop(pname) {
            None => {
                let mut msg = wrap("unknown prop `", pname, "` on `<", name, ">`");
                match suggest(pname, &names) {
                    Some(c) => {
                        push_text(&mut msg, &concat3("; did you mean `", c, "`?"));
                    },
                    None => {
                        push_text(&mut msg, "");
                    },
                }
                push_diag(diags, msg, point);
                assert(diags_view(diags@) =~= diags_view(old(diags)@) + prev.push(at(unknown_prop_message(name@, pname@, suggestion(pname@, prop_names(spec.props@))), point)));
            },
            Some(ps) => {
                if !ps.ty.matches(value) {
                    let msg = mismatch_text(name, pname, ps.ty, value);
                    push_diag(diags, msg, point);
                    assert(diags_view(diags@) =~= diags_view(old(diags)@) + prev.push(at(mismatch_message(name@, pname@, ps.ty, value@), point)));
                }
            },
        }
        i += 1;
    }
    assert(pv.take(props@.len() as int) =~= pv);
}

fn validate_component(
    m: Option<&Manifest>,
    name: &str,
    props: &StrMap<PropValue>,
    has_children: bool,
    point: Option<(usize, usize)>,
    diags: &mut Vec<Diagnostic>,
)
    ensures
        diags_view(final(diags)@) == diags_view(old(diags)@)
            + validate(opt_manifest(m), name@, map_entries(props@, |v: PropValue| prop_view(v)), has_children, point),
{
    let manifest = match m {
        None => {
            assert(diags_view(diags@) =~= diags_view(old(diags)@) + Seq::empty());
            return;
        },
        Some(x) => x,
    };
    match manifest.get(name) {
        None => {
            let names = manifest.names();
            assert(super::suggest::strs_view(names@) =~= component_names(manifest.components@));
            let mut msg = concat3("unknown component `<", name, ">`");
            match suggest(name, &names) {
                Some(c) => push_text(&mut msg, &concat3("; did you mean `<", c, ">`?")),
                None => push_text(&mut msg, ": it is not in the component registry (see CONTENT.md for the vocabulary)"),
            }
            push_diag(diags, msg, point);
            assert(diags_view(diags@) =~= diags_view(old(diags)@) + seq![at(unknown_component_message(name@, suggestion(name@, component_names(manifest.components@))), point)]);
        },
        Some(spec) => {
            let ghost d0 = diags_view(diags@);
            check_missing(name, spec, props, point, diags);
            check_props(name, spec, props, point, diags);
            let ghost d2 = diags_view(diags@);
            if has_children && !spec.accepts_children {
                let msg = concat3("`<", name, ">` does not accept children");
                push_diag(diags, msg, point);
            }
            assert(diags_view(diags@) =~= diags_view(old(diags)@)
                + validate(opt_manifest(m), name@, map_entries(props@, |v: PropValue| prop_view(v)), has_children, point));
        },
    }
}

fn unsupported_text(k: &MdKind) -> (r: String)
    ensures
        r@ == unsupported_message(*k),
{
    match k {
        MdKind::Reference => owned("reference-style links are outside the authoring subset; use inline `[text](url)` links"),
        _ => owned("this syntax is outside the authoring subset"),
    }
}

fn convert_jsx(
    name: &Option<String>,
    attrs: &Vec<MdAttr>,
    children: &Vec<MdNode>,
    point: Option<(usize, usize)>,
    m: Option<&Manifest>,
    diags: &mut Vec<Diagnostic>,
) -> (r: Option<Node>)
    ensures
        match conv_jsx(*name, attrs@, conv_nodes(children@, opt_manifest(m)), point, opt_manifest(m)).0 {
            Some(v) => r matches Some(x) && node_view(x) == v,
            None => r is None,
        },
        diags_view(final(diags)@) == diags_view(old(diags)@)
            + conv_jsx(*name, attrs@, conv_nodes(children@, opt_manifest(m)), point, opt_manifest(m)).1,
    decreases children@, 1nat,
{
    let n = match name {
        None => {
            push_diag(diags, owned("JSX fragments (`<>…</>`) are not supported; use markdown or a named tag"), point);
            assert(diags_view(diags@) =~= diags_view(old(diags)@) + seq![at(fragment_message(), point)]);
            return None;
        },
        Some(n) => n,
    };
    let nc = chars_of(n);
    if crate::text::contains_char(&nc, '.') || crate::text::contains_char(&nc, ':') {
        push_diag(diags, concat3("`<", n, ">` is not supported: component names are plain PascalCase identifiers resolved through the registry"), point);
        assert(diags_view(diags@) =~= diags_view(old(diags)@) + seq![at(dotted_message(n@), point)]);
        return None;
    }
    let ghost kids = conv_nodes(children@, opt_manifest(m));
    if nc.len() > 0 && 'A' <= nc[0] && nc[0] <= 'Z' {
        let props = convert_props(n, attrs, point, diags);
        let kids_out = convert_nodes(children, m, diags);
        let has_children = kids_out.len() > 0;
        proof {
            lemma_nodes_view_len(kids_out@);
        }
        validate_component(m, n, &props, has_children, point, diags);
        let ghost d = diags_view(diags@);
        assert(d =~= diags_view(old(diags)@) + conv_jsx(*name, attrs@, kids, point, opt_manifest(m)).1);
        Some(Node::Component { name: n.clone(), props, children: kids_out })
    } else {
        let a = convert_attrs(n, attrs, point, diags);
        let kids_out = convert_nodes(children, m, diags);
        assert(diags_view(diags@) =~= diags_view(old(diags)@) + conv_jsx(*name, attrs@, kids, point, opt_manifest(m)).1);
        Some(Node::Html { tag: n.clone(), attrs: a, children: kids_out })
    }
}

proof fn lemma_nodes_view_len(s: Seq<Node>)
    ensures
        nodes_view(s).len() == s.len(),
    decreases s.len(),
{
    if s.len() > 0 {
        lemma_nodes_view_len(s.drop_last());
    }
}

fn convert_node(n: &MdNode, m: Option<&Manifest>, diags: &mut Vec<Diagnostic>) -> (r: Option<Node>)
    ensures
        match conv_node(*n, opt_manifest(m)).0 {
            Some(v) => r matches Some(x) && node_view(x) == v,
            None => r is None,
        },
        diags_view(final(diags)@) == diags_view(old(diags)@) + conv_node(*n, opt_manifest(m)).1,
    decreases *n, 2nat,
{
    match &n.kind {
        MdKind::Heading(d, ch) => {
            let c = convert_nodes(ch, m, diags);
            Some(Node::Heading { level: *d, children: c })
        },
        MdKind::Paragraph(ch) => {
            let c = convert_nodes(ch, m, diags);
            Some(Node::Paragraph { children: c })
        },
        MdKind::Emphasis(ch) => {
            let c = convert_nodes(ch, m, diags);
            Some(Node::Emphasis { children: c })
        },
        MdKind::Strong(ch) => {
            let c = convert_nodes(ch, m, diags);
            Some(Node::Strong { children: c })
        },
        MdKind::Blockquote(ch) => {
            let c = convert_nodes(ch, m, diags);
            Some(Node::Blockquote { children: c })
        },
        MdKind::Text(v) => {
            assert(diags_view(diags@) =~= diags_view(old(diags)@) + Seq::empty());
            Some(Node::Text { value: v.clone() })
        },
        MdKind::InlineCode(v) => {
            assert(diags_view(diags@) =~= diags_view(old(diags)@) + Seq::empty());
            Some(Node::InlineCode { value: v.clone() })
        },
        MdKind::Link(url, title, ch) => {
            let c = convert_nodes(ch, m, diags);
            Some(Node::Link { url: url.clone(), title: crate::text::copy_opt(title), children: c })
        },
        MdKind::Image(url, alt, title) => {
            assert(diags_view(diags@) =~= diags_view(old(diags)@) + Seq::empty());
            Some(Node::Image { url: url.clone(), alt: alt.clone(), title: crate::text::copy_opt(title) })
        },
        MdKind::List(ordered, start, ch) => {
            let items = convert_items(ch, m, diags);
            Some(Node::List { ordered: *ordered, start: *start, items })
        },
        MdKind::Code(lang, v) => {
            assert(diags_view(diags@) =~= diags_view(old(diags)@) + Seq::empty());
            Some(Node::CodeBlock { lang: crate::text::copy_opt(lang), text: v.clone() })
        },
        MdKind::ThematicBreak => {
            assert(diags_view(diags@) =~= diags_view(old(diags)@) + Seq::empty());
            Some(Node::ThematicBreak)
        },
        MdKind::Break => {
            assert(diags_view(diags@) =~= diags_view(old(diags)@) + Seq::empty());
            Some(Node::Break)
        },
        MdKind::Jsx(name, attrs, ch) => convert_jsx(name, attrs, ch, n.point, m, diags),
        MdKind::Esm(v) => {
            push_diag(diags, esm_text(v), n.point);
            assert(diags_view(diags@) =~= diags_view(old(diags)@) + seq![at(esm_message(v@), n.point)]);
            None
        },
        MdKind::Expression(v) => {
            push_diag(diags, expression_text(v), n.point);
            assert(diags_view(diags@) =~= diags_view(old(diags)@) + seq![at(expression_message(v@), n.point)]);
            None
        },
        _ => {
            push_diag(diags, unsupported_text(&n.kind), n.point);
            assert(diags_view(diags@) =~= diags_view(old(diags)@) + seq![at(unsupported_message(n.kind), n.point)]);
            None
        },
    }
}

fn convert_nodes(nodes: &Vec<MdNode>, m: Option<&Manifest>, diags: &mut Vec<Diagnostic>) -> (r: Vec<Node>)
    ensures
        nodes_view(r@) == conv_nodes(nodes@, opt_manifest(m)).0,
        diags_view(final(diags)@) == diags_view(old(diags)@) + conv_nodes(nodes@, opt_manifest(m)).1,
    decreases nodes@, 0nat,
{
    let r = convert_run(nodes, 0, m, diags);
    assert(nodes@.skip(0) =~= nodes@);
    r
}

/// Converts `nodes[start..]`.
fn convert_run(nodes: &Vec<MdNode>, start: usize, m: Option<&Manifest>, diags: &mut Vec<Diagnostic>) -> (r: Vec<Node>)
    requires
        start <= nodes@.len(),
    ensures
        nodes_view(r@) == conv_nodes(nodes@.skip(start as int), opt_manifest(m)).0,
        diags_view(final(diags)@) == diags_view(old(diags)@) + conv_nodes(nodes@.skip(start as int), opt_manifest(m)).1,
    decreases nodes@, 0nat, 1nat,
{
    let ghost ns = nodes@.skip(start as int);
    let mut r: Vec<Node> = Vec::new();
    let mut i: usize = start;
    assert(diags_view(diags@) =~= diags_view(old(diags)@) + conv_nodes(ns.take(0), opt_manifest(m)).1);
    assert(nodes_view(r@) =~= conv_nodes(ns.take(0), opt_manifest(m)).0);
    while i < nodes.len()
        invariant
            start <= i <= nodes@.len(),
            ns == nodes@.skip(start as int),
            nodes_view(r@) == conv_nodes(ns.take(i - start), opt_manifest(m)).0,
            diags_view(diags@) == diags_view(old(diags)@) + conv_nodes(ns.take(i - start), opt_manifest(m)).1,
        decreases nodes@.len() - i,
    {
        assert(ns.take(i - start + 1).drop_last() =~= ns.take(i - start));
        assert(ns.take(i - start + 1).last() == nodes@[i as int]);
        let ghost r0 = r@;
        match convert_node(&nodes[i], m, diags) {
            Some(x) => {
                r.push(x);
                assert(r@.drop_last() =~= r0);
            },
            None => {},
        }
        assert(diags_view(diags@) =~= diags_view(old(diags)@) + conv_nodes(ns.take(i - start + 1), opt_manifest(m)).1);
        i += 1;
    }
    assert(ns.take(nodes@.len() - start) =~= ns);
    r
}

proof fn lemma_items_view_push(s: Seq<ListItem>, x: ListItem)
    ensures
        super::items_view(s.push(x)) == super::items_view(s).push(nodes_view(x.children@)),
{
    assert(s.push(x).drop_last() =~= s);
}

fn convert_items(nodes: &Vec<MdNode>, m: Option<&Manifest>, diags: &mut Vec<Diagnostic>) -> (r: Vec<ListItem>)
    ensures
        super::items_view(r@) == conv_items(nodes@, opt_manifest(m)).0,
        diags_view(final(diags)@) == diags_view(old(diags)@) + conv_items(nodes@, opt_manifest(m)).1,
    decreases nodes@, 0nat,
{
    let mut r: Vec<ListItem> = Vec::new();
    let mut i: usize = 0;
    assert(diags_view(diags@) =~= diags_view(old(diags)@) + conv_items(nodes@.take(0), opt_manifest(m)).1);
    assert(super::items_view(r@) =~= conv_items(nodes@.take(0), opt_manifest(m)).0);
    while i < nodes.len()
        invariant
            i <= nodes@.len(),
            super::items_view(r@) == conv_items(nodes@.take(i as int), opt_manifest(m)).0,
            diags_view(diags@) == diags_view(old(diags)@) + conv_items(nodes@.take(i as int), opt_manifest(m)).1,
        decreases nodes@.len() - i,
    {
        assert(nodes@.take(i + 1).drop_last() =~= nodes@.take(i as int));
        assert(nodes@.take(i + 1).last() == nodes@[i as int]);
        let item = &nodes[i];
        match &item.kind {
            MdKind::ListItem(ch) => {
                let c = convert_nodes(ch, m, diags);
                let li = ListItem { children: c };
                proof {
                    lemma_items_view_push(r@, li);
                }
                r.push(li);
            },
            _ => {
                push_diag(diags, unsupported_text(&item.kind), item.point);
            },
        }
        assert(diags_view(diags@) =~= diags_view(old(diags)@) + conv_items(nodes@.take(i + 1), opt_manifest(m)).1);
        i += 1;
    }
    assert(nodes@.take(nodes@.len() as int) =~= nodes@);
    r
}

// ---- posts ----

/// The root's children (a root that is not a root has none).
pub open spec fn root_children(root: MdNode) -> Seq<MdNode> {
    match root.kind {
        MdKind::Root(c) => c@,
        _ => Seq::empty(),
    }
}

/// Whether the first child is a frontmatter block.
pub open spec fn leads_with_frontmatter(cs: Seq<MdNode>) -> bool {
    cs.len() > 0 && (cs[0].kind is Yaml || cs[0].kind is Toml)
}

/// The body: everything after a leading frontmatter block.
pub open spec fn body_of(cs: Seq<MdNode>) -> Seq<MdNode> {
    if leads_with_frontmatter(cs) {
        cs.drop_first()
    } else {
        cs
    }
}

/// How many line breaks `s` holds.
pub open spec fn newlines(s: Seq<char>) -> nat
    decreases s.len(),
{
    if s.len() == 0 {
        0
    } else {
        newlines(s.drop_last()) + if s.last() == '\n' { 1nat } else { 0nat }
    }
}

/// The number of the last line of `text` (1-based); a break at the very
/// end opens no line.
pub open spec fn last_line_number(text: Seq<char>) -> nat {
    if text.len() == 0 {
        1
    } else {
        1 + newlines(text.drop_last())
    }
}

/// The diagnostic for a frontmatter block that did not decode, the block's
/// fence at `point`: at the YAML error's line (clamped to the block's last
/// line) and column when serde_yaml gave a location, else at the fence.
pub open spec fn frontmatter_diag(point: Option<(usize, usize)>, text: Seq<char>, p: (Seq<char>, Option<(usize, usize)>))
    -> (Option<Seq<char>>, Seq<char>, Option<usize>, Option<usize>)
{
    let fence: int = match point {
        Some(q) => q.0 as int,
        None => 1,
    };
    let message = "malformed frontmatter: "@ + p.0;
    match p.1 {
        Some((l, c)) => {
            let line: int = if l < last_line_number(text) { l as int } else { last_line_number(text) as int };
            (None, message, Some((if fence + line <= usize::MAX { fence + line } else { usize::MAX as int }) as usize), Some(c))
        },
        None => (None, message, Some(fence as usize), None),
    }
}

/// What [`convert`] gives for the tree `root`: the leading YAML block
/// becomes the frontmatter and the rest the body; a TOML block or a missing
/// one is reported first, then the body's diagnostics in document order;
/// any diagnostic means no document.
pub open spec fn converted(root: MdNode, m: Option<Manifest>, r: Result<Document, Vec<Diagnostic>>) -> bool {
    let cs = root_children(root);
    let (body, bd) = conv_nodes(body_of(cs), m);
    match r {
        Ok(doc) => {
            &&& cs.len() > 0
            &&& cs[0].kind is Yaml
            &&& frontmatter_of(cs[0].kind->Yaml_0@) matches Ok(f) && frontmatter_fields(doc.frontmatter) == f
            &&& bd.len() == 0
            &&& nodes_view(doc.ast@) == body
            &&& doc.schema_version == SCHEMA_VERSION
        },
        Err(ds) => {
            &&& ds@.len() > 0
            &&& if cs.len() > 0 && cs[0].kind is Yaml {
                match frontmatter_of(cs[0].kind->Yaml_0@) {
                    Ok(_) => diags_view(ds@) == bd,
                    Err(p) => diags_view(ds@) == seq![frontmatter_diag(cs[0].point, cs[0].kind->Yaml_0@, p)] + bd,
                }
            } else if cs.len() > 0 && cs[0].kind is Toml {
                diags_view(ds@) == seq![at(toml_message(), cs[0].point)] + bd
            } else {
                diags_view(ds@) == seq![(None::<Seq<char>>, missing_frontmatter_message(), Some(1usize), Some(1usize))] + bd
            }
        },
    }
}

/// Converts a post's markdown tree (see [`converted`]).
pub fn convert(root: &MdNode, manifest: Option<&Manifest>) -> (r: Result<Document, Vec<Diagnostic>>)
    ensures
        converted(*root, opt_manifest(manifest), r),
{
    let empty: Vec<MdNode> = Vec::new();
    let children: &Vec<MdNode> = match &root.kind {
        MdKind::Root(c) => c,
        _ => &empty,
    };
    assert(children@ == root_children(*root));
    let mut diags: Vec<Diagnostic> = Vec::new();
    let mut frontmatter: Option<Frontmatter> = None;
    let mut start: usize = 0;
    if children.len() > 0 {
        let first = &children[0];
        match &first.kind {
            MdKind::Yaml(text) => {
                start = 1;
                let fence = match first.point {
                    Some(p) => p.0,
                    None => 1,
                };
                match decode_frontmatter(text) {
                    Ok(f) => {
                        frontmatter = Some(f);
                    },
                    Err(problem) => {
                        let (line, column) = match problem.location {
                            Some((l, c)) => {
                                let last = last_line(text);
                                let l = if l < last { l } else { last };
                                (if l <= usize::MAX - fence { fence + l } else { usize::MAX }, Some(c))
                            },
                            None => (fence, None),
                        };
                        let message = concat("malformed frontmatter: ", &problem.message);
                        diags.push(Diagnostic { message, file: None, line: Some(line), column });
                        assert(diag_view(diags@[0]) == frontmatter_diag(first.point, text@, (problem.message@, problem.location)));
                    },
                }
            },
            MdKind::Toml => {
                start = 1;
                push_diag(&mut diags, owned("frontmatter must be YAML (`---` fences), not TOML"), first.point);
            },
            _ => {
                push_diag(&mut diags, owned("missing frontmatter: posts must start with `---` YAML frontmatter declaring at least `title` and `date`"), Some((1, 1)));
            },
        }
    } else {
        push_diag(&mut diags, owned("missing frontmatter: posts must start with `---` YAML frontmatter declaring at least `title` and `date`"), Some((1, 1)));
    }
    let ghost d0 = diags@;
    assert(children@.skip(start as int) =~= body_of(children@));
    let ast = convert_run(children, start, manifest, &mut diags);
    proof {
        let ghost bd = conv_nodes(body_of(children@), opt_manifest(manifest)).1;
        assert(diags_view(diags@) == diags_view(d0) + bd);
        if d0.len() == 1 {
            assert(diags_view(diags@).drop_first() =~= bd);
            assert(diags_view(diags@)[0] == diag_view(d0[0]));
        }
        if d0.len() == 0 {
            assert(diags_view(diags@) =~= bd);
        }
    }
    let r = match frontmatter {
        Some(f) => {
            if diags.len() == 0 {
                Ok(Document { schema_version: SCHEMA_VERSION, frontmatter: f, ast })
            } else {
                Err(diags)
            }
        },
        None => Err(diags),
    };
    proof {
        let cs = root_children(*root);
        let bd = conv_nodes(body_of(cs), opt_manifest(manifest)).1;
        assert(cs == children@);
        let body = conv_nodes(body_of(cs), opt_manifest(manifest)).0;
        if r is Ok {
            let doc = r->Ok_0;
            assert(cs.len() > 0 && cs[0].kind is Yaml);
            assert(bd.len() == 0);
            assert(frontmatter_of(cs[0].kind->Yaml_0@) matches Ok(f) && frontmatter_fields(doc.frontmatter) == f);
            assert(nodes_view(doc.ast@) == body);
        } else {
            let ds = r->Err_0;
            assert((r->Err_0)@.len() > 0);
            if cs.len() > 0 && cs[0].kind is Yaml {
                assert(match frontmatter_of(cs[0].kind->Yaml_0@) {
                        Ok(_) => diags_view(ds@) == bd,
                        Err(p) => diags_view(ds@) == seq![frontmatter_diag(cs[0].point, cs[0].kind->Yaml_0@, p)] + bd,
                    });
            } else if cs.len() > 0 && cs[0].kind is Toml {
                assert(diags_view(ds@) == seq![at(toml_message(), cs[0].point)] + bd);
            } else {
                assert(diags_view(ds@) == seq![(None::<Seq<char>>, missing_frontmatter_message(), Some(1usize), Some(1usize))] + bd);
            }
        }
    }
    r
}

/// The number of the last line of `text` (1-based): an error that YAML
/// places past the end of the block points at its last line.
fn last_line(text: &str) -> (r: usize)
    ensures
        r == last_line_number(text@),
{
    let c = chars_of(text);
    let mut n: usize = 1;
    let mut i: usize = 0;
    if c.len() == 0 {
        return 1;
    }
    assert(c@.take(0) =~= Seq::<char>::empty());
    let last = c.len() - 1;
    while i < last
        invariant
            c@ == text@,
            c@.len() >= 1,
            last == c@.len() - 1,
            last < usize::MAX,
            i <= last,
            n == 1 + newlines(c@.take(i as int)),
            n <= i + 1,
        decreases c@.len() - i,
    {
        assert(c@.take(i + 1).drop_last() =~= c@.take(i as int));
        if c[i] == '\n' {
            n += 1;
        }
        i += 1;
    }
    assert(c@.take(i as int) =~= c@.drop_last());
    n
}

/// A parse failure of markdown-rs itself, as a diagnostic.
fn message_diagnostic(m: MdMessage) -> (r: Diagnostic)
    ensures
        diag_view(r) == at(m.reason@, m.point),
{
    let (line, column) = match m.point {
        Some(p) => (Some(p.0), Some(p.1)),
        None => (None, None),
    };
    Diagnostic { message: m.reason, file: None, line, column }
}

/// What parsing `source` gives, from markdown-rs's result for it: its
/// reason for rejecting the source as the one diagnostic, or the conversion
/// of its tree.
pub open spec fn parse_outcome(source: Seq<char>, m: Option<Manifest>, r: Result<Document, Vec<Diagnostic>>) -> bool {
    match md_parsed(source) {
        Ok(tree) => converted(tree, m, r),
        Err(e) => r matches Err(ds) && diags_view(ds@) == seq![at(e.reason@, e.point)],
    }
}

/// `r` is `r0` with `file` stamped into each diagnostic.
pub open spec fn stamped(r0: Result<Document, Vec<Diagnostic>>, file: Seq<char>, r: Result<Document, Vec<Diagnostic>>) -> bool {
    match r0 {
        Ok(doc) => r == Ok::<Document, Vec<Diagnostic>>(doc),
        Err(ds) => r matches Err(es) && es@.len() == ds@.len() && forall|i: int| 0 <= i < es@.len() ==> diag_view(#[trigger] es@[i]) == (
            Some(file),
            ds@[i].message@,
            ds@[i].line,
            ds@[i].column,
        ),
    }
}

/// What parsing `source` as `file` gives: the outcome of parsing it, with
/// the file stamped into each diagnostic.
pub open spec fn named_outcome(source: Seq<char>, file: Seq<char>, m: Option<Manifest>, r: Result<Document, Vec<Diagnostic>>) -> bool {
    exists|r0: Result<Document, Vec<Diagnostic>>| #[trigger] parse_outcome(source, m, r0) && stamped(r0, file, r)
}

fn parse_with(source: &str, manifest: Option<&Manifest>) -> (r: Result<Document, Vec<Diagnostic>>)
    ensures
        parse_outcome(source@, opt_manifest(manifest), r),
        r matches Ok(doc) ==> doc.schema_version == SCHEMA_VERSION,
        r matches Err(ds) ==> ds@.len() > 0,
{
    match markdown_root(source) {
        Ok(tree) => convert(&tree, manifest),
        Err(m) => {
            let d = message_diagnostic(m);
            let r = vec![d];
            assert(diags_view(r@) =~= seq![diag_view(d)]);
            Err(r)
        },
    }
}

/// Stamps `file` into the diagnostics of a parse.
fn stamp_outcome(r0: Result<Document, Vec<Diagnostic>>, file: &str) -> (r: Result<Document, Vec<Diagnostic>>)
    ensures
        stamped(r0, file@, r),
{
    match r0 {
        Ok(doc) => Ok(doc),
        Err(ds) => Err(stamp(ds, file)),
    }
}

/// `diags` with `file` stamped into each.
pub fn stamp(diags: Vec<Diagnostic>, file: &str) -> (r: Vec<Diagnostic>)
    ensures
        r@.len() == diags@.len(),
        forall|i: int| 0 <= i < r@.len() ==> diag_view(#[trigger] r@[i]) == (
            Some(file@),
            diags@[i].message@,
            diags@[i].line,
            diags@[i].column,
        ),
{
    let mut r: Vec<Diagnostic> = Vec::new();
    let mut i: usize = 0;
    while i < diags.len()
        invariant
            i <= diags@.len(),
            r@.len() == i,
            forall|j: int| 0 <= j < i ==> diag_view(#[trigger] r@[j]) == (
                Some(file@),
                diags@[j].message@,
                diags@[j].line,
                diags@[j].column,
            ),
        decreases diags@.len() - i,
    {
        let d = &diags[i];
        r.push(Diagnostic { message: d.message.clone(), file: Some(owned(file)), line: d.line, column: d.column });
        i += 1;
    }
    r
}

/// Parses one `.mdx` source into a [`Document`], reporting every problem
/// found; any diagnostic means the document must not be published.
pub fn parse(source: &str) -> (r: Result<Document, Vec<Diagnostic>>)
    ensures
        parse_outcome(source@, None, r),
        r matches Ok(doc) ==> doc.schema_version == SCHEMA_VERSION,
        r matches Err(ds) ==> ds@.len() > 0,
{
    parse_with(source, None)
}

/// Like [`parse`], but stamps `file` into every diagnostic.
pub fn parse_named(source: &str, file: &str) -> (r: Result<Document, Vec<Diagnostic>>)
    ensures
        named_outcome(source@, file@, None, r),
        r matches Ok(doc) ==> doc.schema_version == SCHEMA_VERSION,
        r matches Err(ds) ==> ds@.len() > 0 && forall|i: int| 0 <= i < ds@.len() ==> opt_text(#[trigger] ds@[i].file) == Some(file@),
{
    let r0 = parse_with(source, None);
    let ghost g0 = r0;
    let r = stamp_outcome(r0, file);
    proof {
        assert(parse_outcome(source@, None, g0));
        if r is Err {
            let es = r->Err_0;
            assert forall|i: int| 0 <= i < es@.len() implies opt_text(#[trigger] es@[i].file) == Some(file@) by {
                assert(diag_view(es@[i]).0 == Some(file@));
            }
        }
    }
    r
}

/// [`parse`] plus validation against the component manifest: unknown
/// components (with did-you-mean), missing or mistyped props, and children
/// handed to childless components all become diagnostics.
pub fn parse_validated(source: &str, manifest: &Manifest) -> (r: Result<Document, Vec<Diagnostic>>)
    ensures
        parse_outcome(source@, Some(*manifest), r),
        r matches Ok(doc) ==> doc.schema_version == SCHEMA_VERSION,
        r matches Err(ds) ==> ds@.len() > 0,
{
    parse_with(source, Some(manifest))
}

/// Like [`parse_validated`], but stamps `file` into every diagnostic.
pub fn parse_validated_named(source: &str, file: &str, manifest: &Manifest) -> (r: Result<Document, Vec<Diagnostic>>)
    ensures
        named_outcome(source@, file@, Some(*manifest), r),
        r matches Ok(doc) ==> doc.schema_version == SCHEMA_VERSION,
        r matches Err(ds) ==> ds@.len() > 0 && forall|i: int| 0 <= i < ds@.len() ==> opt_text(#[trigger] ds@[i].file) == Some(file@),
{
    let r0 = parse_with(source, Some(manifest));
    let ghost g0 = r0;
    let r = stamp_outcome(r0, file);
    proof {
        assert(parse_outcome(source@, Some(*manifest), g0));
        if r is Err {
            let es = r->Err_0;
            assert forall|i: int| 0 <= i < es@.len() implies opt_text(#[trigger] es@[i].file) == Some(file@) by {
                assert(diag_view(es@[i]).0 == Some(file@));
            }
        }
    }
    r
}

} // verus!

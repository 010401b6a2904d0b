//! The stored JSON form of documents, index entries and KV writes.
//!
//! Objects list their fields in schema order with the node tag first
//! (`"type"`, snake case); absent optional fields and empty attribute or
//! prop maps are left out; strings escape `"`, `\` and control characters
//! (`\b \t \n \f \r`, else `\u00xx`); numbers are written in their
//! canonical decimal form, a whole number with `.0` after it, as a JSON
//! float.
use vstd::prelude::*;

use super::{
    map_entries, node_view, nodes_view, items_view, prop_view, string_view, Document, Frontmatter,
    IndexEntry, ListItem, Node, NodeV, PropValue, PropValueV, StrMap,
};
use crate::text::{chars_of, find_char, push_char, push_text, usize_digits, usize_text};

verus! {

pub open spec fn hex_digit(d: nat) -> char {
    if d < 10 {
        (('0' as nat) + d) as char
    } else {
        (('a' as nat) + d - 10) as char
    }
}

/// The JSON escape of one character.
pub open spec fn escape_json_char(c: char) -> Seq<char> {
    if c == '"' {
        seq!['\\', '"']
    } else if c == '\\' {
        seq!['\\', '\\']
    } else if c == '\u{8}' {
        seq!['\\', 'b']
    } else if c == '\t' {
        seq!['\\', 't']
    } else if c == '\n' {
        seq!['\\', 'n']
    } else if c == '\u{c}' {
        seq!['\\', 'f']
    } else if c == '\r' {
        seq!['\\', 'r']
    } else if (c as nat) < 0x20 {
        seq!['\\', 'u', '0', '0', hex_digit((c as nat) / 16), hex_digit((c as nat) % 16)]
    } else {
        seq![c]
    }
}

pub open spec fn escape_json(s: Seq<char>) -> Seq<char>
    decreases s.len(),
{
    if s.len() == 0 {
        Seq::empty()
    } else {
        escape_json(s.drop_last()) + escape_json_char(s.last())
    }
}

/// A JSON string literal.
pub open spec fn json_string(s: Seq<char>) -> Seq<char> {
    seq!['"'] + escape_json(s) + seq!['"']
}

pub open spec fn json_bool(b: bool) -> Seq<char> {
    if b { "true"@ } else { "false"@ }
}

/// Items joined with commas.
pub open spec fn joined(items: Seq<Seq<char>>) -> Seq<char>
    decreases items.len(),
{
    if items.len() == 0 {
        Seq::empty()
    } else if items.len() == 1 {
        items[0]
    } else {
        joined(items.drop_last()) + ","@ + items.last()
    }
}

pub open spec fn json_string_list(s: Seq<Seq<char>>) -> Seq<char> {
    "["@ + joined(s.map_values(|x: Seq<char>| json_string(x))) + "]"@
}

pub open spec fn json_text_map(m: Seq<(Seq<char>, Seq<char>)>) -> Seq<char> {
    "{"@ + joined(m.map_values(|e: (Seq<char>, Seq<char>)| json_string(e.0) + ":"@ + json_string(e.1))) + "}"@
}

/// A number in canonical decimal form, as a JSON float: a whole number
/// gets `.0`.
pub open spec fn json_number(t: Seq<char>) -> Seq<char> {
    if t.contains('.') { t } else { t + ".0"@ }
}

pub open spec fn json_prop(v: PropValueV) -> Seq<char> {
    match v {
        PropValueV::String(s) => json_string(s),
        PropValueV::Number(t) => json_number(t),
        PropValueV::Bool(b) => json_bool(b),
    }
}

pub open spec fn json_prop_map(m: Seq<(Seq<char>, PropValueV)>) -> Seq<char> {
    "{"@ + joined(m.map_values(|e: (Seq<char>, PropValueV)| json_string(e.0) + ":"@ + json_prop(e.1))) + "}"@
}

pub open spec fn opt_field(name: Seq<char>, v: Option<Seq<char>>) -> Seq<char> {
    match v {
        Some(s) => ","@ + json_string(name) + ":"@ + json_string(s),
        None => Seq::empty(),
    }
}

/// One node as JSON.
pub open spec fn json_node(n: NodeV) -> Seq<char>
    decreases n, 0nat,
{
    match n {
        NodeV::Heading(level, c) => "{\"type\":\"heading\",\"level\":"@ + usize_digits(level as nat)
            + ",\"children\":"@ + json_nodes(c) + "}"@,
        NodeV::Paragraph(c) => "{\"type\":\"paragraph\",\"children\":"@ + json_nodes(c) + "}"@,
        NodeV::Text(v) => "{\"type\":\"text\",\"value\":"@ + json_string(v) + "}"@,
        NodeV::Emphasis(c) => "{\"type\":\"emphasis\",\"children\":"@ + json_nodes(c) + "}"@,
        NodeV::Strong(c) => "{\"type\":\"strong\",\"children\":"@ + json_nodes(c) + "}"@,
        NodeV::InlineCode(v) => "{\"type\":\"inline_code\",\"value\":"@ + json_string(v) + "}"@,
        NodeV::Link(url, title, c) => "{\"type\":\"link\",\"url\":"@ + json_string(url)
            + opt_field("title"@, title) + ",\"children\":"@ + json_nodes(c) + "}"@,
        NodeV::Image(url, alt, title) => "{\"type\":\"image\",\"url\":"@ + json_string(url)
            + ",\"alt\":"@ + json_string(alt) + opt_field("title"@, title) + "}"@,
        NodeV::List(ordered, start, items) => "{\"type\":\"list\",\"ordered\":"@ + json_bool(ordered)
            + match start {
                Some(s) => ",\"start\":"@ + usize_digits(s as nat),
                None => Seq::empty(),
            } + ",\"items\":"@ + json_items(items) + "}"@,
        NodeV::CodeBlock(lang, text) => "{\"type\":\"code_block\""@ + opt_field("lang"@, lang)
            + ",\"text\":"@ + json_string(text) + "}"@,
        NodeV::Blockquote(c) => "{\"type\":\"blockquote\",\"children\":"@ + json_nodes(c) + "}"@,
        NodeV::ThematicBreak => "{\"type\":\"thematic_break\"}"@,
        NodeV::Break => "{\"type\":\"break\"}"@,
        NodeV::Html(tag, attrs, c) => "{\"type\":\"html\",\"tag\":"@ + json_string(tag)
            + (if attrs.len() == 0 { Seq::empty() } else { ",\"attrs\":"@ + json_text_map(attrs) })
            + ",\"children\":"@ + json_nodes(c) + "}"@,
        NodeV::Component(name, props, c) => "{\"type\":\"component\",\"name\":"@ + json_string(name)
            + (if props.len() == 0 { Seq::empty() } else { ",\"props\":"@ + json_prop_map(props) })
            + ",\"children\":"@ + json_nodes(c) + "}"@,
    }
}

pub open spec fn json_nodes_inner(s: Seq<NodeV>) -> Seq<char>
    decreases s, 0nat,
{
    if s.len() == 0 {
        Seq::empty()
    } else if s.len() == 1 {
        json_node(s[0])
    } else {
        json_nodes_inner(s.drop_last()) + ","@ + json_node(s.last())
    }
}

/// A node list as a JSON array.
pub open spec fn json_nodes(s: Seq<NodeV>) -> Seq<char>
    decreases s, 1nat,
{
    "["@ + json_nodes_inner(s) + "]"@
}

pub open spec fn json_items_inner(s: Seq<Seq<NodeV>>) -> Seq<char>
    decreases s, 0nat,
{
    if s.len() == 0 {
        Seq::empty()
    } else if s.len() == 1 {
        "{\"children\":"@ + json_nodes(s[0]) + "}"@
    } else {
        json_items_inner(s.drop_last()) + ","@ + "{\"children\":"@ + json_nodes(s.last()) + "}"@
    }
}

/// List items as a JSON array of `{"children":[...]}` objects.
pub open spec fn json_items(s: Seq<Seq<NodeV>>) -> Seq<char>
    decreases s, 1nat,
{
    "["@ + json_items_inner(s) + "]"@
}

/// Frontmatter as JSON.
pub open spec fn json_frontmatter(f: Frontmatter) -> Seq<char> {
    "{\"title\":"@ + json_string(f.title@) + ",\"date\":"@ + json_string(f.date@)
        + opt_field("description"@, super::opt_text(f.description))
        + ",\"tags\":"@ + json_string_list(f.tags@.map_values(|t: String| t@))
        + ",\"draft\":"@ + json_bool(f.draft) + "}"@
}

/// A document as its stored JSON payload.
pub open spec fn json_document(d: Document) -> Seq<char> {
    "{\"schema_version\":"@ + usize_digits(d.schema_version as nat) + ",\"frontmatter\":"@
        + json_frontmatter(d.frontmatter) + ",\"ast\":"@ + json_nodes(nodes_view(d.ast@)) + "}"@
}

/// An index entry as JSON.
pub open spec fn json_entry(e: IndexEntry) -> Seq<char> {
    "{\"slug\":"@ + json_string(e.slug@) + ",\"title\":"@ + json_string(e.title@) + ",\"date\":"@
        + json_string(e.date@) + opt_field("description"@, super::opt_text(e.description))
        + ",\"tags\":"@ + json_string_list(e.tags@.map_values(|t: String| t@))
        + ",\"draft\":"@ + json_bool(e.draft) + "}"@
}

/// An index as a JSON array.
pub open spec fn json_index(s: Seq<IndexEntry>) -> Seq<char> {
    "["@ + joined(s.map_values(|e: IndexEntry| json_entry(e))) + "]"@
}

// ---- writers ----

fn hex_char(d: u32) -> (c: char)
    requires
        d < 16,
    ensures
        c == hex_digit(d as nat),
{
    if d < 10 {
        let c = (('0' as u32) + d) as u8 as char;
        c
    } else {
        let c = (('a' as u32) + d - 10) as u8 as char;
        c
    }
}

fn push_escaped(out: &mut String, c: char)
    ensures
        final(out)@ == old(out)@ + escape_json_char(c),
{
    if c == '"' {
        push_char(out, '\\');
        push_char(out, '"');
    } else if c == '\\' {
        push_char(out, '\\');
        push_char(out, '\\');
    } else if c == '\u{8}' {
        push_char(out, '\\');
        push_char(out, 'b');
    } else if c == '\t' {
        push_char(out, '\\');
        push_char(out, 't');
    } else if c == '\n' {
        push_char(out, '\\');
        push_char(out, 'n');
    } else if c == '\u{c}' {
        push_char(out, '\\');
        push_char(out, 'f');
    } else if c == '\r' {
        push_char(out, '\\');
        push_char(out, 'r');
    } else if (c as u32) < 0x20 {
        push_char(out, '\\');
        push_char(out, 'u');
        push_char(out, '0');
        push_char(out, '0');
        push_char(out, hex_char((c as u32) / 16));
        push_char(out, hex_char((c as u32) % 16));
    } else {
        push_char(out, c);
    }
    assert(out@ =~= old(out)@ + escape_json_char(c));
}

/// Appends `s` as a JSON string literal.
pub fn write_string(out: &mut String, s: &str)
    ensures
        final(out)@ == old(out)@ + json_string(s@),
{
    let c = crate::text::chars_of(s);
    push_char(out, '"');
    let ghost start = out@;
    let mut i: usize = 0;
    while i < c.len()
        invariant
            i <= c@.len(),
            out@ == start + escape_json(c@.take(i as int)),
        decreases c@.len() - i,
    {
        assert(c@.take(i + 1).drop_last() =~= c@.take(i as int));
        push_escaped(out, c[i]);
        i += 1;
    }
    assert(c@.take(c@.len() as int) =~= c@);
    push_char(out, '"');
    assert(out@ =~= old(out)@ + json_string(s@));
}

fn write_bool(out: &mut String, b: bool)
    ensures
        final(out)@ == old(out)@ + json_bool(b),
{
    if b {
        push_text(out, "true");
    } else {
        push_text(out, "false");
    }
}

fn write_opt_field(out: &mut String, name: &str, v: &Option<String>)
    ensures
        final(out)@ == old(out)@ + opt_field(name@, super::opt_text(*v)),
{
    match v {
        Some(s) => {
            push_text(out, ",");
            write_string(out, name);
            push_text(out, ":");
            write_string(out, s);
            assert(out@ =~= old(out)@ + opt_field(name@, super::opt_text(*v)));
        },
        None => {
            assert(out@ =~= old(out)@ + opt_field(name@, super::opt_text(*v)));
        },
    }
}

proof fn lemma_joined_push(s: Seq<Seq<char>>, x: Seq<char>)
    ensures
        joined(s.push(x)) == if s.len() == 0 { x } else { joined(s) + ","@ + x },
{
    assert(s.push(x).drop_last() =~= s);
    if s.len() == 0 {
        assert(s.push(x)[0] == x);
    }
}

pub fn write_string_list(out: &mut String, v: &Vec<String>)
    ensures
        final(out)@ == old(out)@ + json_string_list(v@.map_values(|t: String| t@)),
{
    let ghost vs = v@.map_values(|t: String| t@);
    push_text(out, "[");
    let ghost start = out@;
    let mut i: usize = 0;
    assert(vs.take(0).map_values(|x: Seq<char>| json_string(x)) =~= Seq::<Seq<char>>::empty());
    while i < v.len()
        invariant
            i <= v@.len(),
            vs == v@.map_values(|t: String| t@),
            out@ == start + joined(vs.take(i as int).map_values(|x: Seq<char>| json_string(x))),
        decreases v@.len() - i,
    {
        let ghost prev = vs.take(i as int).map_values(|x: Seq<char>| json_string(x));
        assert(vs.take(i + 1).map_values(|x: Seq<char>| json_string(x)) =~= prev.push(json_string(v@[i as int]@)));
        proof {
            lemma_joined_push(prev, json_string(v@[i as int]@));
        }
        if i > 0 {
            push_text(out, ",");
        }
        write_string(out, &v[i]);
        i += 1;
    }
    assert(vs.take(v@.len() as int) =~= vs);
    push_text(out, "]");
}

fn write_text_map(out: &mut String, m: &StrMap<String>)
    ensures
        final(out)@ == old(out)@ + json_text_map(map_entries(m@, |v: String| string_view(v))),
{
    let ghost ms = map_entries(m@, |v: String| string_view(v));
    let ghost items = ms.map_values(|e: (Seq<char>, Seq<char>)| json_string(e.0) + ":"@ + json_string(e.1));
    push_text(out, "{");
    let ghost start = out@;
    let mut i: usize = 0;
    assert(items.take(0) =~= Seq::<Seq<char>>::empty());
    while i < m.len()
        invariant
            i <= m@.len(),
            ms == map_entries(m@, |v: String| string_view(v)),
            items == ms.map_values(|e: (Seq<char>, Seq<char>)| json_string(e.0) + ":"@ + json_string(e.1)),
            out@ == start + joined(items.take(i as int)),
        decreases m@.len() - i,
    {
        let (k, v) = m.entry(i);
        assert(items.take(i + 1) =~= items.take(i as int).push(items[i as int]));
        proof {
            lemma_joined_push(items.take(i as int), items[i as int]);
        }
        if i > 0 {
            push_text(out, ",");
        }
        write_string(out, k);
        push_text(out, ":");
        write_string(out, v);
        i += 1;
    }
    assert(items.take(m@.len() as int) =~= items);
    push_text(out, "}");
}

fn write_prop(out: &mut String, v: &PropValue)
    ensures
        final(out)@ == old(out)@ + json_prop(v@),
{
    match v {
        PropValue::String(s) => write_string(out, s),
        PropValue::Number(n) => {
            push_text(out, n.text());
            let c = chars_of(n.text());
            match find_char(&c, '.') {
                Some(i) => {
                    assert(n@.contains('.')) by {
                        assert(n@[i as int] == '.');
                    }
                },
                None => {
                    push_text(out, ".0");
                },
            }
        },
        PropValue::Bool(b) => write_bool(out, *b),
    }
}

fn write_prop_map(out: &mut String, m: &StrMap<PropValue>)
    ensures
        final(out)@ == old(out)@ + json_prop_map(map_entries(m@, |v: PropValue| prop_view(v))),
{
    let ghost ms = map_entries(m@, |v: PropValue| prop_view(v));
    let ghost items = ms.map_values(|e: (Seq<char>, PropValueV)| json_string(e.0) + ":"@ + json_prop(e.1));
    push_text(out, "{");
    let ghost start = out@;
    let mut i: usize = 0;
    assert(items.take(0) =~= Seq::<Seq<char>>::empty());
    while i < m.len()
        invariant
            i <= m@.len(),
            ms == map_entries(m@, |v: PropValue| prop_view(v)),
            items == ms.map_values(|e: (Seq<char>, PropValueV)| json_string(e.0) + ":"@ + json_prop(e.1)),
            out@ == start + joined(items.take(i as int)),
        decreases m@.len() - i,
    {
        let (k, v) = m.entry(i);
        assert(items.take(i + 1) =~= items.take(i as int).push(items[i as int]));
        proof {
            lemma_joined_push(items.take(i as int), items[i as int]);
        }
        if i > 0 {
            push_text(out, ",");
        }
        write_string(out, k);
        push_text(out, ":");
        write_prop(out, v);
        i += 1;
    }
    assert(items.take(m@.len() as int) =~= items);
    push_text(out, "}");
}

fn write_node(out: &mut String, n: &Node)
    ensures
        final(out)@ == old(out)@ + json_node(node_view(*n)),
    decreases *n, 2nat,
{
    match n {
        Node::Heading { .. } => write_heading(out, n),
        Node::Paragraph { .. } | Node::Emphasis { .. } | Node::Strong { .. } | Node::Blockquote { .. } => write_container(out, n),
        Node::Link { .. } => write_link(out, n),
        Node::List { .. } => write_list(out, n),
        Node::Html { .. } => write_html(out, n),
        Node::Component { .. } => write_component(out, n),
        _ => write_leaf(out, n),
    }
}

fn write_heading(out: &mut String, n: &Node)
    requires
        n is Heading,
    ensures
        final(out)@ == old(out)@ + json_node(node_view(*n)),
    decreases *n, 1nat,
{
    match n {
        Node::Heading { level, children } => {
            push_text(out, "{\"type\":\"heading\",\"level\":");
            push_text(out, &usize_text(*level as usize));
            push_text(out, ",\"children\":");
            write_nodes(out, children);
            push_text(out, "}");
            assert(out@ =~= old(out)@ + json_node(node_view(*n)));
        },
        _ => {},
    }
}

fn write_container(out: &mut String, n: &Node)
    requires
        n is Paragraph || n is Emphasis || n is Strong || n is Blockquote,
    ensures
        final(out)@ == old(out)@ + json_node(node_view(*n)),
    decreases *n, 1nat,
{
    let (head, children) = match n {
        Node::Paragraph { children } => ("{\"type\":\"paragraph\",\"children\":", children),
        Node::Emphasis { children } => ("{\"type\":\"emphasis\",\"children\":", children),
        Node::Strong { children } => ("{\"type\":\"strong\",\"children\":", children),
        Node::Blockquote { children } => ("{\"type\":\"blockquote\",\"children\":", children),
        _ => {
            return;
        },
    };
    push_text(out, head);
    write_nodes(out, children);
    push_text(out, "}");
    assert(out@ =~= old(out)@ + json_node(node_view(*n)));
}

fn write_link(out: &mut String, n: &Node)
    requires
        n is Link,
    ensures
        final(out)@ == old(out)@ + json_node(node_view(*n)),
    decreases *n, 1nat,
{
    match n {
        Node::Link { url, title, children } => {
            push_text(out, "{\"type\":\"link\",\"url\":");
            write_string(out, url);
            write_opt_field(out, "title", title);
            push_text(out, ",\"children\":");
            write_nodes(out, children);
            push_text(out, "}");
            assert(out@ =~= old(out)@ + json_node(node_view(*n)));
        },
        _ => {},
    }
}

fn write_list(out: &mut String, n: &Node)
    requires
        n is List,
    ensures
        final(out)@ == old(out)@ + json_node(node_view(*n)),
    decreases *n, 1nat,
{
    match n {
        Node::List { ordered, start, items } => {
            push_text(out, "{\"type\":\"list\",\"ordered\":");
            write_bool(out, *ordered);
            match start {
                Some(s) => {
                    push_text(out, ",\"start\":");
                    push_text(out, &usize_text(*s as usize));
                },
                None => {},
            }
            push_text(out, ",\"items\":");
            write_items(out, items);
            push_text(out, "}");
            assert(out@ =~= old(out)@ + json_node(node_view(*n)));
        },
        _ => {},
    }
}

fn write_html(out: &mut String, n: &Node)
    requires
        n is Html,
    ensures
        final(out)@ == old(out)@ + json_node(node_view(*n)),
    decreases *n, 1nat,
{
    match n {
        Node::Html { tag, attrs, children } => {
            push_text(out, "{\"type\":\"html\",\"tag\":");
            write_string(out, tag);
            proof {
                assert(map_entries(attrs@, |v: String| string_view(v)).len() == attrs@.len());
            }
            if attrs.len() > 0 {
                push_text(out, ",\"attrs\":");
                write_text_map(out, attrs);
            }
            push_text(out, ",\"children\":");
            write_nodes(out, children);
            push_text(out, "}");
            assert(out@ =~= old(out)@ + json_node(node_view(*n)));
        },
        _ => {},
    }
}

fn write_component(out: &mut String, n: &Node)
    requires
        n is Component,
    ensures
        final(out)@ == old(out)@ + json_node(node_view(*n)),
    decreases *n, 1nat,
{
    match n {
        Node::Component { name, props, children } => {
            push_text(out, "{\"type\":\"component\",\"name\":");
            write_string(out, name);
            proof {
                assert(map_entries(props@, |v: PropValue| prop_view(v)).len() == props@.len());
            }
            if props.len() > 0 {
                push_text(out, ",\"props\":");
                write_prop_map(out, props);
            }
            push_text(out, ",\"children\":");
            write_nodes(out, children);
            push_text(out, "}");
            assert(out@ =~= old(out)@ + json_node(node_view(*n)));
        },
        _ => {},
    }
}

fn write_leaf(out: &mut String, n: &Node)
    requires
        n is Text || n is InlineCode || n is Image || n is CodeBlock || n is ThematicBreak || n is Break,
    ensures
        final(out)@ == old(out)@ + json_node(node_view(*n)),
{
    match n {
        Node::Text { value } => {
            push_text(out, "{\"type\":\"text\",\"value\":");
            write_string(out, value);
            push_text(out, "}");
        },
        Node::InlineCode { value } => {
            push_text(out, "{\"type\":\"inline_code\",\"value\":");
            write_string(out, value);
            push_text(out, "}");
        },
        Node::Image { url, alt, title } => {
            push_text(out, "{\"type\":\"image\",\"url\":");
            write_string(out, url);
            push_text(out, ",\"alt\":");
            write_string(out, alt);
            write_opt_field(out, "title", title);
            push_text(out, "}");
        },
        Node::CodeBlock { lang, text } => {
            push_text(out, "{\"type\":\"code_block\"");
            write_opt_field(out, "lang", lang);
            push_text(out, ",\"text\":");
            write_string(out, text);
            push_text(out, "}");
        },
        Node::ThematicBreak => {
            push_text(out, "{\"type\":\"thematic_break\"}");
        },
        Node::Break => {
            push_text(out, "{\"type\":\"break\"}");
        },
        _ => {},
    }
    assert(out@ =~= old(out)@ + json_node(node_view(*n)));
}

fn write_nodes(out: &mut String, nodes: &Vec<Node>)
    ensures
        final(out)@ == old(out)@ + json_nodes(nodes_view(nodes@)),
    decreases nodes@, 0nat,
{
    push_text(out, "[");
    let ghost start = out@;
    let mut i: usize = 0;
    assert(nodes_view(nodes@.take(0)) =~= Seq::<NodeV>::empty());
    while i < nodes.len()
        invariant
            i <= nodes@.len(),
            out@ == start + json_nodes_inner(nodes_view(nodes@.take(i as int))),
        decreases nodes@.len() - i,
    {
        let ghost s1 = nodes_view(nodes@.take(i + 1));
        assert(nodes@.take(i + 1).drop_last() =~= nodes@.take(i as int));
        assert(s1 == nodes_view(nodes@.take(i as int)).push(node_view(nodes@[i as int])));
        assert(s1.drop_last() =~= nodes_view(nodes@.take(i as int)));
        if i > 0 {
            push_text(out, ",");
        } else {
            assert(nodes_view(nodes@.take(0)) =~= Seq::<NodeV>::empty());
            assert(s1.len() == 1);
        }
        write_node(out, &nodes[i]);
        i += 1;
    }
    assert(nodes@.take(nodes@.len() as int) =~= nodes@);
    push_text(out, "]");
}

fn write_items(out: &mut String, items: &Vec<ListItem>)
    ensures
        final(out)@ == old(out)@ + json_items(items_view(items@)),
    decreases items@, 0nat,
{
    push_text(out, "[");
    let ghost start = out@;
    let mut i: usize = 0;
    assert(items_view(items@.take(0)) =~= Seq::<Seq<NodeV>>::empty());
    while i < items.len()
        invariant
            i <= items@.len(),
            out@ == start + json_items_inner(items_view(items@.take(i as int))),
        decreases items@.len() - i,
    {
        let ghost s1 = items_view(items@.take(i + 1));
        assert(items@.take(i + 1).drop_last() =~= items@.take(i as int));
        assert(s1 == items_view(items@.take(i as int)).push(nodes_view(items@[i as int].children@)));
        assert(s1.drop_last() =~= items_view(items@.take(i as int)));
        if i > 0 {
            push_text(out, ",");
        } else {
            assert(s1.len() == 1);
        }
        push_text(out, "{\"children\":");
        write_nodes(out, &items[i].children);
        push_text(out, "}");
        i += 1;
    }
    assert(items@.take(items@.len() as int) =~= items@);
    push_text(out, "]");
}

fn write_frontmatter(out: &mut String, f: &Frontmatter)
    ensures
        final(out)@ == old(out)@ + json_frontmatter(*f),
{
    push_text(out, "{\"title\":");
    write_string(out, &f.title);
    push_text(out, ",\"date\":");
    write_string(out, &f.date);
    write_opt_field(out, "description", &f.description);
    push_text(out, ",\"tags\":");
    write_string_list(out, &f.tags);
    push_text(out, ",\"draft\":");
    write_bool(out, f.draft);
    push_text(out, "}");
    assert(out@ =~= old(out)@ + json_frontmatter(*f));
}

impl Document {
    /// The document's stored JSON payload.
    pub fn to_json(&self) -> (r: String)
        ensures
            r@ == json_document(*self),
    {
        let mut out = String::new();
        push_text(&mut out, "{\"schema_version\":");
        push_text(&mut out, &usize_text(self.schema_version as usize));
        push_text(&mut out, ",\"frontmatter\":");
        write_frontmatter(&mut out, &self.frontmatter);
        push_text(&mut out, ",\"ast\":");
        write_nodes(&mut out, &self.ast);
        push_text(&mut out, "}");
        assert(out@ =~= json_document(*self));
        out
    }
}

fn write_entry(out: &mut String, e: &IndexEntry)
    ensures
        final(out)@ == old(out)@ + json_entry(*e),
{
    push_text(out, "{\"slug\":");
    write_string(out, &e.slug);
    push_text(out, ",\"title\":");
    write_string(out, &e.title);
    push_text(out, ",\"date\":");
    write_string(out, &e.date);
    write_opt_field(out, "description", &e.description);
    push_text(out, ",\"tags\":");
    write_string_list(out, &e.tags);
    push_text(out, ",\"draft\":");
    write_bool(out, e.draft);
    push_text(out, "}");
    assert(out@ =~= old(out)@ + json_entry(*e));
}

/// An index as its stored JSON array.
#[verifier::spinoff_prover]
#[verifier::rlimit(60)]
pub fn index_json(index: &[IndexEntry]) -> (r: String)
    ensures
        r@ == json_index(index@),
{
    let ghost items = index@.map_values(|e: IndexEntry| json_entry(e));
    let mut out = String::new();
    push_text(&mut out, "[");
    let ghost start = out@;
    let mut i: usize = 0;
    assert(items.take(0) =~= Seq::<Seq<char>>::empty());
    while i < index.len()
        invariant
            i <= index@.len(),
            items == index@.map_values(|e: IndexEntry| json_entry(e)),
            out@ == start + joined(items.take(i as int)),
        decreases index@.len() - i,
    {
        let ghost prev = items.take(i as int);
        let ghost item = items[i as int];
        assert(item == json_entry(index@[i as int]));
        assert(items.take(i + 1) =~= prev.push(item));
        proof {
            lemma_joined_push(prev, item);
        }
        if i > 0 {
            push_text(&mut out, ",");
        }
        write_entry(&mut out, &index[i]);
        assert(out@ =~= start + joined(items.take(i + 1)));
        i += 1;
    }
    assert(items.take(index@.len() as int) =~= items);
    push_text(&mut out, "]");
    out
}

} // verus!

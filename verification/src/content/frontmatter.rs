//! The YAML frontmatter block: serde_yaml reads the text, and its top-level
//! mapping is decoded into a [`Frontmatter`].
//!
//! Fields follow the stored schema: `title` and `date` are required text,
//! `description` optional text, `tags` an optional list of text, `draft` an
//! optional boolean; other keys are ignored. A text field takes any scalar:
//! a bare number reads as serde_yaml's display of the number it parsed
//! (`1.50` as `1.5`, `0x10` as `16`), a boolean as `true` or `false`, a
//! bare null as empty text.
use vstd::prelude::*;

use super::{opt_text, Frontmatter};
use crate::sorted::views;
use crate::text::{concat3, owned, push_text, text_eq};

verus! {

#[verifier::external_type_specification]
#[verifier::external_body]
pub struct ExYamlValue(serde_yaml::Value);

/// Why a frontmatter block did not decode.
#[derive(Debug, Clone, PartialEq, Eq)]
pub struct YamlProblem {
    pub message: String,
    /// 1-based line and column within the YAML text, when known.
    pub location: Option<(usize, usize)>,
}

/// A YAML value with nothing read inside it: its kind, and a scalar's
/// text (a number as YAML writes it).
#[derive(Debug)]
pub enum YamlLeaf {
    Null,
    Bool(bool),
    Scalar(String),
    Sequence,
    Mapping,
    Tagged,
}

/// A field's value, with a sequence's items read one level deep.
#[derive(Debug)]
pub enum YamlValue {
    Null,
    Bool(bool),
    Scalar(String),
    Sequence(Vec<YamlLeaf>),
    Mapping,
    Tagged,
}

/// A YAML document: a mapping's entries (a key is `None` when it is not
/// text), or any other value.
#[derive(Debug)]
pub enum YamlDoc {
    Mapping(Vec<(Option<String>, YamlValue)>),
    Other(YamlLeaf),
}

pub enum YamlLeafV {
    Null,
    Bool(bool),
    Scalar(Seq<char>),
    Sequence,
    Mapping,
    Tagged,
}

pub enum YamlValueV {
    Null,
    Bool(bool),
    Scalar(Seq<char>),
    Sequence(Seq<YamlLeafV>),
    Mapping,
    Tagged,
}

pub enum YamlDocV {
    Mapping(Seq<(Option<Seq<char>>, YamlValueV)>),
    Other(YamlLeafV),
}

pub open spec fn leaf_view(l: YamlLeaf) -> YamlLeafV {
    match l {
        YamlLeaf::Null => YamlLeafV::Null,
        YamlLeaf::Bool(b) => YamlLeafV::Bool(b),
        YamlLeaf::Scalar(s) => YamlLeafV::Scalar(s@),
        YamlLeaf::Sequence => YamlLeafV::Sequence,
        YamlLeaf::Mapping => YamlLeafV::Mapping,
        YamlLeaf::Tagged => YamlLeafV::Tagged,
    }
}

pub open spec fn value_view(v: YamlValue) -> YamlValueV {
    match v {
        YamlValue::Null => YamlValueV::Null,
        YamlValue::Bool(b) => YamlValueV::Bool(b),
        YamlValue::Scalar(s) => YamlValueV::Scalar(s@),
        YamlValue::Sequence(items) => YamlValueV::Sequence(items@.map_values(|l: YamlLeaf| leaf_view(l))),
        YamlValue::Mapping => YamlValueV::Mapping,
        YamlValue::Tagged => YamlValueV::Tagged,
    }
}

pub open spec fn entries_view(e: Seq<(Option<String>, YamlValue)>) -> Seq<(Option<Seq<char>>, YamlValueV)> {
    e.map_values(|p: (Option<String>, YamlValue)| (opt_text(p.0), value_view(p.1)))
}

pub open spec fn doc_view(d: YamlDoc) -> YamlDocV {
    match d {
        YamlDoc::Mapping(e) => YamlDocV::Mapping(entries_view(e@)),
        YamlDoc::Other(l) => YamlDocV::Other(leaf_view(l)),
    }
}

pub open spec fn problem_view(p: YamlProblem) -> (Seq<char>, Option<(usize, usize)>) {
    (p.message@, p.location)
}

/// What serde_yaml reads a YAML text as, in the terms above; or its error
/// message and location.
pub uninterp spec fn yaml_parsed(text: Seq<char>) -> Result<YamlDocV, (Seq<char>, Option<(usize, usize)>)>;

/// A value's kind and scalar text.
#[verifier::external_body]
fn leaf_of(v: &serde_yaml::Value) -> (r: YamlLeaf) {
    match v {
        serde_yaml::Value::Null => YamlLeaf::Null,
        serde_yaml::Value::Bool(b) => YamlLeaf::Bool(*b),
        serde_yaml::Value::Number(n) => YamlLeaf::Scalar(n.to_string()),
        serde_yaml::Value::String(s) => YamlLeaf::Scalar(s.clone()),
        serde_yaml::Value::Sequence(_) => YamlLeaf::Sequence,
        serde_yaml::Value::Mapping(_) => YamlLeaf::Mapping,
        serde_yaml::Value::Tagged(_) => YamlLeaf::Tagged,
    }
}

/// A field's value with a sequence's items read.
#[verifier::external_body]
fn value_of(v: &serde_yaml::Value) -> (r: YamlValue) {
    match v {
        serde_yaml::Value::Null => YamlValue::Null,
        serde_yaml::Value::Bool(b) => YamlValue::Bool(*b),
        serde_yaml::Value::Number(n) => YamlValue::Scalar(n.to_string()),
        serde_yaml::Value::String(s) => YamlValue::Scalar(s.clone()),
        serde_yaml::Value::Sequence(items) => YamlValue::Sequence(items.iter().map(leaf_of).collect()),
        serde_yaml::Value::Mapping(_) => YamlValue::Mapping,
        serde_yaml::Value::Tagged(_) => YamlValue::Tagged,
    }
}

/// `serde_yaml::from_str` into a YAML value, read as a [`YamlDoc`]; an error
/// keeps its message and location.
#[verifier::external_body]
fn yaml_document(text: &str) -> (r: Result<YamlDoc, YamlProblem>)
    ensures
        match r {
            Ok(d) => yaml_parsed(text@) == Ok::<_, (Seq<char>, Option<(usize, usize)>)>(doc_view(d)),
            Err(p) => yaml_parsed(text@) == Err::<YamlDocV, _>(problem_view(p)),
        },
{
    let v = serde_yaml::from_str::<serde_yaml::Value>(text).map_err(|e| YamlProblem {
        message: e.to_string(),
        location: e.location().map(|l| (l.line(), l.column())),
    })?;
    Ok(match &v {
        serde_yaml::Value::Mapping(m) =>
            YamlDoc::Mapping(m.iter().map(|(k, v)| (k.as_str().map(String::from), value_of(v))).collect()),
        other => YamlDoc::Other(leaf_of(other)),
    })
}

/// How a value of a kind is named in a type error.
pub open spec fn leaf_phrase(l: YamlLeafV) -> Seq<char> {
    match l {
        YamlLeafV::Null => "unit value"@,
        YamlLeafV::Bool(_) => "boolean"@,
        YamlLeafV::Scalar(_) => "string"@,
        YamlLeafV::Sequence => "sequence"@,
        YamlLeafV::Mapping => "map"@,
        YamlLeafV::Tagged => "tagged value"@,
    }
}

pub open spec fn value_phrase(v: YamlValueV) -> Seq<char> {
    match v {
        YamlValueV::Null => "unit value"@,
        YamlValueV::Bool(_) => "boolean"@,
        YamlValueV::Scalar(_) => "string"@,
        YamlValueV::Sequence(_) => "sequence"@,
        YamlValueV::Mapping => "map"@,
        YamlValueV::Tagged => "tagged value"@,
    }
}

pub open spec fn type_message(found: Seq<char>, expected: Seq<char>) -> Seq<char> {
    "invalid type: "@ + found + ", expected "@ + expected
}

/// The text a scalar reads as: itself, `true`/`false`, or empty for null.
pub open spec fn leaf_text(l: YamlLeafV) -> Result<Seq<char>, Seq<char>> {
    match l {
        YamlLeafV::Scalar(s) => Ok(s),
        YamlLeafV::Bool(b) => Ok(if b { "true"@ } else { "false"@ }),
        YamlLeafV::Null => Ok(Seq::empty()),
        _ => Err(type_message(leaf_phrase(l), "a string"@)),
    }
}

pub open spec fn value_text(v: YamlValueV) -> Result<Seq<char>, Seq<char>> {
    match v {
        YamlValueV::Scalar(s) => Ok(s),
        YamlValueV::Bool(b) => Ok(if b { "true"@ } else { "false"@ }),
        YamlValueV::Null => Ok(Seq::empty()),
        _ => Err(type_message(value_phrase(v), "a string"@)),
    }
}

/// The value of the first entry keyed `key`.
pub open spec fn field(entries: Seq<(Option<Seq<char>>, YamlValueV)>, key: Seq<char>) -> Option<YamlValueV>
    decreases entries.len(),
{
    if entries.len() == 0 {
        None
    } else if entries[0].0 == Some(key) {
        Some(entries[0].1)
    } else {
        field(entries.drop_first(), key)
    }
}

pub open spec fn required_field(entries: Seq<(Option<Seq<char>>, YamlValueV)>, key: Seq<char>) -> Result<Seq<char>, Seq<char>> {
    match field(entries, key) {
        None => Err("missing field `"@ + key + "`"@),
        Some(v) => value_text(v),
    }
}

/// The texts of a sequence's items, or the first item that is not text.
pub open spec fn leaf_texts(items: Seq<YamlLeafV>) -> Result<Seq<Seq<char>>, Seq<char>>
    decreases items.len(),
{
    if items.len() == 0 {
        Ok(Seq::empty())
    } else {
        match leaf_texts(items.drop_last()) {
            Err(e) => Err(e),
            Ok(ts) => match leaf_text(items.last()) {
                Err(e) => Err(e),
                Ok(t) => Ok(ts.push(t)),
            },
        }
    }
}

/// The frontmatter a YAML document stands for, as its fields' values, or
/// the first problem in field order.
pub open spec fn decoded_frontmatter(doc: YamlDocV)
    -> Result<(Seq<char>, Seq<char>, Option<Seq<char>>, Seq<Seq<char>>, bool), Seq<char>>
{
    match doc {
        YamlDocV::Other(l) => Err(type_message(leaf_phrase(l), "struct Frontmatter"@)),
        YamlDocV::Mapping(m) => match required_field(m, "title"@) {
            Err(e) => Err(e),
            Ok(title) => match required_field(m, "date"@) {
                Err(e) => Err(e),
                Ok(date) => match (match field(m, "description"@) {
                    None => Ok(None),
                    Some(YamlValueV::Null) => Ok(None),
                    Some(v) => match value_text(v) {
                        Ok(t) => Ok(Some(t)),
                        Err(e) => Err(e),
                    },
                }) {
                    Err(e) => Err(e),
                    Ok(description) => match (match field(m, "tags"@) {
                        None => Ok(Seq::empty()),
                        Some(YamlValueV::Sequence(items)) => leaf_texts(items),
                        Some(v) => Err(type_message(value_phrase(v), "a sequence"@)),
                    }) {
                        Err(e) => Err(e),
                        Ok(tags) => match (match field(m, "draft"@) {
                            None => Ok(false),
                            Some(YamlValueV::Bool(b)) => Ok(b),
                            Some(v) => Err(type_message(value_phrase(v), "a boolean"@)),
                        }) {
                            Err(e) => Err(e),
                            Ok(draft) => Ok((title, date, description, tags, draft)),
                        },
                    },
                },
            },
        },
    }
}

/// A frontmatter's fields as plain values.
pub open spec fn frontmatter_fields(f: Frontmatter) -> (Seq<char>, Seq<char>, Option<Seq<char>>, Seq<Seq<char>>, bool) {
    (f.title@, f.date@, opt_text(f.description), views(f.tags@), f.draft)
}

/// What a frontmatter block decodes to: the frontmatter, or the YAML
/// error with its location, or a schema problem without one.
pub open spec fn frontmatter_of(text: Seq<char>)
    -> Result<(Seq<char>, Seq<char>, Option<Seq<char>>, Seq<Seq<char>>, bool), (Seq<char>, Option<(usize, usize)>)>
{
    match yaml_parsed(text) {
        Err(p) => Err(p),
        Ok(doc) => match decoded_frontmatter(doc) {
            Ok(f) => Ok(f),
            Err(m) => Err((m, None)),
        },
    }
}

fn leaf_phrase_of(l: &YamlLeaf) -> (r: &'static str)
    ensures
        r@ == leaf_phrase(leaf_view(*l)),
{
    match l {
        YamlLeaf::Null => "unit value",
        YamlLeaf::Bool(_) => "boolean",
        YamlLeaf::Scalar(_) => "string",
        YamlLeaf::Sequence => "sequence",
        YamlLeaf::Mapping => "map",
        YamlLeaf::Tagged => "tagged value",
    }
}

fn value_phrase_of(v: &YamlValue) -> (r: &'static str)
    ensures
        r@ == value_phrase(value_view(*v)),
{
    match v {
        YamlValue::Null => "unit value",
        YamlValue::Bool(_) => "boolean",
        YamlValue::Scalar(_) => "string",
        YamlValue::Sequence(_) => "sequence",
        YamlValue::Mapping => "map",
        YamlValue::Tagged => "tagged value",
    }
}

fn type_error(found: &str, expected: &str) -> (r: String)
    ensures
        r@ == type_message(found@, expected@),
{
    let mut m = concat3("invalid type: ", found, ", expected ");
    push_text(&mut m, expected);
    m
}

fn text_of_leaf(l: &YamlLeaf) -> (r: Result<String, String>)
    ensures
        match leaf_text(leaf_view(*l)) {
            Ok(t) => r matches Ok(s) && s@ == t,
            Err(e) => r matches Err(m) && m@ == e,
        },
{
    match l {
        YamlLeaf::Scalar(s) => Ok(s.clone()),
        YamlLeaf::Bool(b) => Ok(owned(if *b { "true" } else { "false" })),
        YamlLeaf::Null => Ok(String::new()),
        _ => Err(type_error(leaf_phrase_of(l), "a string")),
    }
}

fn text_of_value(v: &YamlValue) -> (r: Result<String, String>)
    ensures
        match value_text(value_view(*v)) {
            Ok(t) => r matches Ok(s) && s@ == t,
            Err(e) => r matches Err(m) && m@ == e,
        },
{
    match v {
        YamlValue::Scalar(s) => Ok(s.clone()),
        YamlValue::Bool(b) => Ok(owned(if *b { "true" } else { "false" })),
        YamlValue::Null => Ok(String::new()),
        _ => Err(type_error(value_phrase_of(v), "a string")),
    }
}

fn field_of<'a>(entries: &'a Vec<(Option<String>, YamlValue)>, key: &str) -> (r: Option<&'a YamlValue>)
    ensures
        match field(entries_view(entries@), key@) {
            Some(v) => r matches Some(x) && value_view(*x) == v,
            None => r is None,
        },
{
    let ghost ev = entries_view(entries@);
    let mut i: usize = 0;
    assert(ev.skip(0) =~= ev);
    while i < entries.len()
        invariant
            i <= entries@.len(),
            ev == entries_view(entries@),
            field(ev, key@) == field(ev.skip(i as int), key@),
        decreases entries@.len() - i,
    {
        proof {
            assert(ev.skip(i as int)[0] == ev[i as int]);
            assert(ev.skip(i as int).drop_first() =~= ev.skip(i + 1));
        }
        let e = &entries[i];
        match &e.0 {
            Some(k) => {
                if text_eq(k, key) {
                    return Some(&e.1);
                }
            },
            None => {},
        }
        i += 1;
    }
    None
}

fn required(entries: &Vec<(Option<String>, YamlValue)>, key: &str) -> (r: Result<String, String>)
    ensures
        match required_field(entries_view(entries@), key@) {
            Ok(t) => r matches Ok(s) && s@ == t,
            Err(e) => r matches Err(m) && m@ == e,
        },
{
    match field_of(entries, key) {
        None => Err(concat3("missing field `", key, "`")),
        Some(v) => text_of_value(v),
    }
}

fn texts(items: &Vec<YamlLeaf>) -> (r: Result<Vec<String>, String>)
    ensures
        match leaf_texts(items@.map_values(|l: YamlLeaf| leaf_view(l))) {
            Ok(ts) => r matches Ok(v) && views(v@) == ts,
            Err(e) => r matches Err(m) && m@ == e,
        },
{
    let ghost iv = items@.map_values(|l: YamlLeaf| leaf_view(l));
    let mut r: Vec<String> = Vec::new();
    let mut i: usize = 0;
    assert(iv.take(0) =~= Seq::<YamlLeafV>::empty());
    assert(views(r@) =~= Seq::<Seq<char>>::empty());
    while i < items.len()
        invariant
            i <= items@.len(),
            iv == items@.map_values(|l: YamlLeaf| leaf_view(l)),
            leaf_texts(iv.take(i as int)) == Ok::<_, Seq<char>>(views(r@)),
        decreases items@.len() - i,
    {
        assert(iv.take(i + 1).drop_last() =~= iv.take(i as int));
        assert(iv.take(i + 1).last() == leaf_view(items@[i as int]));
        match text_of_leaf(&items[i]) {
            Ok(s) => {
                let ghost r0 = r@;
                r.push(s);
                assert(views(r@) =~= views(r0).push(r@[r@.len() - 1]@));
            },
            Err(e) => {
                proof {
                    lemma_leaf_texts_settled(iv, i + 1);
                    assert(iv.take(iv.len() as int) =~= iv);
                }
                return Err(e);
            },
        }
        i += 1;
    }
    assert(iv.take(iv.len() as int) =~= iv);
    Ok(r)
}

proof fn lemma_leaf_texts_settled(items: Seq<YamlLeafV>, n: int)
    requires
        0 <= n <= items.len(),
        leaf_texts(items.take(n)) is Err,
    ensures
        leaf_texts(items) == leaf_texts(items.take(n)),
    decreases items.len(),
{
    if n == items.len() {
        assert(items.take(n) =~= items);
    } else {
        assert(items.drop_last().take(n) =~= items.take(n));
        lemma_leaf_texts_settled(items.drop_last(), n);
    }
}

fn decode_fields(doc: &YamlDoc) -> (r: Result<Frontmatter, String>)
    ensures
        match decoded_frontmatter(doc_view(*doc)) {
            Ok(f) => r matches Ok(x) && frontmatter_fields(x) == f,
            Err(e) => r matches Err(m) && m@ == e,
        },
{
    let m = match doc {
        YamlDoc::Other(l) => return Err(type_error(leaf_phrase_of(l), "struct Frontmatter")),
        YamlDoc::Mapping(m) => m,
    };
    let title = required(m, "title")?;
    let date = required(m, "date")?;
    let description = match field_of(m, "description") {
        None => None,
        Some(YamlValue::Null) => None,
        Some(v) => Some(text_of_value(v)?),
    };
    let tags = match field_of(m, "tags") {
        None => {
            let v: Vec<String> = Vec::new();
            assert(views(v@) =~= Seq::<Seq<char>>::empty());
            v
        },
        Some(YamlValue::Sequence(items)) => texts(items)?,
        Some(v) => return Err(type_error(value_phrase_of(v), "a sequence")),
    };
    let draft = match field_of(m, "draft") {
        None => false,
        Some(YamlValue::Bool(b)) => *b,
        Some(v) => return Err(type_error(value_phrase_of(v), "a boolean")),
    };
    Ok(Frontmatter { title, date, description, tags, draft })
}

/// Decodes a frontmatter block's YAML text.
pub fn decode_frontmatter(text: &str) -> (r: Result<Frontmatter, YamlProblem>)
    ensures
        match frontmatter_of(text@) {
            Ok(f) => r matches Ok(x) && frontmatter_fields(x) == f,
            Err(p) => r matches Err(x) && problem_view(x) == p,
        },
{
    let doc = yaml_document(text)?;
    match decode_fields(&doc) {
        Ok(f) => Ok(f),
        Err(message) => Err(YamlProblem { message, location: None }),
    }
}

/// Each field of a decoded frontmatter is what the document says of it: a
/// text `title`, `date` or `description` is that text, a boolean `draft`
/// that boolean, a list of texts under `tags` those texts in order; an
/// absent `description`, `tags` or `draft` is none, no tags and `false`.
pub proof fn law_frontmatter_fields_keep_their_values(entries: Seq<(Option<Seq<char>>, YamlValueV)>)
    ensures
        decoded_frontmatter(YamlDocV::Mapping(entries)) matches Ok(f) ==> {
            &&& field(entries, "title"@) matches Some(YamlValueV::Scalar(t)) ==> f.0 == t
            &&& field(entries, "date"@) matches Some(YamlValueV::Scalar(d)) ==> f.1 == d
            &&& field(entries, "description"@) matches Some(YamlValueV::Scalar(x)) ==> f.2 == Some(x)
            &&& field(entries, "description"@) is None ==> f.2 is None
            &&& field(entries, "tags"@) is None ==> f.3.len() == 0
            &&& field(entries, "tags"@) matches Some(YamlValueV::Sequence(items)) ==> {
                &&& f.3.len() == items.len()
                &&& forall|i: int| 0 <= i < items.len() ==> (#[trigger] items[i] matches YamlLeafV::Scalar(x) ==> f.3[i] == x)
            }
            &&& field(entries, "draft"@) matches Some(YamlValueV::Bool(b)) ==> f.4 == b
            &&& field(entries, "draft"@) is None ==> !f.4
        },
{
    if let Some(YamlValueV::Sequence(items)) = field(entries, "tags"@) {
        lemma_leaf_texts(items);
    }
}

proof fn lemma_leaf_texts(items: Seq<YamlLeafV>)
    ensures
        leaf_texts(items) matches Ok(ts) ==> {
            &&& ts.len() == items.len()
            &&& forall|i: int| 0 <= i < items.len() ==> (#[trigger] items[i] matches YamlLeafV::Scalar(x) ==> ts[i] == x)
        },
        (forall|i: int| 0 <= i < items.len() ==> #[trigger] items[i] is Scalar) ==> leaf_texts(items) is Ok,
    decreases items.len(),
{
    if items.len() > 0 {
        let rest = items.drop_last();
        lemma_leaf_texts(rest);
        assert forall|i: int| 0 <= i < rest.len() implies rest[i] == items[i] by {}
        if forall|i: int| 0 <= i < items.len() ==> #[trigger] items[i] is Scalar {
            assert forall|i: int| 0 <= i < rest.len() implies #[trigger] rest[i] is Scalar by {
                assert(items[i] is Scalar);
            }
            assert(items[items.len() - 1] is Scalar);
        }
    }
}

/// A mapping with text `title` and `date`, a text or no `description`, a
/// list of texts or no `tags`, and a boolean or no `draft` always decodes.
pub proof fn law_well_typed_frontmatter_decodes(entries: Seq<(Option<Seq<char>>, YamlValueV)>)
    requires
        field(entries, "title"@) matches Some(t) && t is Scalar,
        field(entries, "date"@) matches Some(d) && d is Scalar,
        field(entries, "description"@) matches Some(x) ==> x is Scalar,
        field(entries, "tags"@) matches Some(t) ==> t is Sequence,
        field(entries, "tags"@) matches Some(YamlValueV::Sequence(items))
            ==> forall|i: int| 0 <= i < items.len() ==> #[trigger] items[i] is Scalar,
        field(entries, "draft"@) matches Some(b) ==> b is Bool,
    ensures
        decoded_frontmatter(YamlDocV::Mapping(entries)) is Ok,
{
    if let Some(YamlValueV::Sequence(items)) = field(entries, "tags"@) {
        lemma_leaf_texts(items);
    }
}

} // verus!

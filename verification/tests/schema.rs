use blog::content::json::index_json;
use blog::content::{
    check_schema_version, AstError, Document, Frontmatter, IndexEntry, Node,
    NumberValue, PropValue, StrMap, SCHEMA_VERSION,
};

fn sample_document() -> Document {
    let mut props = StrMap::new();
    props.insert("kind".to_string(), PropValue::String("warning".into()));
    props.insert("level".to_string(), PropValue::Number(NumberValue::parse("3").unwrap()));
    props.insert("dismissable".to_string(), PropValue::Bool(true));
    Document {
        schema_version: SCHEMA_VERSION,
        frontmatter: Frontmatter {
            title: "Hello".into(),
            date: "2026-07-04".into(),
            description: None,
            tags: vec!["rust".into(), "leptos".into()],
            draft: false,
        },
        ast: vec![
            Node::Heading { level: 1, children: vec![Node::Text { value: "Hello".into() }] },
            Node::Paragraph {
                children: vec![
                    Node::Text { value: "Some ".into() },
                    Node::Emphasis { children: vec![Node::Text { value: "prose".into() }] },
                    Node::Text { value: ".".into() },
                ],
            },
            Node::CodeBlock { lang: Some("rust".into()), text: "fn main() {}".into() },
            Node::Component {
                name: "Callout".into(),
                props,
                children: vec![Node::Paragraph {
                    children: vec![Node::Text { value: "Careful.".into() }],
                }],
            },
        ],
    }
}

#[test]
fn current_schema_version_is_stamped() {
    let json = sample_document().to_json();
    let value: serde_json::Value = serde_json::from_str(&json).unwrap();
    assert_eq!(value["schema_version"], serde_json::Value::from(SCHEMA_VERSION));
}

#[test]
fn component_props_serialize_as_bare_scalars() {
    let json = sample_document().to_json();
    let value: serde_json::Value = serde_json::from_str(&json).unwrap();
    let component = &value["ast"][3];
    assert_eq!(component["type"], "component");
    assert_eq!(component["name"], "Callout");
    assert_eq!(component["props"]["kind"], "warning");
    assert_eq!(component["props"]["level"], serde_json::Value::from(3.0));
    assert_eq!(component["props"]["dismissable"], true);
}

#[test]
fn check_schema_version_accepts_only_the_current_version() {
    assert!(check_schema_version(sample_document()).is_ok());
    let mut old = sample_document();
    old.schema_version = 0;
    match check_schema_version(old) {
        Err(AstError::SchemaVersionMismatch { found, expected }) => {
            assert_eq!(found, 0);
            assert_eq!(expected, SCHEMA_VERSION);
        }
        other => panic!("expected SchemaVersionMismatch, got {other:?}"),
    }
}

#[test]
fn ast_error_messages() {
    let e = AstError::SchemaVersionMismatch { found: 0, expected: 1 };
    assert_eq!(e.message(), "schema version mismatch: found 0, expected 1");
    assert_eq!(AstError::Json("eof".into()).message(), "invalid document JSON: eof");
}

#[test]
fn index_entry_matches_kv_index_shape() {
    let entry = IndexEntry::new(
        "hello",
        &Frontmatter {
            title: "Hello".into(),
            date: "2026-07-04".into(),
            description: None,
            tags: vec!["rust".into()],
            draft: true,
        },
    );
    let json = index_json(&[entry.clone()]);
    let value: serde_json::Value = serde_json::from_str(&json).unwrap();
    let expected: serde_json::Value = serde_json::from_str(
        r#"[{"slug": "hello", "title": "Hello", "date": "2026-07-04", "tags": ["rust"], "draft": true}]"#,
    )
    .unwrap();
    assert_eq!(value, expected);
}

#[test]
fn index_json_keeps_descriptions_and_omits_absent_ones() {
    let with = IndexEntry::new(
        "a",
        &Frontmatter {
            title: "A \"quoted\" title".into(),
            date: "2026-01-01".into(),
            description: Some("line\nbreak".into()),
            tags: vec![],
            draft: false,
        },
    );
    let json = index_json(&[with.clone()]);
    let value: serde_json::Value = serde_json::from_str(&json).unwrap();
    assert_eq!(value[0]["description"], "line\nbreak");
    assert_eq!(value[0]["title"], "A \"quoted\" title");
}

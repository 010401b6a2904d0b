use blog::content::{parse, Node, NumberValue, PropValue, SCHEMA_VERSION};

const MINIMAL: &str = "---\ntitle: Hello\ndate: 2026-07-04\n---\n\nJust prose.\n";

#[test]
fn parses_frontmatter_and_prose() {
    let doc = parse(MINIMAL).unwrap();
    assert_eq!(doc.schema_version, SCHEMA_VERSION);
    assert_eq!(doc.frontmatter.title, "Hello");
    assert_eq!(doc.frontmatter.date, "2026-07-04");
    assert!(doc.frontmatter.tags.is_empty());
    assert!(!doc.frontmatter.draft);
    assert_eq!(
        doc.ast,
        vec![Node::Paragraph {
            children: vec![Node::Text {
                value: "Just prose.".into()
            }]
        }]
    );
}

#[test]
fn parses_full_frontmatter() {
    let source = "---\ntitle: T\ndate: 2026-01-01\ntags: [rust, leptos]\ndraft: true\n---\n\nx\n";
    let doc = parse(source).unwrap();
    assert_eq!(doc.frontmatter.tags, vec!["rust", "leptos"]);
    assert!(doc.frontmatter.draft);
}

#[test]
fn parses_component_with_scalar_props_and_markdown_children() {
    let source = "---\ntitle: T\ndate: 2026-01-01\n---\n\n<Callout kind=\"warning\" level={3} dismissable={true}>\n  Some *emphasis* inside.\n</Callout>\n";
    let doc = parse(source).unwrap();
    let Node::Component {
        name,
        props,
        children,
    } = &doc.ast[0]
    else {
        panic!("expected component, got {:?}", doc.ast[0]);
    };
    assert_eq!(name, "Callout");
    assert_eq!(props.get("kind"), Some(&PropValue::String("warning".into())));
    assert_eq!(
        props.get("level"),
        Some(&PropValue::Number(NumberValue::parse("3.0").unwrap()))
    );
    assert_eq!(props.get("dismissable"), Some(&PropValue::Bool(true)));
    assert_eq!(
        children[0],
        Node::Paragraph {
            children: vec![
                Node::Text {
                    value: "Some ".into()
                },
                Node::Emphasis {
                    children: vec![Node::Text {
                        value: "emphasis".into()
                    }]
                },
                Node::Text {
                    value: " inside.".into()
                },
            ]
        }
    );
}

#[test]
fn bare_prop_is_boolean_true() {
    let source = "---\ntitle: T\ndate: 2026-01-01\n---\n\n<Demo autoplay />\n";
    let doc = parse(source).unwrap();
    let Node::Component { props, .. } = &doc.ast[0] else {
        panic!("expected component");
    };
    assert_eq!(props.get("autoplay"), Some(&PropValue::Bool(true)));
}

#[test]
fn lowercase_tags_pass_through_as_html() {
    let source =
        "---\ntitle: T\ndate: 2026-01-01\n---\n\nAn <abbr title=\"HyperText\">HT</abbr> here.\n";
    let doc = parse(source).unwrap();
    let Node::Paragraph { children } = &doc.ast[0] else {
        panic!("expected paragraph");
    };
    let Node::Html {
        tag,
        attrs,
        children: inner,
    } = &children[1]
    else {
        panic!("expected html node, got {:?}", children[1]);
    };
    assert_eq!(tag, "abbr");
    assert_eq!(attrs.get("title").map(|s| s.as_str()), Some("HyperText"));
    assert_eq!(inner, &vec![Node::Text { value: "HT".into() }]);
}

#[test]
fn number_literals_keep_their_canonical_decimal_text() {
    let n = |s: &str| NumberValue::parse(s).map(|v| v.text().clone());
    assert_eq!(n("3"), Some("3".to_string()));
    assert_eq!(n("+007.50"), Some("7.5".to_string()));
    assert_eq!(n("-.5"), Some("-0.5".to_string()));
    assert_eq!(n("2."), Some("2".to_string()));
    assert_eq!(n("1e3"), None);
    assert_eq!(n("."), None);
    assert_eq!(n("inf"), None);
}

#[test]
fn integral_numbers_fit_an_i64() {
    let n = |s: &str| NumberValue::parse(s).unwrap().integral();
    assert_eq!(n("42"), Some(42));
    assert_eq!(n("-9223372036854775808"), Some(i64::MIN));
    assert_eq!(n("9223372036854775808"), None);
    assert_eq!(n("3.5"), None);
    assert_eq!(n("3.0"), Some(3));
}

#[test]
fn a_number_past_the_double_range_is_not_a_literal() {
    let max = "179769313486231580793728971405303415079934132710037826936173778980444968292764750946649017977587207096330286416692887910946555547851940402630657488671505820681908902000708383676273854845817711531764475730270069855571366959622842914819860834936475292719074168444365510704342711559699508093042880177904174497791";
    assert!(NumberValue::parse(max).is_some());
    let over = format!("{}0", &max[..max.len() - 1]);
    let over = format!("{}2", &over[..over.len() - 1]);
    assert!(NumberValue::parse(&over).is_none());
}

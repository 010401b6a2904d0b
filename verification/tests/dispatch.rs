use blog::content::{NumberValue, PropType, PropValue, StrMap};
use blog::registry::{
    convert_props, lookup, manifest, optional_prop, post_component, required_prop,
    ComponentSignature, DispatchError, Param, PropArg, RegisteredComponent, SegmentArgs, TypeShape,
    UNSUPPORTED,
};

fn path(last: &str) -> TypeShape {
    TypeShape::Path { last: last.into(), args: SegmentArgs::Bare }
}

fn option_of(inner: TypeShape) -> TypeShape {
    TypeShape::Path {
        last: "Option".into(),
        args: SegmentArgs::Angle { count: 1, first: Some(Box::new(inner)) },
    }
}

fn named(name: &str, ty: TypeShape) -> Param {
    Param::Named { name: name.into(), ty }
}

fn signature(name: &str, params: Vec<Param>) -> ComponentSignature {
    ComponentSignature {
        name: name.into(),
        generic: false,
        params,
        attributes: vec!["component".into()],
    }
}

fn kitchen() -> RegisteredComponent {
    post_component(
        true,
        &signature(
            "Kitchen",
            vec![
                named("label", path("String")),
                named("ratio", path("f64")),
                named("count", path("i64")),
                named("loud", path("bool")),
                named("note", option_of(path("String"))),
                named("children", path("Children")),
            ],
        ),
    )
    .expect("Kitchen registers")
}

fn leaf() -> RegisteredComponent {
    post_component(true, &signature("Leaf", vec![named("tag", path("String"))])).expect("Leaf registers")
}

fn number(text: &str) -> PropValue {
    PropValue::Number(NumberValue::parse(text).unwrap())
}

fn full_props() -> StrMap<PropValue> {
    let mut props = StrMap::new();
    props.insert("label".into(), PropValue::String("hi".into()));
    props.insert("ratio".into(), number("1.5"));
    props.insert("count".into(), number("3.0"));
    props.insert("loud".into(), PropValue::Bool(true));
    props
}

#[test]
fn manifest_describes_the_registered_signature() {
    let manifest = manifest(&[kitchen(), leaf()]);
    let spec = manifest.get("Kitchen").expect("Kitchen in manifest");

    assert!(spec.accepts_children);
    let described: Vec<(&str, PropType, bool)> =
        spec.props.iter().map(|p| (p.name.as_str(), p.ty, p.required)).collect();
    assert_eq!(
        described,
        vec![
            ("label", PropType::String, true),
            ("ratio", PropType::Float, true),
            ("count", PropType::Int, true),
            ("loud", PropType::Bool, true),
            ("note", PropType::String, false),
        ]
    );

    let leaf = manifest.get("Leaf").expect("Leaf in manifest");
    assert!(!leaf.accepts_children);
}

#[test]
fn manifest_sorts_by_name_whatever_the_registration_order() {
    let a = manifest(&[kitchen(), leaf()]);
    let b = manifest(&[leaf(), kitchen()]);
    assert_eq!(a, b);
    let names: Vec<&str> = a.components.iter().map(|c| c.name.as_str()).collect();
    assert_eq!(names, ["Kitchen", "Leaf"]);
}

#[test]
fn dispatch_converts_every_declared_prop() {
    let args = convert_props(&kitchen().props, &full_props()).expect("converts");
    assert_eq!(args.len(), 5);
    assert_eq!(args[0], Some(PropArg::Text("hi".into())));
    match &args[1] {
        Some(PropArg::Number(n)) => assert_eq!(n.text(), "1.5"),
        other => panic!("ratio: {other:?}"),
    }
    assert_eq!(args[2], Some(PropArg::Int(3)));
    assert_eq!(args[3], Some(PropArg::Flag(true)));
    assert_eq!(args[4], None);
}

#[test]
fn dispatch_passes_the_optional_prop_when_present() {
    let mut with_note = full_props();
    with_note.insert("note".into(), PropValue::String("psst".into()));
    let args = convert_props(&kitchen().props, &with_note).expect("converts");
    assert_eq!(args[4], Some(PropArg::Text("psst".into())));
}

#[test]
fn dispatch_reports_missing_required_prop() {
    let mut missing = StrMap::new();
    missing.insert("ratio".into(), number("1.5"));
    missing.insert("count".into(), number("3"));
    missing.insert("loud".into(), PropValue::Bool(true));
    let err = convert_props(&kitchen().props, &missing).expect_err("must fail");
    assert_eq!(err, DispatchError::MissingProp { prop: "label".into() });
    assert_eq!(err.message(), "missing required prop `label`");
}

#[test]
fn dispatch_reports_type_mismatch() {
    let mut wrong = full_props();
    wrong.insert("count".into(), PropValue::String("3".into()));
    let err = convert_props(&kitchen().props, &wrong).expect_err("must fail");
    assert_eq!(err, DispatchError::TypeMismatch { prop: "count".into(), expected: PropType::Int });
    assert_eq!(err.message(), "prop `count` expects an integer");
}

#[test]
fn dispatch_rejects_fractional_value_for_int_prop() {
    let mut fractional = full_props();
    fractional.insert("count".into(), number("3.5"));
    let err = convert_props(&kitchen().props, &fractional).expect_err("must fail");
    assert_eq!(err, DispatchError::TypeMismatch { prop: "count".into(), expected: PropType::Int });
}

#[test]
fn dispatch_reports_the_first_failing_prop_in_declared_order() {
    let mut two_wrong = StrMap::new();
    two_wrong.insert("label".into(), PropValue::Bool(false));
    let err = convert_props(&kitchen().props, &two_wrong).expect_err("must fail");
    assert_eq!(err, DispatchError::TypeMismatch { prop: "label".into(), expected: PropType::String });
}

#[test]
fn optional_and_required_props_read_one_value() {
    let props = full_props();
    assert_eq!(required_prop::<bool>(&props, "loud"), Ok(true));
    assert_eq!(required_prop::<i64>(&props, "count"), Ok(3));
    assert_eq!(optional_prop::<String>(&props, "note"), Ok(None));
    assert_eq!(
        optional_prop::<bool>(&props, "label"),
        Err(DispatchError::TypeMismatch { prop: "label".into(), expected: PropType::Bool })
    );
    assert_eq!(
        required_prop::<i64>(&props, "nope"),
        Err(DispatchError::MissingProp { prop: "nope".into() })
    );
}

#[test]
fn lookup_misses_unregistered_names() {
    let registry = [kitchen(), leaf()];
    assert!(lookup(&registry, "Nope").is_none());
    assert_eq!(lookup(&registry, "Leaf").map(|c| c.name.as_str()), Some("Leaf"));
}

#[test]
fn registration_rejects_what_it_cannot_dispatch() {
    let hint = "\n= help: #[post_component] must sit above #[component] or #[island] (no such attribute was found below it)";
    assert_eq!(
        post_component(false, &signature("Bad", vec![named("msg", path("String"))])).unwrap_err(),
        "#[post_component] takes no arguments"
    );
    let mut generic = signature("Bad", vec![named("msg", path("String"))]);
    generic.generic = true;
    assert_eq!(
        post_component(true, &generic).unwrap_err(),
        "#[post_component] components cannot be generic (v1 scope)"
    );
    assert_eq!(
        post_component(true, &signature("bad", vec![Param::Receiver, named("msg", path("String"))])).unwrap_err(),
        "#[post_component] components cannot take `self`"
    );
    assert_eq!(
        post_component(true, &signature("Bad", vec![Param::Pattern])).unwrap_err(),
        "#[post_component] props must be plain identifiers, not patterns"
    );
    let vec_of_string = || TypeShape::Path {
        last: "Vec".into(),
        args: SegmentArgs::Angle { count: 1, first: Some(Box::new(path("String"))) },
    };
    assert_eq!(
        post_component(true, &signature("Bad", vec![named("children", vec_of_string())])).unwrap_err(),
        "#[post_component] children must be plain `Children` (v1 scope)"
    );
    assert_eq!(
        post_component(true, &signature("Bad", vec![named("data", vec_of_string())])).unwrap_err(),
        UNSUPPORTED
    );
    let mut below = signature("Bad", vec![named("msg", TypeShape::Other)]);
    below.attributes = vec![];
    assert_eq!(post_component(true, &below).unwrap_err(), format!("{UNSUPPORTED}{hint}"));
}

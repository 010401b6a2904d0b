//! The component registry: which components exist and with which props.
//! A registration comes from a component's declared signature; the
//! manifest is every registration in name order; dispatch turns a node's
//! string-keyed props into the typed arguments of the component call.
use vstd::prelude::*;

use crate::content::manifest::type_accepts;
use crate::content::numbers::integral_value;
use crate::content::strmap::assoc_get;
use crate::content::{ComponentSpec, Manifest, NumberValue, PropSpec, PropType, PropValue, PropValueV, StrMap};
use crate::text::{compare_text, concat3, push_text, text_eq, text_lt, Order};

verus! {

/// The message of a dispatch error.
pub open spec fn dispatch_message(e: DispatchError) -> Seq<char> {
    match e {
        DispatchError::MissingProp { prop } => "missing required prop `"@ + prop@ + "`"@,
        DispatchError::TypeMismatch { prop, expected } => "prop `"@ + prop@ + "` expects "@
            + crate::content::manifest::type_phrase(expected),
    }
}

/// One prop of a registered component.
#[derive(Debug, Clone, PartialEq)]
pub struct PropInfo {
    pub name: String,
    pub ty: PropType,
    pub required: bool,
}

/// Why a node's props cannot make the component call. Content validated
/// at publish time never meets one; it exists so bad stored data fails
/// loudly.
#[derive(Debug, Clone, PartialEq)]
pub enum DispatchError {
    MissingProp { prop: String },
    TypeMismatch { prop: String, expected: PropType },
}

impl DispatchError {
    /// `missing required prop `label`` / `prop `count` expects an integer`.
    pub fn message(&self) -> (r: String)
        ensures
            r@ == dispatch_message(*self),
    {
        match self {
            DispatchError::MissingProp { prop } => concat3("missing required prop `", prop, "`"),
            DispatchError::TypeMismatch { prop, expected } => {
                let mut r = concat3("prop `", prop, "` expects ");
                let d = expected.describe();
                push_text(&mut r, d);
                r
            },
        }
    }
}

/// A type that a prop value converts into.
pub trait FromPropValue: Sized {
    /// The manifest type of a prop declared with this type.
    spec fn kind() -> PropType;

    /// `x` is what `value` converts to.
    spec fn converts(value: PropValueV, x: Self) -> bool;

    /// The manifest type of a prop declared with this type.
    fn prop_type() -> (t: PropType)
        ensures
            t == Self::kind(),
    ;

    /// The value, when it has this type.
    fn from_prop(value: &PropValue) -> (r: Option<Self>)
        ensures
            match r {
                Some(x) => type_accepts(Self::kind(), value@) && Self::converts(value@, x),
                None => !type_accepts(Self::kind(), value@),
            },
    ;
}

impl FromPropValue for String {
    open spec fn kind() -> PropType {
        PropType::String
    }

    open spec fn converts(value: PropValueV, x: String) -> bool {
        value == PropValueV::String(x@)
    }

    fn prop_type() -> (t: PropType) {
        PropType::String
    }

    fn from_prop(value: &PropValue) -> (r: Option<String>) {
        match value {
            PropValue::String(s) => Some(s.clone()),
            _ => None,
        }
    }
}

impl FromPropValue for NumberValue {
    open spec fn kind() -> PropType {
        PropType::Float
    }

    open spec fn converts(value: PropValueV, x: NumberValue) -> bool {
        value == PropValueV::Number(x@)
    }

    fn prop_type() -> (t: PropType) {
        PropType::Float
    }

    fn from_prop(value: &PropValue) -> (r: Option<NumberValue>) {
        match value {
            PropValue::Number(n) => Some(n.copy()),
            _ => None,
        }
    }
}

impl FromPropValue for i64 {
    open spec fn kind() -> PropType {
        PropType::Int
    }

    open spec fn converts(value: PropValueV, x: i64) -> bool {
        value matches PropValueV::Number(t) && integral_value(t) == Some(x as int)
    }

    fn prop_type() -> (t: PropType) {
        PropType::Int
    }

    fn from_prop(value: &PropValue) -> (r: Option<i64>) {
        match value {
            PropValue::Number(n) => n.integral(),
            _ => None,
        }
    }
}

impl FromPropValue for bool {
    open spec fn kind() -> PropType {
        PropType::Bool
    }

    open spec fn converts(value: PropValueV, x: bool) -> bool {
        value == PropValueV::Bool(x)
    }

    fn prop_type() -> (t: PropType) {
        PropType::Bool
    }

    fn from_prop(value: &PropValue) -> (r: Option<bool>) {
        match value {
            PropValue::Bool(b) => Some(*b),
            _ => None,
        }
    }
}

/// A required prop: missing is an error, and so is a value of another type.
pub fn required_prop<T: FromPropValue>(props: &StrMap<PropValue>, name: &str) -> (r: Result<T, DispatchError>)
    ensures
        match assoc_get(props@, name@) {
            None => r matches Err(DispatchError::MissingProp { prop }) && prop@ == name@,
            Some(v) => if type_accepts(T::kind(), v@) {
                r matches Ok(x) && T::converts(v@, x)
            } else {
                r matches Err(DispatchError::TypeMismatch { prop, expected }) && prop@ == name@
                    && expected == T::kind()
            },
        },
{
    match props.get(name) {
        None => Err(DispatchError::MissingProp { prop: crate::text::owned(name) }),
        Some(value) => match T::from_prop(value) {
            Some(x) => Ok(x),
            None => Err(DispatchError::TypeMismatch { prop: crate::text::owned(name), expected: T::prop_type() }),
        },
    }
}

/// An optional prop: missing is `None`; a value of another type is still
/// an error.
pub fn optional_prop<T: FromPropValue>(props: &StrMap<PropValue>, name: &str) -> (r: Result<Option<T>, DispatchError>)
    ensures
        match assoc_get(props@, name@) {
            None => r matches Ok(None),
            Some(v) => if type_accepts(T::kind(), v@) {
                r matches Ok(Some(x)) && T::converts(v@, x)
            } else {
                r matches Err(DispatchError::TypeMismatch { prop, expected }) && prop@ == name@
                    && expected == T::kind()
            },
        },
{
    match props.get(name) {
        None => Ok(None),
        Some(value) => match T::from_prop(value) {
            Some(x) => Ok(Some(x)),
            None => Err(DispatchError::TypeMismatch { prop: crate::text::owned(name), expected: T::prop_type() }),
        },
    }
}

/// A typed argument of a component call.
#[derive(Debug, PartialEq)]
pub enum PropArg {
    Text(String),
    Number(NumberValue),
    Int(i64),
    Flag(bool),
}

/// `a` is the argument that `value` converts to for a prop of type `ty`.
pub open spec fn arg_converts(ty: PropType, value: PropValueV, a: PropArg) -> bool {
    match (ty, a) {
        (PropType::String, PropArg::Text(s)) => String::converts(value, s),
        (PropType::Float, PropArg::Number(n)) => NumberValue::converts(value, n),
        (PropType::Int, PropArg::Int(i)) => <i64 as FromPropValue>::converts(value, i),
        (PropType::Bool, PropArg::Flag(b)) => <bool as FromPropValue>::converts(value, b),
        _ => false,
    }
}

/// The node's props cannot supply this prop: it is required and missing,
/// or present with a value of another type.
pub open spec fn prop_fails(info: PropInfo, props: Seq<(Seq<char>, PropValue)>) -> bool {
    match assoc_get(props, info.name@) {
        None => info.required,
        Some(v) => !type_accepts(info.ty, v@),
    }
}

/// `e` is the error for a prop that fails.
pub open spec fn failure_of(info: PropInfo, props: Seq<(Seq<char>, PropValue)>, e: DispatchError) -> bool {
    match assoc_get(props, info.name@) {
        None => e matches DispatchError::MissingProp { prop } && prop@ == info.name@,
        Some(_) => e matches DispatchError::TypeMismatch { prop, expected } && prop@ == info.name@
            && expected == info.ty,
    }
}

/// `a` is the argument passed for a prop that does not fail: `None` when
/// it is absent.
pub open spec fn argument_of(info: PropInfo, props: Seq<(Seq<char>, PropValue)>, a: Option<PropArg>) -> bool {
    match assoc_get(props, info.name@) {
        None => a is None,
        Some(v) => a matches Some(x) && arg_converts(info.ty, v@, x),
    }
}

fn convert_one(info: &PropInfo, props: &StrMap<PropValue>) -> (r: Result<Option<PropArg>, DispatchError>)
    ensures
        match r {
            Ok(a) => !prop_fails(*info, props@) && argument_of(*info, props@, a),
            Err(e) => prop_fails(*info, props@) && failure_of(*info, props@, e),
        },
{
    match info.ty {
        PropType::String => {
            let v: Option<String> = if info.required {
                Some(required_prop::<String>(props, &info.name)?)
            } else {
                optional_prop::<String>(props, &info.name)?
            };
            Ok(match v { Some(x) => Some(PropArg::Text(x)), None => None })
        },
        PropType::Float => {
            let v: Option<NumberValue> = if info.required {
                Some(required_prop::<NumberValue>(props, &info.name)?)
            } else {
                optional_prop::<NumberValue>(props, &info.name)?
            };
            Ok(match v { Some(x) => Some(PropArg::Number(x)), None => None })
        },
        PropType::Int => {
            let v: Option<i64> = if info.required {
                Some(required_prop::<i64>(props, &info.name)?)
            } else {
                optional_prop::<i64>(props, &info.name)?
            };
            Ok(match v { Some(x) => Some(PropArg::Int(x)), None => None })
        },
        PropType::Bool => {
            let v: Option<bool> = if info.required {
                Some(required_prop::<bool>(props, &info.name)?)
            } else {
                optional_prop::<bool>(props, &info.name)?
            };
            Ok(match v { Some(x) => Some(PropArg::Flag(x)), None => None })
        },
    }
}

/// The arguments of a component call, one per declared prop in declared
/// order (`None` for an absent optional prop); the first prop, in declared
/// order, that the node cannot supply is the error.
pub fn convert_props(infos: &[PropInfo], props: &StrMap<PropValue>) -> (r: Result<Vec<Option<PropArg>>, DispatchError>)
    ensures
        match r {
            Ok(args) => args@.len() == infos@.len() && forall|i: int| 0 <= i < infos@.len() ==>
                !prop_fails(#[trigger] infos@[i], props@) && argument_of(infos@[i], props@, args@[i]),
            Err(e) => exists|k: int| 0 <= k < infos@.len() && prop_fails(#[trigger] infos@[k], props@)
                && failure_of(infos@[k], props@, e)
                && forall|j: int| 0 <= j < k ==> !prop_fails(#[trigger] infos@[j], props@),
        },
{
    let mut args: Vec<Option<PropArg>> = Vec::new();
    let mut i: usize = 0;
    while i < infos.len()
        invariant
            i <= infos@.len(),
            args@.len() == i,
            forall|j: int| 0 <= j < i ==> !prop_fails(#[trigger] infos@[j], props@)
                && argument_of(infos@[j], props@, args@[j]),
        decreases infos@.len() - i,
    {
        match convert_one(&infos[i], props) {
            Ok(a) => {
                let ghost a0 = args@;
                args.push(a);
                assert forall|j: int| 0 <= j < i + 1 implies !prop_fails(#[trigger] infos@[j], props@)
                    && argument_of(infos@[j], props@, args@[j]) by {
                    if j < i {
                        assert(args@[j] == a0[j]);
                    }
                }
            },
            Err(e) => {
                assert(prop_fails(infos@[i as int], props@));
                return Err(e);
            },
        }
        i += 1;
    }
    Ok(args)
}

/// One registration: a component's name, its props in declared order, and
/// whether it takes markdown children.
#[derive(Debug, Clone, PartialEq)]
pub struct RegisteredComponent {
    pub name: String,
    pub props: Vec<PropInfo>,
    pub accepts_children: bool,
}

/// The position of the first registration named `name`.
pub open spec fn registration_index(registry: Seq<RegisteredComponent>, name: Seq<char>) -> Option<int>
    decreases registry.len(),
{
    if registry.len() == 0 {
        None
    } else {
        match registration_index(registry.drop_last(), name) {
            Some(i) => Some(i),
            None => if registry.last().name@ == name {
                Some(registry.len() - 1)
            } else {
                None
            },
        }
    }
}

proof fn lemma_registration_index_prefix(registry: Seq<RegisteredComponent>, name: Seq<char>, i: int)
    requires
        0 <= i < registry.len(),
        registration_index(registry.take(i), name) is None,
        registry[i].name@ == name,
    ensures
        registration_index(registry, name) == Some(i),
    decreases registry.len(),
{
    assert(registry.take(i + 1).drop_last() =~= registry.take(i));
    if i + 1 < registry.len() {
        assert(registry.drop_last().take(i) =~= registry.take(i));
        lemma_registration_index_prefix(registry.drop_last(), name, i);
    } else {
        assert(registry.take(i + 1) =~= registry);
    }
}

/// The first registration named `name`.
pub fn lookup<'a>(registry: &'a [RegisteredComponent], name: &str) -> (r: Option<&'a RegisteredComponent>)
    ensures
        match registration_index(registry@, name@) {
            Some(i) => r == Some(&registry@[i]),
            None => r is None,
        },
{
    let mut i: usize = 0;
    while i < registry.len()
        invariant
            i <= registry@.len(),
            registration_index(registry@.take(i as int), name@) is None,
        decreases registry@.len() - i,
    {
        assert(registry@.take(i + 1).drop_last() =~= registry@.take(i as int));
        if text_eq(&registry[i].name, name) {
            proof {
                lemma_registration_index_prefix(registry@, name@, i as int);
            }
            return Some(&registry[i]);
        }
        i += 1;
    }
    assert(registry@.take(registry@.len() as int) =~= registry@);
    None
}

/// The props a component may declare.
pub const UNSUPPORTED: &'static str = "#[post_component] v1 supports props of type String, f64, i64, bool, or Option of one of these, plus `children: Children`";

/// What follows the advice when no component attribute sits below.
pub const ORDERING_HELP: &'static str = "\n= help: #[post_component] must sit above #[component] or #[island] (no such attribute was found below it)";

/// The shape of a declared parameter type, as far as registration reads it.
#[derive(Debug)]
pub enum TypeShape {
    /// A path type (`String`, `leptos::Children`, `Option<i64>`): the last
    /// segment's name and arguments.
    Path { last: String, args: SegmentArgs },
    /// Any other type: a reference, tuple, slice, ...
    Other,
}

/// The arguments of a path segment.
#[derive(Debug)]
pub enum SegmentArgs {
    /// No arguments.
    Bare,
    /// `<...>`: how many arguments, and the first when it is a type.
    Angle { count: usize, first: Option<Box<TypeShape>> },
    /// `(...) -> ...`.
    Parenthesized,
}

/// One parameter of a component function.
#[derive(Debug)]
pub enum Param {
    /// `self` in any form.
    Receiver,
    /// `name: ty`.
    Named { name: String, ty: TypeShape },
    /// A destructuring pattern, such as `(a, b): (String, String)`.
    Pattern,
}

/// A component function's signature as the registration attribute sees it.
#[derive(Debug)]
pub struct ComponentSignature {
    pub name: String,
    /// Type or lifetime parameters, or a `where` clause.
    pub generic: bool,
    pub params: Vec<Param>,
    /// The last path segment of each attribute below the registration one.
    pub attributes: Vec<String>,
}

/// The type's last path segment is `ident`.
pub open spec fn last_segment_is(ty: TypeShape, ident: Seq<char>) -> bool {
    ty matches TypeShape::Path { last, .. } && last@ == ident
}

/// `Option<T>` gives `T`.
pub open spec fn option_inner(ty: TypeShape) -> Option<TypeShape> {
    match ty {
        TypeShape::Path { last, args: SegmentArgs::Angle { count, first: Some(inner) } } =>
            if last@ == "Option"@ && count == 1 { Some(*inner) } else { None },
        _ => None,
    }
}

/// The manifest type of a supported scalar.
pub open spec fn scalar_type(ty: TypeShape) -> Option<PropType> {
    match ty {
        TypeShape::Path { last, args: SegmentArgs::Bare } =>
            if last@ == "String"@ {
                Some(PropType::String)
            } else if last@ == "f64"@ {
                Some(PropType::Float)
            } else if last@ == "i64"@ {
                Some(PropType::Int)
            } else if last@ == "bool"@ {
                Some(PropType::Bool)
            } else {
                None
            },
        _ => None,
    }
}

/// A prop's view: name, type, required.
pub open spec fn info_view(p: PropInfo) -> (Seq<char>, PropType, bool) {
    (p.name@, p.ty, p.required)
}

/// The props and children flag of the parameters, or the message of the
/// first parameter that cannot be registered.
pub open spec fn classify(params: Seq<Param>) -> Result<(Seq<(Seq<char>, PropType, bool)>, bool), Seq<char>>
    decreases params.len(),
{
    if params.len() == 0 {
        Ok((Seq::empty(), false))
    } else {
        match classify(params.drop_last()) {
            Err(e) => Err(e),
            Ok((props, children)) => match params.last() {
                Param::Receiver => Err("#[post_component] components cannot take `self`"@),
                Param::Pattern => Err("#[post_component] props must be plain identifiers, not patterns"@),
                Param::Named { name, ty } => if name@ == "children"@ {
                    if last_segment_is(ty, "Children"@) {
                        Ok((props, true))
                    } else {
                        Err("#[post_component] children must be plain `Children` (v1 scope)"@)
                    }
                } else {
                    let (inner, required) = match option_inner(ty) {
                        Some(i) => (i, false),
                        None => (ty, true),
                    };
                    match scalar_type(inner) {
                        Some(t) => Ok((props.push((name@, t, required)), children)),
                        None => Err(UNSUPPORTED@),
                    }
                },
            },
        }
    }
}

/// Some attribute below is `#[component]` or `#[island]`.
pub open spec fn has_component_attr(attributes: Seq<String>) -> bool {
    exists|i: int| 0 <= i < attributes.len() && ((#[trigger] attributes[i])@ == "component"@
        || attributes[i]@ == "island"@)
}

/// What registering `sig` gives: its props and children flag, or the error
/// to report, with the ordering advice when no component attribute was
/// found below.
pub open spec fn registration(args_empty: bool, sig: ComponentSignature)
    -> Result<(Seq<(Seq<char>, PropType, bool)>, bool), Seq<char>>
{
    let hint = |e: Seq<char>| if has_component_attr(sig.attributes@) { e } else { e + ORDERING_HELP@ };
    if !args_empty {
        Err("#[post_component] takes no arguments"@)
    } else if sig.generic {
        Err(hint("#[post_component] components cannot be generic (v1 scope)"@))
    } else {
        match classify(sig.params@) {
            Ok(r) => Ok(r),
            Err(e) => Err(hint(e)),
        }
    }
}

proof fn lemma_classify_settled(params: Seq<Param>, n: int)
    requires
        0 <= n <= params.len(),
        classify(params.take(n)) is Err,
    ensures
        classify(params) == classify(params.take(n)),
    decreases params.len(),
{
    if n == params.len() {
        assert(params.take(n) =~= params);
    } else {
        assert(params.drop_last().take(n) =~= params.take(n));
        lemma_classify_settled(params.drop_last(), n);
    }
}

fn is_last_segment(ty: &TypeShape, ident: &str) -> (r: bool)
    ensures
        r == last_segment_is(*ty, ident@),
{
    match ty {
        TypeShape::Path { last, .. } => text_eq(last, ident),
        TypeShape::Other => false,
    }
}

fn inner_of(ty: &TypeShape) -> (r: Option<&TypeShape>)
    ensures
        match option_inner(*ty) {
            Some(i) => r == Some(&i),
            None => r is None,
        },
{
    match ty {
        TypeShape::Path { last, args: SegmentArgs::Angle { count, first: Some(inner) } } => {
            if text_eq(last, "Option") && *count == 1 {
                Some(&**inner)
            } else {
                None
            }
        },
        _ => None,
    }
}

fn scalar_of(ty: &TypeShape) -> (r: Option<PropType>)
    ensures
        r == scalar_type(*ty),
{
    match ty {
        TypeShape::Path { last, args: SegmentArgs::Bare } => {
            if text_eq(last, "String") {
                Some(PropType::String)
            } else if text_eq(last, "f64") {
                Some(PropType::Float)
            } else if text_eq(last, "i64") {
                Some(PropType::Int)
            } else if text_eq(last, "bool") {
                Some(PropType::Bool)
            } else {
                None
            }
        },
        _ => None,
    }
}

fn with_hint(e: String, attributes: &Vec<String>) -> (r: String)
    ensures
        r@ == (if has_component_attr(attributes@) { e@ } else { e@ + ORDERING_HELP@ }),
{
    let mut i: usize = 0;
    while i < attributes.len()
        invariant
            i <= attributes@.len(),
            forall|j: int| 0 <= j < i ==> !((#[trigger] attributes@[j])@ == "component"@ || attributes@[j]@ == "island"@),
        decreases attributes@.len() - i,
    {
        if text_eq(&attributes[i], "component") || text_eq(&attributes[i], "island") {
            return e;
        }
        i += 1;
    }
    let mut r = e;
    push_text(&mut r, ORDERING_HELP);
    r
}

/// The registration of a component: its props in declared order (an
/// `Option<T>` prop is optional), whether it takes `children: Children`,
/// or the error to report. The attribute takes no arguments; the function
/// may not be generic, take `self` or destructure a parameter; a prop must
/// be `String`, `f64`, `i64`, `bool` or an `Option` of one of these.
pub fn post_component(args_empty: bool, sig: &ComponentSignature) -> (r: Result<RegisteredComponent, String>)
    ensures
        match registration(args_empty, *sig) {
            Ok((props, children)) => r matches Ok(c) && c.name@ == sig.name@
                && c.props@.map_values(|p: PropInfo| info_view(p)) == props && c.accepts_children == children,
            Err(e) => r matches Err(m) && m@ == e,
        },
{
    if !args_empty {
        return Err(crate::text::owned("#[post_component] takes no arguments"));
    }
    if sig.generic {
        return Err(with_hint(crate::text::owned("#[post_component] components cannot be generic (v1 scope)"), &sig.attributes));
    }
    let mut props: Vec<PropInfo> = Vec::new();
    let mut children = false;
    let mut i: usize = 0;
    assert(sig.params@.take(0) =~= Seq::<Param>::empty());
    assert(props@.map_values(|p: PropInfo| info_view(p)) =~= Seq::<(Seq<char>, PropType, bool)>::empty());
    while i < sig.params.len()
        invariant
            args_empty,
            !sig.generic,
            i <= sig.params@.len(),
            classify(sig.params@.take(i as int)) == Ok::<(Seq<(Seq<char>, PropType, bool)>, bool), Seq<char>>(
                (props@.map_values(|p: PropInfo| info_view(p)), children)),
        decreases sig.params@.len() - i,
    {
        assert(sig.params@.take(i + 1).drop_last() =~= sig.params@.take(i as int));
        assert(sig.params@.take(i + 1).last() == sig.params@[i as int]);
        match &sig.params[i] {
            Param::Receiver => {
                proof {
                    lemma_classify_settled(sig.params@, i + 1);
                }
                return Err(with_hint(crate::text::owned("#[post_component] components cannot take `self`"), &sig.attributes));
            },
            Param::Pattern => {
                proof {
                    lemma_classify_settled(sig.params@, i + 1);
                }
                return Err(with_hint(crate::text::owned("#[post_component] props must be plain identifiers, not patterns"), &sig.attributes));
            },
            Param::Named { name, ty } => {
                if text_eq(name, "children") {
                    if is_last_segment(ty, "Children") {
                        children = true;
                    } else {
                        proof {
                    lemma_classify_settled(sig.params@, i + 1);
                }
                return Err(with_hint(crate::text::owned("#[post_component] children must be plain `Children` (v1 scope)"), &sig.attributes));
                    }
                } else {
                    let (inner, required) = match inner_of(ty) {
                        Some(i) => (i, false),
                        None => (ty, true),
                    };
                    match scalar_of(inner) {
                        Some(t) => {
                            let ghost p0 = props@;
                            props.push(PropInfo { name: name.clone(), ty: t, required });
                            assert(props@.map_values(|p: PropInfo| info_view(p)) =~= p0.map_values(|p: PropInfo| info_view(p)).push((name@, t, required)));
                        },
                        None => {
                            proof {
                                lemma_classify_settled(sig.params@, i + 1);
                            }
                            return Err(with_hint(crate::text::owned(UNSUPPORTED), &sig.attributes));
                        },
                    }
                }
            },
        }
        i += 1;
    }
    assert(sig.params@.take(sig.params@.len() as int) =~= sig.params@);
    Ok(RegisteredComponent { name: sig.name.clone(), props, accepts_children: children })
}

/// A manifest entry over plain values.
pub struct ComponentV {
    pub name: Seq<char>,
    pub props: Seq<(Seq<char>, PropType, bool)>,
    pub accepts_children: bool,
}

/// What a manifest entry says.
pub open spec fn spec_view(c: ComponentSpec) -> ComponentV {
    ComponentV {
        name: c.name@,
        props: c.props@.map_values(|p: PropSpec| (p.name@, p.ty, p.required)),
        accepts_children: c.accepts_children,
    }
}

/// What a registration says.
pub open spec fn registration_view(c: RegisteredComponent) -> ComponentV {
    ComponentV {
        name: c.name@,
        props: c.props@.map_values(|p: PropInfo| info_view(p)),
        accepts_children: c.accepts_children,
    }
}

/// `c` put into name-sorted `sorted` after every entry whose name is not
/// greater: a stable insertion.
pub open spec fn insert_by_name(sorted: Seq<ComponentV>, c: ComponentV) -> Seq<ComponentV>
    decreases sorted.len(),
{
    if sorted.len() == 0 {
        seq![c]
    } else if text_lt(c.name, sorted.last().name) {
        insert_by_name(sorted.drop_last(), c).push(sorted.last())
    } else {
        sorted.push(c)
    }
}

/// The entries in name order; entries with equal names keep their order.
pub open spec fn sort_by_name(s: Seq<ComponentV>) -> Seq<ComponentV>
    decreases s.len(),
{
    if s.len() == 0 {
        Seq::empty()
    } else {
        insert_by_name(sort_by_name(s.drop_last()), s.last())
    }
}

/// Names never decrease along the sequence.
pub open spec fn names_ordered(s: Seq<ComponentV>) -> bool {
    forall|i: int, j: int| 0 <= i < j < s.len() ==> !text_lt(#[trigger] s[j].name, #[trigger] s[i].name)
}

proof fn lemma_insert_at(sorted: Seq<ComponentV>, c: ComponentV, j: int)
    requires
        0 <= j <= sorted.len(),
        forall|k: int| j <= k < sorted.len() ==> text_lt(c.name, #[trigger] sorted[k].name),
        j == 0 || !text_lt(c.name, sorted[j - 1].name),
    ensures
        insert_by_name(sorted, c) == sorted.insert(j, c),
    decreases sorted.len(),
{
    if sorted.len() == 0 {
        assert(sorted.insert(j, c) =~= seq![c]);
    } else if j == sorted.len() {
        assert(sorted.insert(j, c) =~= sorted.push(c));
    } else {
        assert(text_lt(c.name, sorted.last().name));
        lemma_insert_at(sorted.drop_last(), c, j);
        assert(sorted.insert(j, c) =~= sorted.drop_last().insert(j, c).push(sorted.last()));
    }
}

proof fn lemma_insert_keeps_order(sorted: Seq<ComponentV>, c: ComponentV)
    requires
        names_ordered(sorted),
    ensures
        names_ordered(insert_by_name(sorted, c)),
        insert_by_name(sorted, c).len() == sorted.len() + 1,
    decreases sorted.len(),
{
    if sorted.len() > 0 {
        if text_lt(c.name, sorted.last().name) {
            let rest = insert_by_name(sorted.drop_last(), c);
            lemma_insert_keeps_order(sorted.drop_last(), c);
            lemma_insert_members(sorted.drop_last(), c);
            let r = rest.push(sorted.last());
            assert forall|i: int, j: int| 0 <= i < j < r.len() implies !text_lt(#[trigger] r[j].name, #[trigger] r[i].name) by {
                if j == r.len() - 1 && i < j {
                    let x = r[i];
                    if x == c {
                        crate::text::lemma_text_lt_asymmetric(c.name, sorted.last().name);
                    } else {
                        let k = choose|k: int| 0 <= k < sorted.len() - 1 && sorted[k] == x;
                        assert(!text_lt(sorted[sorted.len() - 1].name, sorted[k].name));
                    }
                }
            }
        } else {
            let r = sorted.push(c);
            assert forall|i: int, j: int| 0 <= i < j < r.len() implies !text_lt(#[trigger] r[j].name, #[trigger] r[i].name) by {
                if j == r.len() - 1 && i < j {
                    if i < sorted.len() - 1 {
                        assert(!text_lt(sorted[sorted.len() - 1].name, sorted[i].name));
                        if text_lt(c.name, sorted[i].name) {
                            crate::text::lemma_text_lt_total(c.name, sorted.last().name);
                            if text_lt(sorted.last().name, c.name) {
                                crate::text::lemma_text_lt_transitive(sorted.last().name, c.name, sorted[i].name);
                            }
                        }
                    }
                }
            }
        }
    }
}

proof fn lemma_insert_members(sorted: Seq<ComponentV>, c: ComponentV)
    ensures
        forall|i: int| 0 <= i < insert_by_name(sorted, c).len() ==> (#[trigger] insert_by_name(sorted, c)[i] == c
            || exists|k: int| 0 <= k < sorted.len() && sorted[k] == insert_by_name(sorted, c)[i]),
    decreases sorted.len(),
{
    if sorted.len() > 0 && text_lt(c.name, sorted.last().name) {
        lemma_insert_members(sorted.drop_last(), c);
        let r = insert_by_name(sorted, c);
        let rest = insert_by_name(sorted.drop_last(), c);
        assert forall|i: int| 0 <= i < r.len() implies (#[trigger] r[i] == c
            || exists|k: int| 0 <= k < sorted.len() && sorted[k] == r[i]) by {
            if i < r.len() - 1 {
                assert(r[i] == rest[i]);
                if rest[i] != c {
                    let k = choose|k: int| 0 <= k < sorted.len() - 1 && sorted.drop_last()[k] == rest[i];
                    assert(sorted[k] == r[i]);
                }
            } else {
                assert(sorted[sorted.len() - 1] == r[i]);
            }
        }
    } else if sorted.len() > 0 {
        let r = insert_by_name(sorted, c);
        assert forall|i: int| 0 <= i < r.len() implies (#[trigger] r[i] == c
            || exists|k: int| 0 <= k < sorted.len() && sorted[k] == r[i]) by {
            if i < sorted.len() {
                assert(sorted[i] == r[i]);
            }
        }
    }
}

/// Sorting by name leaves the names in order.
pub proof fn lemma_sort_by_name_ordered(s: Seq<ComponentV>)
    ensures
        names_ordered(sort_by_name(s)),
        sort_by_name(s).len() == s.len(),
    decreases s.len(),
{
    if s.len() > 0 {
        lemma_sort_by_name_ordered(s.drop_last());
        lemma_insert_keeps_order(sort_by_name(s.drop_last()), s.last());
    }
}

fn spec_of(c: &RegisteredComponent) -> (r: ComponentSpec)
    ensures
        spec_view(r) == registration_view(*c),
{
    let mut props: Vec<PropSpec> = Vec::new();
    let mut i: usize = 0;
    while i < c.props.len()
        invariant
            i <= c.props@.len(),
            props@.map_values(|p: PropSpec| (p.name@, p.ty, p.required))
                == c.props@.take(i as int).map_values(|p: PropInfo| info_view(p)),
        decreases c.props@.len() - i,
    {
        let ghost p0 = props@;
        let info = &c.props[i];
        props.push(PropSpec { name: info.name.clone(), ty: info.ty, required: info.required });
        assert(props@.map_values(|p: PropSpec| (p.name@, p.ty, p.required))
            =~= p0.map_values(|p: PropSpec| (p.name@, p.ty, p.required)).push(info_view(*info)));
        assert(c.props@.take(i + 1).map_values(|p: PropInfo| info_view(p))
            =~= c.props@.take(i as int).map_values(|p: PropInfo| info_view(p)).push(info_view(*info)));
        i += 1;
    }
    assert(c.props@.take(c.props@.len() as int) =~= c.props@);
    ComponentSpec { name: c.name.clone(), props, accepts_children: c.accepts_children }
}

/// The entries' views.
pub open spec fn specs_view(s: Seq<ComponentSpec>) -> Seq<ComponentV> {
    s.map_values(|c: ComponentSpec| spec_view(c))
}

/// The registrations' views.
pub open spec fn registrations_view(s: Seq<RegisteredComponent>) -> Seq<ComponentV> {
    s.map_values(|c: RegisteredComponent| registration_view(c))
}

/// The manifest of the registrations: one entry per registration, sorted
/// by name, so it does not depend on the order the registrations come in.
pub fn manifest(registry: &[RegisteredComponent]) -> (r: Manifest)
    ensures
        specs_view(r.components@) == sort_by_name(registrations_view(registry@)),
        names_ordered(specs_view(r.components@)),
{
    let mut components: Vec<ComponentSpec> = Vec::new();
    let mut i: usize = 0;
    while i < registry.len()
        invariant
            i <= registry@.len(),
            specs_view(components@) == sort_by_name(registrations_view(registry@.take(i as int))),
        decreases registry@.len() - i,
    {
        let c = spec_of(&registry[i]);
        let ghost sorted = specs_view(components@);
        let mut j: usize = components.len();
        while j > 0 && compare_text(&c.name, &components[j - 1].name) == Order::Less
            invariant
                j <= components@.len(),
                sorted == specs_view(components@),
                forall|k: int| j <= k < components@.len() ==> text_lt(c.name@, #[trigger] sorted[k].name),
            decreases j,
        {
            j -= 1;
        }
        proof {
            assert(registrations_view(registry@.take(i + 1)).drop_last() =~= registrations_view(registry@.take(i as int)));
            assert(registrations_view(registry@.take(i + 1)).last() == registration_view(registry@[i as int]));
            lemma_insert_at(sorted, spec_view(c), j as int);
        }
        let ghost cv = spec_view(c);
        components.insert(j, c);
        assert(specs_view(components@) =~= sorted.insert(j as int, cv));
        i += 1;
    }
    assert(registry@.take(registry@.len() as int) =~= registry@);
    proof {
        lemma_sort_by_name_ordered(registrations_view(registry@));
    }
    Manifest { components }
}

/// No two entries share a name.
pub open spec fn distinct_names(s: Seq<ComponentV>) -> bool {
    forall|i: int, j: int| 0 <= i < j < s.len() ==> (#[trigger] s[i]).name != (#[trigger] s[j]).name
}

/// The names, in order.
pub open spec fn names_of(s: Seq<ComponentV>) -> Seq<Seq<char>> {
    s.map_values(|c: ComponentV| c.name)
}

proof fn lemma_sort_members(s: Seq<ComponentV>)
    ensures
        forall|i: int| 0 <= i < sort_by_name(s).len() ==> exists|k: int| 0 <= k < s.len() && s[k] == #[trigger] sort_by_name(s)[i],
        forall|k: int| 0 <= k < s.len() ==> sort_by_name(s).contains(#[trigger] s[k]),
        sort_by_name(s).len() == s.len(),
    decreases s.len(),
{
    lemma_sort_by_name_ordered(s);
    if s.len() > 0 {
        let rest = sort_by_name(s.drop_last());
        lemma_sort_members(s.drop_last());
        lemma_insert_members(rest, s.last());
        lemma_insert_contains(rest, s.last());
        let r = sort_by_name(s);
        assert forall|i: int| 0 <= i < r.len() implies exists|k: int| 0 <= k < s.len() && s[k] == #[trigger] r[i] by {
            if r[i] == s.last() {
                assert(s[s.len() - 1] == r[i]);
            } else {
                let k = choose|k: int| 0 <= k < rest.len() && rest[k] == r[i];
                let m = choose|m: int| 0 <= m < s.drop_last().len() && s.drop_last()[m] == rest[k];
                assert(s[m] == r[i]);
            }
        }
        assert forall|k: int| 0 <= k < s.len() implies r.contains(#[trigger] s[k]) by {
            if k < s.len() - 1 {
                assert(s.drop_last()[k] == s[k]);
                assert(rest.contains(s[k]));
                let m = choose|m: int| 0 <= m < rest.len() && rest[m] == s[k];
                lemma_insert_keeps(rest, s.last(), m);
            }
        }
    }
}

proof fn lemma_insert_contains(sorted: Seq<ComponentV>, c: ComponentV)
    ensures
        insert_by_name(sorted, c).contains(c),
    decreases sorted.len(),
{
    if sorted.len() > 0 && text_lt(c.name, sorted.last().name) {
        lemma_insert_contains(sorted.drop_last(), c);
        let r = insert_by_name(sorted.drop_last(), c);
        let m = choose|m: int| 0 <= m < r.len() && r[m] == c;
        assert(insert_by_name(sorted, c)[m] == c);
    } else if sorted.len() > 0 {
        assert(insert_by_name(sorted, c)[sorted.len() as int] == c);
    } else {
        assert(insert_by_name(sorted, c)[0] == c);
    }
}

proof fn lemma_insert_keeps(sorted: Seq<ComponentV>, c: ComponentV, m: int)
    requires
        0 <= m < sorted.len(),
    ensures
        insert_by_name(sorted, c).contains(sorted[m]),
    decreases sorted.len(),
{
    if text_lt(c.name, sorted.last().name) {
        if m == sorted.len() - 1 {
            let r = insert_by_name(sorted, c);
            assert(r[r.len() - 1] == sorted[m]);
        } else {
            lemma_insert_keeps(sorted.drop_last(), c, m);
            let r = insert_by_name(sorted.drop_last(), c);
            let q = choose|q: int| 0 <= q < r.len() && r[q] == sorted.drop_last()[m];
            assert(insert_by_name(sorted, c)[q] == sorted[m]);
        }
    } else {
        assert(insert_by_name(sorted, c)[m] == sorted[m]);
    }
}

proof fn lemma_sort_distinct(orig: Seq<ComponentV>)
    requires
        distinct_names(orig),
    ensures
        distinct_names(sort_by_name(orig)),
    decreases orig.len(),
{
    if orig.len() > 0 {
        lemma_sort_distinct(orig.drop_last());
        lemma_sort_members(orig.drop_last());
        let rest = sort_by_name(orig.drop_last());
        let c = orig.last();
        assert forall|k: int| 0 <= k < rest.len() implies (#[trigger] rest[k]).name != c.name by {
            let m = choose|m: int| 0 <= m < orig.drop_last().len() && orig.drop_last()[m] == rest[k];
            assert(orig[m] == rest[k]);
        }
        lemma_insert_distinct(rest, c);
    }
}

proof fn lemma_insert_distinct(sorted: Seq<ComponentV>, c: ComponentV)
    requires
        distinct_names(sorted),
        forall|k: int| 0 <= k < sorted.len() ==> (#[trigger] sorted[k]).name != c.name,
    ensures
        distinct_names(insert_by_name(sorted, c)),
    decreases sorted.len(),
{
    if sorted.len() > 0 && text_lt(c.name, sorted.last().name) {
        let d = sorted.drop_last();
        assert forall|k: int| 0 <= k < d.len() implies (#[trigger] d[k]).name != c.name by {
            assert(d[k] == sorted[k]);
        }
        lemma_insert_distinct(d, c);
        lemma_insert_members(d, c);
        let rest = insert_by_name(d, c);
        let r = rest.push(sorted.last());
        assert forall|i: int, j: int| 0 <= i < j < r.len() implies (#[trigger] r[i]).name != (#[trigger] r[j]).name by {
            if j == r.len() - 1 {
                if rest[i] == c {
                } else {
                    let k = choose|k: int| 0 <= k < d.len() && d[k] == rest[i];
                    assert(sorted[k] == rest[i]);
                }
            } else {
                assert(r[i] == rest[i] && r[j] == rest[j]);
            }
        }
    } else {
        let r = insert_by_name(sorted, c);
        assert forall|i: int, j: int| 0 <= i < j < r.len() implies (#[trigger] r[i]).name != (#[trigger] r[j]).name by {
            if sorted.len() > 0 && j == r.len() - 1 {
                assert(r[i] == sorted[i]);
            } else if sorted.len() > 0 {
                assert(r[i] == sorted[i] && r[j] == sorted[j]);
            }
        }
    }
}

/// Sorting registrations with distinct names by name: any two orders of the
/// same registrations give the same manifest.
pub proof fn law_manifest_ignores_registration_order(a: Seq<ComponentV>, b: Seq<ComponentV>)
    requires
        a.to_multiset() == b.to_multiset(),
        distinct_names(a),
    ensures
        sort_by_name(a) == sort_by_name(b),
{
    broadcast use vstd::seq_lib::group_to_multiset_ensures;

    assert forall|x: ComponentV| a.contains(x) <==> b.contains(x) by {
        vstd::seq_lib::to_multiset_contains(a, x);
        vstd::seq_lib::to_multiset_contains(b, x);
    }
    assert(distinct_names(b)) by {
        assert forall|i: int, j: int| 0 <= i < j < b.len() implies (#[trigger] b[i]).name != (#[trigger] b[j]).name by {
            assert(b.contains(b[i]) && b.contains(b[j]));
            let p = choose|k: int| 0 <= k < a.len() && a[k] == b[i];
            let q = choose|k: int| 0 <= k < a.len() && a[k] == b[j];
            if p == q {
                lemma_count_two(b, i, j);
                assert(a.to_multiset().count(b[i]) >= 2);
                lemma_count_distinct_one(a, p);
            }
        }
    }
    let r1 = sort_by_name(a);
    let r2 = sort_by_name(b);
    lemma_sort_members(a);
    lemma_sort_members(b);
    lemma_sort_by_name_ordered(a);
    lemma_sort_by_name_ordered(b);
    lemma_sort_distinct(a);
    lemma_sort_distinct(b);
    let n1 = names_of(r1);
    let n2 = names_of(r2);
    lemma_names_strict(r1);
    lemma_names_strict(r2);
    assert(n1.to_set() =~= n2.to_set()) by {
        assert forall|x: Seq<char>| n1.to_set().contains(x) implies n2.to_set().contains(x) by {
            let i = choose|i: int| 0 <= i < n1.len() && n1[i] == x;
            let k = choose|k: int| 0 <= k < a.len() && a[k] == r1[i];
            assert(b.contains(a[k]));
            let m = choose|m: int| 0 <= m < b.len() && b[m] == a[k];
            assert(r2.contains(b[m]));
            let t = choose|t: int| 0 <= t < r2.len() && r2[t] == b[m];
            assert(n2[t] == x);
        }
        assert forall|x: Seq<char>| n2.to_set().contains(x) implies n1.to_set().contains(x) by {
            let i = choose|i: int| 0 <= i < n2.len() && n2[i] == x;
            let k = choose|k: int| 0 <= k < b.len() && b[k] == r2[i];
            assert(a.contains(b[k]));
            let m = choose|m: int| 0 <= m < a.len() && a[m] == b[k];
            assert(r1.contains(a[m]));
            let t = choose|t: int| 0 <= t < r1.len() && r1[t] == a[m];
            assert(n1[t] == x);
        }
    }
    crate::sorted::lemma_sorted_unique(n1, n2);
    assert forall|i: int| 0 <= i < r1.len() implies r1[i] == r2[i] by {
        assert(n1[i] == n2[i]);
        let p = choose|k: int| 0 <= k < a.len() && a[k] == r1[i];
        let q = choose|k: int| 0 <= k < b.len() && b[k] == r2[i];
        assert(a.contains(b[q]));
        let p2 = choose|k: int| 0 <= k < a.len() && a[k] == b[q];
        if p != p2 {
            assert(a[p].name == a[p2].name);
        }
    }
    assert(r1 =~= r2);
}

proof fn lemma_names_strict(r: Seq<ComponentV>)
    requires
        names_ordered(r),
        distinct_names(r),
    ensures
        crate::sorted::strictly_sorted(names_of(r)),
{
    let n = names_of(r);
    assert forall|i: int, j: int| 0 <= i < j < n.len() implies text_lt(#[trigger] n[i], #[trigger] n[j]) by {
        assert(n[i] == r[i].name && n[j] == r[j].name);
        crate::text::lemma_text_lt_total(r[i].name, r[j].name);
    }
}

proof fn lemma_count_two(s: Seq<ComponentV>, i: int, j: int)
    requires
        0 <= i < j < s.len(),
        s[i] == s[j],
    ensures
        s.to_multiset().count(s[i]) >= 2,
    decreases s.len(),
{
    broadcast use vstd::seq_lib::group_to_multiset_ensures;

    if j < s.len() - 1 {
        lemma_count_two(s.drop_last(), i, j);
        assert(s.drop_last().push(s.last()) =~= s);
        assert(s.to_multiset() =~= s.drop_last().to_multiset().insert(s.last()));
    } else {
        assert(s.drop_last()[i] == s[i]);
        assert(s.drop_last().contains(s[i]));
        assert(s.drop_last().push(s.last()) =~= s);
        assert(s.to_multiset() =~= s.drop_last().to_multiset().insert(s.last()));
    }
}

proof fn lemma_count_distinct_one(s: Seq<ComponentV>, p: int)
    requires
        distinct_names(s),
        0 <= p < s.len(),
    ensures
        s.to_multiset().count(s[p]) <= 1,
    decreases s.len(),
{
    broadcast use vstd::seq_lib::group_to_multiset_ensures;

    assert(s.drop_last().push(s.last()) =~= s);
    assert(s.to_multiset() =~= s.drop_last().to_multiset().insert(s.last()));
    if p < s.len() - 1 {
        assert(distinct_names(s.drop_last()));
        lemma_count_distinct_one(s.drop_last(), p);
        assert(s[p] != s.last());
    } else {
        assert(!s.drop_last().contains(s[p])) by {
            if s.drop_last().contains(s[p]) {
                let k = choose|k: int| 0 <= k < s.drop_last().len() && s.drop_last()[k] == s[p];
                assert(s[k].name == s[p].name);
            }
        }
        assert(s.drop_last().to_multiset().count(s[p]) == 0);
    }
}

} // verus!

//! The registered component vocabulary, as the parser validates posts
//! against it.
use vstd::prelude::*;

use super::numbers::integral_value;
use super::{PropValue, PropValueV};
use crate::text::text_eq;

verus! {

/// The scalar prop types a component can declare.
#[derive(Debug, Clone, Copy, PartialEq, Eq, Structural)]
pub enum PropType {
    String,
    /// A double.
    Float,
    /// An `i64`.
    Int,
    /// Braced `{true}`/`{false}`, or bare (`autoplay` means true).
    Bool,
}

/// Whether a value is acceptable for a prop of type `ty`: numbers satisfy
/// `Float`, and `Int` when they are integral and fit an `i64`.
pub open spec fn type_accepts(ty: PropType, value: PropValueV) -> bool {
    match (ty, value) {
        (PropType::String, PropValueV::String(_)) => true,
        (PropType::Float, PropValueV::Number(_)) => true,
        (PropType::Int, PropValueV::Number(n)) => integral_value(n) is Some,
        (PropType::Bool, PropValueV::Bool(_)) => true,
        _ => false,
    }
}

/// The phrase naming a type in diagnostics.
pub open spec fn type_phrase(ty: PropType) -> Seq<char> {
    match ty {
        PropType::String => "a string"@,
        PropType::Float => "a number"@,
        PropType::Int => "an integer"@,
        PropType::Bool => "a boolean"@,
    }
}

impl PropType {
    /// Whether `value` is acceptable for a prop of this type.
    pub fn matches(self, value: &PropValue) -> (r: bool)
        ensures
            r == type_accepts(self, value@),
    {
        match (self, value) {
            (PropType::String, PropValue::String(_)) => true,
            (PropType::Float, PropValue::Number(_)) => true,
            (PropType::Int, PropValue::Number(n)) => n.integral().is_some(),
            (PropType::Bool, PropValue::Bool(_)) => true,
            _ => false,
        }
    }

    /// Human phrase for diagnostics.
    pub fn describe(self) -> (r: &'static str)
        ensures
            r@ == type_phrase(self),
    {
        match self {
            PropType::String => "a string",
            PropType::Float => "a number",
            PropType::Int => "an integer",
            PropType::Bool => "a boolean",
        }
    }
}

/// One declared prop of a component.
#[derive(Debug, Clone, PartialEq)]
pub struct PropSpec {
    pub name: String,
    pub ty: PropType,
    /// `false` when the component declares the prop as optional.
    pub required: bool,
}

/// One registered component.
#[derive(Debug, Clone, PartialEq)]
pub struct ComponentSpec {
    pub name: String,
    pub props: Vec<PropSpec>,
    pub accepts_children: bool,
}

/// The full registered vocabulary.
#[derive(Debug, Clone, PartialEq)]
pub struct Manifest {
    /// Sorted by name for deterministic output.
    pub components: Vec<ComponentSpec>,
}

/// The position of the first component named `name`.
pub open spec fn component_index(cs: Seq<ComponentSpec>, name: Seq<char>) -> Option<int>
    decreases cs.len(),
{
    if cs.len() == 0 {
        None
    } else if cs[0].name@ == name {
        Some(0)
    } else {
        match component_index(cs.drop_first(), name) {
            Some(i) => Some(i + 1),
            None => None,
        }
    }
}

/// The position of the first prop named `name`.
pub open spec fn prop_index(ps: Seq<PropSpec>, name: Seq<char>) -> Option<int>
    decreases ps.len(),
{
    if ps.len() == 0 {
        None
    } else if ps[0].name@ == name {
        Some(0)
    } else {
        match prop_index(ps.drop_first(), name) {
            Some(i) => Some(i + 1),
            None => None,
        }
    }
}

proof fn lemma_component_index(cs: Seq<ComponentSpec>, name: Seq<char>, i: int)
    requires
        0 <= i <= cs.len(),
        forall|j: int| 0 <= j < i ==> cs[j].name@ != name,
    ensures
        i < cs.len() && cs[i].name@ == name ==> component_index(cs, name) == Some(i),
        i == cs.len() ==> component_index(cs, name) is None,
    decreases i,
{
    if i > 0 {
        lemma_component_index(cs.drop_first(), name, i - 1);
    }
}

proof fn lemma_prop_index(ps: Seq<PropSpec>, name: Seq<char>, i: int)
    requires
        0 <= i <= ps.len(),
        forall|j: int| 0 <= j < i ==> ps[j].name@ != name,
    ensures
        i < ps.len() && ps[i].name@ == name ==> prop_index(ps, name) == Some(i),
        i == ps.len() ==> prop_index(ps, name) is None,
    decreases i,
{
    if i > 0 {
        lemma_prop_index(ps.drop_first(), name, i - 1);
    }
}

impl Manifest {
    /// The first component registered under `name`.
    pub fn get(&self, name: &str) -> (r: Option<&ComponentSpec>)
        ensures
            match component_index(self.components@, name@) {
                Some(i) => r == Some(&self.components@[i]),
                None => r is None,
            },
    {
        let mut i: usize = 0;
        while i < self.components.len()
            invariant
                i <= self.components@.len(),
                forall|j: int| 0 <= j < i ==> self.components@[j].name@ != name@,
            decreases self.components@.len() - i,
        {
            if text_eq(&self.components[i].name, name) {
                proof {
                    lemma_component_index(self.components@, name@, i as int);
                }
                return Some(&self.components[i]);
            }
            i += 1;
        }
        proof {
            lemma_component_index(self.components@, name@, i as int);
        }
        None
    }

    /// The registered names, in registry order.
    pub fn names(&self) -> (r: Vec<&str>)
        ensures
            r@.len() == self.components@.len(),
            forall|i: int| 0 <= i < r@.len() ==> (#[trigger] r@[i])@ == self.components@[i].name@,
    {
        let mut r: Vec<&str> = Vec::new();
        let mut i: usize = 0;
        while i < self.components.len()
            invariant
                i <= self.components@.len(),
                r@.len() == i,
                forall|j: int| 0 <= j < i ==> (#[trigger] r@[j])@ == self.components@[j].name@,
            decreases self.components@.len() - i,
        {
            r.push(self.components[i].name.as_str());
            i += 1;
        }
        r
    }
}

impl ComponentSpec {
    /// The first declared prop named `name`.
    pub fn prop(&self, name: &str) -> (r: Option<&PropSpec>)
        ensures
            match prop_index(self.props@, name@) {
                Some(i) => r == Some(&self.props@[i]),
                None => r is None,
            },
    {
        let mut i: usize = 0;
        while i < self.props.len()
            invariant
                i <= self.props@.len(),
                forall|j: int| 0 <= j < i ==> self.props@[j].name@ != name@,
            decreases self.props@.len() - i,
        {
            if text_eq(&self.props[i].name, name) {
                proof {
                    lemma_prop_index(self.props@, name@, i as int);
                }
                return Some(&self.props[i]);
            }
            i += 1;
        }
        proof {
            lemma_prop_index(self.props@, name@, i as int);
        }
        None
    }

    /// The declared prop names, in declaration order.
    pub fn prop_names(&self) -> (r: Vec<&str>)
        ensures
            r@.len() == self.props@.len(),
            forall|i: int| 0 <= i < r@.len() ==> (#[trigger] r@[i])@ == self.props@[i].name@,
    {
        let mut r: Vec<&str> = Vec::new();
        let mut i: usize = 0;
        while i < self.props.len()
            invariant
                i <= self.props@.len(),
                r@.len() == i,
                forall|j: int| 0 <= j < i ==> (#[trigger] r@[j])@ == self.props@[j].name@,
            decreases self.props@.len() - i,
        {
            r.push(self.props[i].name.as_str());
            i += 1;
        }
        r
    }
}

} // verus!

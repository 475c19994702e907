//! Type expressions: the recursive, immutable tree describing the type of
//! one field or variant.
//!
//! A [`Type`] is built from primitives, wrappers (box, list, option, map,
//! borrow), a two-way alternative, and named references to declarations
//! held in an item registry. The tree itself is always finite; reference
//! cycles can only arise semantically, through chains of [`Type::Named`]
//! references resolved against a registry.

use vstd::prelude::*;
use vstd::string::StrSliceExecFns;
use vstd::string::StringExecFns;

use crate::error::Error;
use crate::ident::{spec_ident_error, valid_ident, Id};
use crate::render::Render;

verus! {

/// A primitive type of the target language.
#[derive(Debug, Clone, Copy, PartialEq, Eq, Structural)]
pub enum Primitive {
    /// The unit type.
    Null,
    /// A boolean.
    Boolean,
    /// A signed 64-bit integer.
    I64,
    /// A 64-bit floating-point number.
    F64,
    /// Owned text.
    Text,
}

impl Primitive {
    /// The native spelling of this primitive in the target language.
    pub fn native(&self) -> (s: &str)
        ensures
            s@ == self.spec_render(),
    {
        match self {
            Primitive::Null => "()",
            Primitive::Boolean => "bool",
            Primitive::I64 => "i64",
            Primitive::F64 => "f64",
            Primitive::Text => "String",
        }
    }
}

impl Render for Primitive {
    open spec fn spec_render(&self) -> Seq<char> {
        match self {
            Primitive::Null => "()"@,
            Primitive::Boolean => "bool"@,
            Primitive::I64 => "i64"@,
            Primitive::F64 => "f64"@,
            Primitive::Text => "String"@,
        }
    }

    fn render(&self) -> (r: String)
        ensures
            r@ == self.spec_render(),
    {
        self.native().to_owned()
    }
}

/// A type expression.
#[derive(Debug)]
pub enum Type {
    /// A primitive leaf.
    Primitive(Primitive),
    /// The inner type behind a heap indirection; breaks value containment.
    Indirected(Box<Type>),
    /// An ordered, growable list of the inner type.
    Sequence(Box<Type>),
    /// The inner type or absence.
    Optional(Box<Type>),
    /// Exactly one of two typed alternatives.
    Either(Box<Type>, Box<Type>),
    /// A text-keyed map to the inner type.
    Mapping(Box<Type>),
    /// A reference to a declaration by name, resolved through a registry.
    Named(Id),
    /// A non-owning borrow of the inner type.
    Reference(Box<Type>),
}

/// The identifier at the bottom of the chain of wrappers of `t`, if any.
/// Wrappers dereference to their inner type; a two-way alternative
/// deliberately follows only its first operand, treating the left side as
/// the primary type; primitives contribute no root.
pub open spec fn spec_named_root(t: Type) -> Option<Seq<char>>
    decreases t,
{
    match t {
        Type::Primitive(_) => None,
        Type::Indirected(inner) => spec_named_root(*inner),
        Type::Sequence(inner) => spec_named_root(*inner),
        Type::Optional(inner) => spec_named_root(*inner),
        Type::Either(left, _) => spec_named_root(*left),
        Type::Mapping(inner) => spec_named_root(*inner),
        Type::Named(id) => Some(id@),
        Type::Reference(inner) => spec_named_root(*inner),
    }
}

/// Two type expressions have the same shape, with named references
/// compared by their text.
pub open spec fn type_eqv(a: Type, b: Type) -> bool
    decreases a,
{
    match (a, b) {
        (Type::Primitive(p), Type::Primitive(q)) => p == q,
        (Type::Indirected(x), Type::Indirected(y)) => type_eqv(*x, *y),
        (Type::Sequence(x), Type::Sequence(y)) => type_eqv(*x, *y),
        (Type::Optional(x), Type::Optional(y)) => type_eqv(*x, *y),
        (Type::Either(l1, r1), Type::Either(l2, r2)) => type_eqv(*l1, *l2) && type_eqv(*r1, *r2),
        (Type::Mapping(x), Type::Mapping(y)) => type_eqv(*x, *y),
        (Type::Named(i1), Type::Named(i2)) => i1@ == i2@,
        (Type::Reference(x), Type::Reference(y)) => type_eqv(*x, *y),
        _ => false,
    }
}

impl PartialEq for Type {
    fn eq(&self, other: &Type) -> (r: bool)
        decreases *self,
    {
        match (self, other) {
            (Type::Primitive(p), Type::Primitive(q)) => p == q,
            (Type::Indirected(x), Type::Indirected(y)) => **x == **y,
            (Type::Sequence(x), Type::Sequence(y)) => **x == **y,
            (Type::Optional(x), Type::Optional(y)) => **x == **y,
            (Type::Either(l1, r1), Type::Either(l2, r2)) => **l1 == **l2 && **r1 == **r2,
            (Type::Mapping(x), Type::Mapping(y)) => **x == **y,
            (Type::Named(i1), Type::Named(i2)) => *i1 == *i2,
            (Type::Reference(x), Type::Reference(y)) => **x == **y,
            _ => false,
        }
    }
}

impl vstd::std_specs::cmp::PartialEqSpecImpl for Type {
    open spec fn obeys_eq_spec() -> bool {
        true
    }

    open spec fn eq_spec(&self, other: &Type) -> bool {
        type_eqv(*self, *other)
    }
}

impl Clone for Type {
    fn clone(&self) -> (r: Type)
        ensures
            r == *self,
        decreases *self,
    {
        match self {
            Type::Primitive(p) => Type::Primitive(*p),
            Type::Indirected(inner) => Type::Indirected(Box::new((**inner).clone())),
            Type::Sequence(inner) => Type::Sequence(Box::new((**inner).clone())),
            Type::Optional(inner) => Type::Optional(Box::new((**inner).clone())),
            Type::Either(left, right) => Type::Either(
                Box::new((**left).clone()),
                Box::new((**right).clone()),
            ),
            Type::Mapping(inner) => Type::Mapping(Box::new((**inner).clone())),
            Type::Named(id) => Type::Named(id.clone()),
            Type::Reference(inner) => Type::Reference(Box::new((**inner).clone())),
        }
    }
}

impl Type {
    /// Build a named reference to the declaration called `name`, if that
    /// is a legal identifier.
    pub fn named(name: &str) -> (r: Result<Type, Error>)
        ensures
            match r {
                Ok(t) => valid_ident(name@) && (t matches Type::Named(id) && id@ == name@),
                Err(e) => !valid_ident(name@) && e == Error::InvalidIdentifier(
                    spec_ident_error(name@),
                ),
            },
    {
        match Id::new(name) {
            Ok(id) => Ok(Type::Named(id)),
            Err(e) => Err(e),
        }
    }

    /// Wrap this type in an option when `opt` holds, else leave it as is.
    pub fn optional(self, opt: bool) -> (r: Type)
        ensures
            opt ==> (r matches Type::Optional(inner) && *inner == self),
            !opt ==> r == self,
    {
        if opt {
            Type::Optional(Box::new(self))
        } else {
            self
        }
    }

    /// The identifier at the bottom of the chain of wrappers, if any; see
    /// [`spec_named_root`].
    pub fn get_named_root(&self) -> (r: Option<&Id>)
        ensures
            match r {
                Some(id) => spec_named_root(*self) == Some(id@),
                None => spec_named_root(*self) is None,
            },
        decreases *self,
    {
        match self {
            Type::Primitive(_) => None,
            Type::Indirected(inner) => inner.get_named_root(),
            Type::Sequence(inner) => inner.get_named_root(),
            Type::Optional(inner) => inner.get_named_root(),
            Type::Either(left, _) => left.get_named_root(),
            Type::Mapping(inner) => inner.get_named_root(),
            Type::Named(id) => Some(id),
            Type::Reference(inner) => inner.get_named_root(),
        }
    }
}

impl Render for Type {
    open spec fn spec_render(&self) -> Seq<char>
        decreases self,
    {
        match self {
            Type::Primitive(p) => p.spec_render(),
            Type::Indirected(inner) => "Box<"@ + inner.spec_render() + ">"@,
            Type::Sequence(inner) => "Vec<"@ + inner.spec_render() + ">"@,
            Type::Optional(inner) => "Option<"@ + inner.spec_render() + ">"@,
            Type::Either(left, right) => "Result<"@ + left.spec_render() + ", "@
                + right.spec_render() + ">"@,
            Type::Mapping(inner) => "Map<String, "@ + inner.spec_render() + ">"@,
            Type::Named(id) => id@,
            Type::Reference(inner) => "&"@ + inner.spec_render(),
        }
    }

    fn render(&self) -> (r: String)
        ensures
            r@ == self.spec_render(),
        decreases *self,
    {
        match self {
            Type::Primitive(p) => p.render(),
            Type::Indirected(inner) => {
                let mut s = "Box<".to_owned();
                let sub = inner.render();
                s.append(sub.as_str());
                s.append(">");
                proof {
                    assert(s@ =~= "Box<"@ + inner.spec_render() + ">"@);
                }
                s
            },
            Type::Sequence(inner) => {
                let mut s = "Vec<".to_owned();
                let sub = inner.render();
                s.append(sub.as_str());
                s.append(">");
                proof {
                    assert(s@ =~= "Vec<"@ + inner.spec_render() + ">"@);
                }
                s
            },
            Type::Optional(inner) => {
                let mut s = "Option<".to_owned();
                let sub = inner.render();
                s.append(sub.as_str());
                s.append(">");
                proof {
                    assert(s@ =~= "Option<"@ + inner.spec_render() + ">"@);
                }
                s
            },
            Type::Either(left, right) => {
                let mut s = "Result<".to_owned();
                let lsub = left.render();
                s.append(lsub.as_str());
                s.append(", ");
                let rsub = right.render();
                s.append(rsub.as_str());
                s.append(">");
                proof {
                    assert(s@ =~= "Result<"@ + left.spec_render() + ", "@ + right.spec_render()
                        + ">"@);
                }
                s
            },
            Type::Mapping(inner) => {
                let mut s = "Map<String, ".to_owned();
                let sub = inner.render();
                s.append(sub.as_str());
                s.append(">");
                proof {
                    assert(s@ =~= "Map<String, "@ + inner.spec_render() + ">"@);
                }
                s
            },
            Type::Named(id) => {
                let s = id.as_str().to_owned();
                s
            },
            Type::Reference(inner) => {
                let mut s = "&".to_owned();
                let sub = inner.render();
                s.append(sub.as_str());
                proof {
                    assert(s@ =~= "&"@ + inner.spec_render());
                }
                s
            },
        }
    }
}

} // verus!

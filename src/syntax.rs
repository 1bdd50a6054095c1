//! The syntactic description of a type definition that the generator reads.
use vstd::prelude::*;

verus! {

/// One argument between the angle brackets of a path segment.
pub enum TypeArg {
    /// A type argument, spelled as in the source.
    Type(String),
    /// A lifetime, a constant, an associated-type binding or a bound.
    NotAType,
}

/// The last segment of a path type: its name and its angle-bracketed arguments
/// (empty where it has none, or where they are parenthesized).
pub struct PathHead {
    pub last: String,
    pub args: Vec<TypeArg>,
}

/// A declared type expression.
pub struct TypeExpr {
    /// The type as spelled in the source.
    pub text: String,
    /// `Some` for a path type without a qualified self type.
    pub head: Option<PathHead>,
}

/// A literal value inside an attribute.
pub enum Lit {
    Str(String),
    Other,
}

/// One entry of an attribute's argument list.
pub enum MetaItem {
    /// `key = value`, the key being the path as spelled.
    NameValue { key: String, value: Lit },
    /// Any other entry: a bare path, a nested list, a literal.
    Other,
}

/// The part of an attribute that follows its namespace.
pub enum AttrBody {
    /// `(entry, entry, ...)`.
    List(Vec<MetaItem>),
    /// A bare namespace, `= value`, or tokens that do not form a list.
    Other,
}

/// An attribute attached to a field.
pub struct Attr {
    pub namespace: String,
    pub body: AttrBody,
}

/// A named field of a record.
pub struct FieldDef {
    pub name: String,
    pub ty: TypeExpr,
    pub attrs: Vec<Attr>,
}

/// What kind of type definition was given.
pub enum Shape {
    /// A struct with named fields, in declaration order.
    Named(Vec<FieldDef>),
    /// A struct with positional fields.
    Tuple,
    /// A struct without fields or braces.
    Unit,
    /// An enum or a union.
    NotAStruct,
}

/// A type definition handed to the generator.
pub struct TypeDef {
    pub name: String,
    pub shape: Shape,
}

} // verus!

//! Classification of a record's fields by their declared type and attributes.
use vstd::prelude::*;
use vstd::string::StringExecFns;
use crate::syntax::{Attr, AttrBody, FieldDef, Lit, MetaItem, TypeArg, TypeExpr};

verus! {

/// Name of the optional-value wrapper.
pub open spec fn optional_idiom() -> Seq<char> {
    "Option"@
}

/// Name of the sequence wrapper.
pub open spec fn sequence_idiom() -> Seq<char> {
    "Vec"@
}

/// The attribute namespace the generator reads.
pub open spec fn namespace_word() -> Seq<char> {
    "builder"@
}

/// The one key accepted in that namespace.
pub open spec fn each_key() -> Seq<char> {
    "each"@
}

pub open spec fn text_of(o: Option<String>) -> Option<Seq<char>> {
    match o {
        Some(s) => Some(s@),
        None => None,
    }
}

/// The single type argument of `ty`, when `ty` is a path whose last segment
/// is named `idiom` and carries exactly one argument, a type.
pub open spec fn wrapped_arg(ty: TypeExpr, idiom: Seq<char>) -> Option<Seq<char>> {
    match ty.head {
        Some(h) => if h.last@ == idiom && h.args@.len() == 1 {
            match h.args@[0] {
                TypeArg::Type(t) => Some(t@),
                TypeArg::NotAType => None,
            }
        } else {
            None
        },
        None => None,
    }
}

/// Whether `syn` parses the text as an identifier: not empty, not a keyword,
/// not `_`.
pub uninterp spec fn ident_ok(s: Seq<char>) -> bool;

/// Relies on `syn::parse_str::<syn::Ident>`: it succeeds exactly on a text
/// that is one identifier, and fails on an empty text (no token to read).
#[verifier::external_body]
pub(crate) fn is_ident(s: &String) -> (r: bool)
    ensures
        r == ident_ok(s@),
        s@.len() == 0 ==> !r,
{
    syn::parse_str::<syn::Ident>(s).is_ok()
}

/// The element-setter name that a `builder` attribute gives, or `None` when
/// the attribute is not exactly `(each = "name")` with `name` an identifier.
pub open spec fn each_target(a: Attr) -> Option<Seq<char>> {
    match a.body {
        AttrBody::List(items) => if items@.len() == 1 {
            match items@[0] {
                MetaItem::NameValue { key, value } => match value {
                    Lit::Str(s) => if key@ == each_key() && ident_ok(s@) {
                        Some(s@)
                    } else {
                        None
                    },
                    Lit::Other => None,
                },
                MetaItem::Other => None,
            }
        } else {
            None
        },
        AttrBody::Other => None,
    }
}

/// The directive carried by a field's attributes: `Ok(None)` where none is in
/// the generator's namespace, `Ok(Some(n))` where the first of them names the
/// element setter `n` and all are well formed, `Err` where one is malformed.
pub open spec fn directive(attrs: Seq<Attr>) -> Result<Option<Seq<char>>, ()>
    decreases attrs.len(),
{
    if attrs.len() == 0 {
        Ok(None)
    } else {
        let prev = directive(attrs.drop_last());
        let a = attrs.last();
        if a.namespace@ == namespace_word() {
            match (prev, each_target(a)) {
                (Err(_), _) => Err(()),
                (_, None) => Err(()),
                (Ok(Some(n)), Some(_)) => Ok(Some(n)),
                (Ok(None), Some(m)) => Ok(Some(m)),
            }
        } else {
            prev
        }
    }
}

/// The classification of a field, as values.
pub enum KindModel {
    Required,
    Optional(Seq<char>),
    /// Element type, element-setter name, and whether that name is the field's own.
    Repeated(Seq<char>, Seq<char>, bool),
}

/// How a field is stored, set and built.
#[derive(Debug, PartialEq)]
pub enum FieldKind {
    /// A plain field that must be set before building.
    Required,
    /// An `Option<inner>` field; unset, it builds to `None`.
    Optional { inner: String },
    /// A `Vec<element>` field filled one element at a time through `each`.
    Repeated { element: String, each: String, collides: bool },
}

impl View for FieldKind {
    type V = KindModel;

    open spec fn view(&self) -> KindModel {
        match self {
            FieldKind::Required => KindModel::Required,
            FieldKind::Optional { inner } => KindModel::Optional(inner@),
            FieldKind::Repeated { element, each, collides } => KindModel::Repeated(
                element@,
                each@,
                *collides,
            ),
        }
    }
}

/// The classification of a field, or `Err` where its attributes are malformed
/// or an element setter is asked for on a type that is not a sequence.
/// The optional wrapper takes precedence over a directive.
pub open spec fn kind_of(f: FieldDef) -> Result<KindModel, ()> {
    match directive(f.attrs@) {
        Err(_) => Err(()),
        Ok(d) => match wrapped_arg(f.ty, optional_idiom()) {
            Some(inner) => Ok(KindModel::Optional(inner)),
            None => match d {
                None => Ok(KindModel::Required),
                Some(each) => match wrapped_arg(f.ty, sequence_idiom()) {
                    Some(elem) => Ok(KindModel::Repeated(elem, each, each == f.name@)),
                    None => Err(()),
                },
            },
        },
    }
}

/// Errors reported while generating a builder.
#[derive(Debug, PartialEq)]
pub enum GenError {
    /// The definition is not a struct with named fields.
    NotARecord,
    /// The named field carries a malformed `builder` attribute (wrong key,
    /// a value that is not a string naming an identifier), asks for an element
    /// setter on a type that is not a sequence, or has a setter whose name
    /// another setter of the builder already takes.
    InvalidEachTarget(String),
}

/// The single type argument of `ty` when its head is named `idiom`.
pub fn wrapped_type(ty: &TypeExpr, idiom: &String) -> (r: Option<String>)
    ensures
        text_of(r) == wrapped_arg(*ty, idiom@),
{
    match &ty.head {
        Some(h) => {
            if h.last == *idiom && h.args.len() == 1 {
                match &h.args[0] {
                    TypeArg::Type(t) => Some(t.clone()),
                    TypeArg::NotAType => None,
                }
            } else {
                None
            }
        },
        None => None,
    }
}

/// The element-setter name of one attribute in the generator's namespace.
pub fn parse_each(a: &Attr) -> (r: Option<String>)
    ensures
        text_of(r) == each_target(*a),
{
    let key = String::from_str("each");
    match &a.body {
        AttrBody::List(items) => {
            if items.len() == 1 {
                match &items[0] {
                    MetaItem::NameValue { key: k, value } => match value {
                        Lit::Str(s) => if *k == key && is_ident(s) {
                            Some(s.clone())
                        } else {
                            None
                        },
                        Lit::Other => None,
                    },
                    MetaItem::Other => None,
                }
            } else {
                None
            }
        },
        AttrBody::Other => None,
    }
}

/// The directive of a field's attributes; `Err(())` where one is malformed.
pub fn field_directive(attrs: &Vec<Attr>) -> (r: Result<Option<String>, ()>)
    ensures
        match r {
            Ok(d) => directive(attrs@) == Ok::<Option<Seq<char>>, ()>(text_of(d)),
            Err(_) => directive(attrs@) is Err,
        },
{
    let ns = String::from_str("builder");
    let mut found: Option<String> = None;
    let mut failed = false;
    let mut i: usize = 0;
    while i < attrs.len()
        invariant
            i <= attrs@.len(),
            failed ==> directive(attrs@.subrange(0, i as int)) is Err,
            !failed ==> directive(attrs@.subrange(0, i as int)) == Ok::<
                Option<Seq<char>>,
                (),
            >(text_of(found)),
            ns@ == namespace_word(),
        decreases attrs@.len() - i,
    {
        let ghost pre = attrs@.subrange(0, i as int);
        assert(attrs@.subrange(0, i + 1).drop_last() =~= pre);
        let a = &attrs[i];
        if a.namespace == ns {
            let t = parse_each(a);
            match t {
                None => {
                    failed = true;
                },
                Some(n) => {
                    if found.is_none() {
                        found = Some(n);
                    }
                },
            }
        }
        i = i + 1;
    }
    assert(attrs@.subrange(0, attrs@.len() as int) =~= attrs@);
    if failed {
        Err(())
    } else {
        Ok(found)
    }
}

/// Classifies one field.
pub fn classify(f: &FieldDef) -> (r: Result<FieldKind, GenError>)
    ensures
        match r {
            Ok(k) => kind_of(*f) == Ok::<KindModel, ()>(k@),
            Err(e) => kind_of(*f) is Err && e == GenError::InvalidEachTarget(f.name),
        },
{
    let d = field_directive(&f.attrs);
    match d {
        Err(_) => Err(GenError::InvalidEachTarget(f.name.clone())),
        Ok(d) => {
            let opt = String::from_str("Option");
            match wrapped_type(&f.ty, &opt) {
                Some(inner) => Ok(FieldKind::Optional { inner }),
                None => match d {
                    None => Ok(FieldKind::Required),
                    Some(each) => {
                        let seq_name = String::from_str("Vec");
                        match wrapped_type(&f.ty, &seq_name) {
                            Some(element) => {
                                let collides = each == f.name;
                                Ok(FieldKind::Repeated { element, each, collides })
                            },
                            None => Err(GenError::InvalidEachTarget(f.name.clone())),
                        }
                    },
                },
            }
        },
    }
}

} // verus!

//! The builder that a record definition gives: its storage, its setters and
//! the pipeline that derives them from the definition.
use vstd::prelude::*;
use vstd::string::StringExecFns;
use crate::classify::{classify, kind_of, FieldKind, GenError, KindModel};
use crate::syntax::{FieldDef, Shape, TypeDef};

verus! {

/// One field of the record, classified.
pub struct FieldSpec {
    pub name: String,
    /// The declared type, as spelled.
    pub ty: String,
    pub kind: FieldKind,
}

/// The declarations generated for one record.
pub struct BuilderDecl {
    /// Name of the record type.
    pub record: String,
    /// Name of the builder type.
    pub builder: String,
    /// One entry per record field, in declaration order.
    pub fields: Vec<FieldSpec>,
}

/// The value a builder's storage field starts with.
#[derive(Debug, PartialEq, Eq, Structural)]
pub enum Init {
    EmptyOptional,
    EmptySequence,
}

/// What a setter does to its field's storage.
#[derive(Debug, Clone, Copy, PartialEq, Eq, Structural)]
pub enum Effect {
    /// Stores `Some(value)`.
    Store,
    /// Appends the value to the sequence.
    Append,
    /// Replaces the whole sequence with a copy of the argument.
    Replace,
}

/// A setter operation of the builder.
pub struct Setter {
    pub name: String,
    /// The parameter type, as spelled.
    pub param: String,
    /// Index of the field it sets.
    pub field: usize,
    pub effect: Effect,
}

pub struct SetterModel {
    pub name: Seq<char>,
    pub param: Seq<char>,
    pub field: nat,
    pub effect: Effect,
}

impl View for Setter {
    type V = SetterModel;

    open spec fn view(&self) -> SetterModel {
        SetterModel {
            name: self.name@,
            param: self.param@,
            field: self.field as nat,
            effect: self.effect,
        }
    }
}

/// Whether the builder stores the field wrapped in an optional: only a
/// required field needs that, to tell "not set" from every legal value.
pub open spec fn stored_wrapped(k: KindModel) -> bool {
    k is Required
}

pub open spec fn init_of(k: KindModel) -> Init {
    match k {
        KindModel::Repeated(..) => Init::EmptySequence,
        _ => Init::EmptyOptional,
    }
}

/// The setters of field `f`, standing at index `i`.
pub open spec fn field_setters(f: FieldSpec, i: nat) -> Seq<SetterModel> {
    match f.kind@ {
        KindModel::Required => seq![
            SetterModel { name: f.name@, param: f.ty@, field: i, effect: Effect::Store },
        ],
        KindModel::Optional(inner) => seq![
            SetterModel { name: f.name@, param: inner, field: i, effect: Effect::Store },
        ],
        KindModel::Repeated(elem, each, collides) => if collides {
            seq![SetterModel { name: each, param: elem, field: i, effect: Effect::Append }]
        } else {
            seq![
                SetterModel { name: each, param: elem, field: i, effect: Effect::Append },
                SetterModel { name: f.name@, param: f.ty@, field: i, effect: Effect::Replace },
            ]
        },
    }
}

/// All setters of a builder, field by field in declaration order.
pub open spec fn setters_of(fields: Seq<FieldSpec>) -> Seq<SetterModel>
    decreases fields.len(),
{
    if fields.len() == 0 {
        Seq::empty()
    } else {
        setters_of(fields.drop_last()) + field_setters(
            fields.last(),
            (fields.len() - 1) as nat,
        )
    }
}

/// Setter `k` cannot be emitted: its name is `build`, or an earlier setter
/// already has it.
pub open spec fn clashes(ss: Seq<SetterModel>, k: int) -> bool {
    ss[k].name == "build"@ || exists|j: int| 0 <= j < k && (#[trigger] ss[j]).name == ss[k].name
}

/// Every setter has a name of its own, and none is `build`.
pub open spec fn names_distinct(ss: Seq<SetterModel>) -> bool {
    forall|k: int| 0 <= k < ss.len() ==> !#[trigger] clashes(ss, k)
}

/// The flag of a repeated field says whether its element setter bears the
/// field's own name.
pub open spec fn collision_flag_agrees(f: FieldSpec) -> bool {
    f.kind@ is Repeated ==> (f.kind@->Repeated_2 <==> f.kind@->Repeated_1 == f.name@)
}

/// `s` describes field `f` of the definition.
pub open spec fn describes(s: FieldSpec, f: FieldDef) -> bool {
    &&& s.name@ == f.name@
    &&& s.ty@ == f.ty.text@
    &&& kind_of(f) == Ok::<KindModel, ()>(s.kind@)
}

/// The fields of a struct with named fields.
pub open spec fn named_fields(def: TypeDef) -> Option<Seq<FieldDef>> {
    match def.shape {
        Shape::Named(fs) => Some(fs@),
        _ => None,
    }
}

pub open spec fn builder_name(record: Seq<char>) -> Seq<char> {
    record + "Builder"@
}

impl FieldSpec {
    pub fn stored_wrapped(&self) -> (r: bool)
        ensures
            r == stored_wrapped(self.kind@),
    {
        match self.kind {
            FieldKind::Required => true,
            _ => false,
        }
    }

    pub fn init(&self) -> (r: Init)
        ensures
            r == init_of(self.kind@),
    {
        match self.kind {
            FieldKind::Repeated { .. } => Init::EmptySequence,
            _ => Init::EmptyOptional,
        }
    }

    /// The setters of this field, standing at index `i`.
    pub fn setters(&self, i: usize) -> (r: Vec<Setter>)
        ensures
            r@.map_values(|s: Setter| s@) == field_setters(*self, i as nat),
    {
        let mut r: Vec<Setter> = Vec::new();
        match &self.kind {
            FieldKind::Required => {
                r.push(
                    Setter { name: self.name.clone(), param: self.ty.clone(), field: i, effect: Effect::Store },
                );
            },
            FieldKind::Optional { inner } => {
                r.push(
                    Setter { name: self.name.clone(), param: inner.clone(), field: i, effect: Effect::Store },
                );
            },
            FieldKind::Repeated { element, each, collides } => {
                r.push(
                    Setter { name: each.clone(), param: element.clone(), field: i, effect: Effect::Append },
                );
                if !*collides {
                    r.push(
                        Setter {
                            name: self.name.clone(),
                            param: self.ty.clone(),
                            field: i,
                            effect: Effect::Replace,
                        },
                    );
                }
            },
        }
        assert(r@.map_values(|s: Setter| s@) =~= field_setters(*self, i as nat));
        r
    }
}

impl BuilderDecl {
    /// The declarations can be emitted: setter names are distinct, and each
    /// repeated field's collision flag agrees with its names.
    pub open spec fn wf(&self) -> bool {
        &&& names_distinct(setters_of(self.fields@))
        &&& forall|i: int| 0 <= i < self.fields@.len() ==> collision_flag_agrees(#[trigger] self.fields@[i])
    }

    /// Every setter of the builder, field by field in declaration order.
    pub fn setters(&self) -> (r: Vec<Setter>)
        ensures
            r@.map_values(|s: Setter| s@) == setters_of(self.fields@),
    {
        all_setters(&self.fields)
    }
}

/// Every setter of a builder with these fields, in declaration order.
pub fn all_setters(fields: &Vec<FieldSpec>) -> (r: Vec<Setter>)
    ensures
        r@.map_values(|s: Setter| s@) == setters_of(fields@),
{
    let mut r: Vec<Setter> = Vec::new();
    let mut i: usize = 0;
    while i < fields.len()
        invariant
            i <= fields@.len(),
            r@.map_values(|s: Setter| s@) == setters_of(fields@.subrange(0, i as int)),
        decreases fields@.len() - i,
    {
        let mut more = fields[i].setters(i);
        let ghost before = r@;
        r.append(&mut more);
        assert(fields@.subrange(0, i + 1).drop_last() =~= fields@.subrange(0, i as int));
        assert(r@.map_values(|s: Setter| s@) =~= before.map_values(|s: Setter| s@) + field_setters(
            fields@[i as int],
            i as nat,
        ));
        i = i + 1;
    }
    assert(fields@.subrange(0, fields@.len() as int) =~= fields@);
    r
}

/// Index of the first setter that cannot be emitted.
pub fn first_clash(ss: &Vec<Setter>) -> (r: Option<usize>)
    ensures
        match r {
            Some(k) => k < ss@.len() && clashes(ss@.map_values(|s: Setter| s@), k as int),
            None => names_distinct(ss@.map_values(|s: Setter| s@)),
        },
{
    let ghost sv = ss@.map_values(|s: Setter| s@);
    let reserved = String::from_str("build");
    let mut k: usize = 0;
    while k < ss.len()
        invariant
            k <= ss@.len(),
            sv == ss@.map_values(|s: Setter| s@),
            reserved@ == "build"@,
            forall|m: int| 0 <= m < k ==> !#[trigger] clashes(sv, m),
        decreases ss@.len() - k,
    {
        assert(sv[k as int] == ss@[k as int]@);
        if ss[k].name == reserved {
            return Some(k);
        }
        let mut j: usize = 0;
        while j < k
            invariant
                j <= k < ss@.len(),
                sv == ss@.map_values(|s: Setter| s@),
                forall|m: int| 0 <= m < j ==> (#[trigger] sv[m]).name != sv[k as int].name,
            decreases k - j,
        {
            assert(sv[j as int] == ss@[j as int]@);
            if ss[j].name == ss[k].name {
                return Some(k);
            }
            j = j + 1;
        }
        k = k + 1;
    }
    None
}

/// Validates a definition and classifies its fields, giving the builder's
/// declarations; fails on the first field, in declaration order, that cannot
/// be classified, then on a field whose setter name is already taken.
pub fn expand(def: &TypeDef) -> (r: Result<BuilderDecl, GenError>)
    ensures
        named_fields(*def) is None <==> r == Err::<BuilderDecl, GenError>(GenError::NotARecord),
        r is Ok ==> named_fields(*def) is Some,
        r is Ok ==> ({
            let d = r->Ok_0;
            let fs = named_fields(*def)->Some_0;
            &&& d.record@ == def.name@
            &&& d.builder@ == builder_name(def.name@)
            &&& d.fields@.len() == fs.len()
            &&& forall|i: int| 0 <= i < fs.len() ==> describes(#[trigger] d.fields@[i], fs[i])
            &&& d.wf()
        }),
        r is Err && r->Err_0 is InvalidEachTarget ==> named_fields(*def) is Some,
        r is Err && r->Err_0 is InvalidEachTarget ==> ({
            let fs = named_fields(*def)->Some_0;
            ||| exists|i: int|
                0 <= i < fs.len() && kind_of(#[trigger] fs[i]) is Err && r->Err_0
                    == GenError::InvalidEachTarget(fs[i].name) && forall|j: int|
                    0 <= j < i ==> kind_of(#[trigger] fs[j]) is Ok
            ||| exists|specs: Seq<FieldSpec>, k: int|
                specs.len() == fs.len() && (forall|i: int|
                    0 <= i < fs.len() ==> describes(#[trigger] specs[i], fs[i])) && 0 <= k
                    < setters_of(specs).len() && clashes(setters_of(specs), k) && r->Err_0
                    == GenError::InvalidEachTarget(
                    #[trigger] specs[setters_of(specs)[k].field as int].name,
                )
        }),
{
    let defs = match &def.shape {
        Shape::Named(fs) => fs,
        _ => {
            return Err(GenError::NotARecord);
        },
    };
    let mut fields: Vec<FieldSpec> = Vec::new();
    let mut i: usize = 0;
    while i < defs.len()
        invariant
            named_fields(*def) == Some(defs@),
            i <= defs@.len(),
            fields@.len() == i,
            forall|j: int| 0 <= j < i ==> describes(#[trigger] fields@[j], defs@[j]),
        decreases defs@.len() - i,
    {
        let f = &defs[i];
        match classify(f) {
            Ok(kind) => {
                fields.push(FieldSpec { name: f.name.clone(), ty: f.ty.text.clone(), kind });
            },
            Err(e) => {
                assert forall|j: int| 0 <= j < i implies kind_of(#[trigger] defs@[j]) is Ok by {
                    assert(describes(fields@[j], defs@[j]));
                }
                let ghost k = i as int;
                assert(0 <= k < defs@.len() && kind_of(defs@[k]) is Err && e
                    == GenError::InvalidEachTarget(defs@[k].name) && forall|j: int|
                    0 <= j < k ==> kind_of(#[trigger] defs@[j]) is Ok);
                let ghost fs = named_fields(*def)->Some_0;
                assert(fs == defs@);
                assert(exists|i: int|
                    0 <= i < fs.len() && kind_of(#[trigger] fs[i]) is Err && e
                        == GenError::InvalidEachTarget(fs[i].name) && forall|j: int|
                        0 <= j < i ==> kind_of(#[trigger] fs[j]) is Ok);
                return Err(e);
            },
        }
        i = i + 1;
    }
    let ss = all_setters(&fields);
    proof {
        lemma_setter_fields(fields@);
    }
    match first_clash(&ss) {
        Some(k) => {
            assert(ss@.map_values(|s: Setter| s@)[k as int] == ss@[k as int]@);
            let f = ss[k].field;
            let e = GenError::InvalidEachTarget(fields[f].name.clone());
            assert(clashes(setters_of(fields@), k as int) && e == GenError::InvalidEachTarget(
                fields@[setters_of(fields@)[k as int].field as int].name,
            ));
            return Err(e);
        },
        None => {},
    }
    assert forall|i: int| 0 <= i < fields@.len() implies collision_flag_agrees(
        #[trigger] fields@[i],
    ) by {
        assert(describes(fields@[i], defs@[i]));
    }
    let builder = def.name.clone().concat("Builder");
    Ok(BuilderDecl { record: def.name.clone(), builder, fields })
}

/// Every setter sets a field of the builder.
pub proof fn lemma_setter_fields(fs: Seq<FieldSpec>)
    ensures
        forall|k: int|
            0 <= k < setters_of(fs).len() ==> (#[trigger] setters_of(fs)[k]).field < fs.len(),
    decreases fs.len(),
{
    if fs.len() > 0 {
        lemma_setter_fields(fs.drop_last());
        let a = setters_of(fs.drop_last());
        let b = field_setters(fs.last(), (fs.len() - 1) as nat);
        assert forall|k: int| 0 <= k < setters_of(fs).len() implies (#[trigger] setters_of(
            fs,
        )[k]).field < fs.len() by {
            if k < a.len() {
                assert(setters_of(fs)[k] == a[k]);
            } else {
                assert(setters_of(fs)[k] == b[k - a.len()]);
            }
        }
    }
}

} // verus!

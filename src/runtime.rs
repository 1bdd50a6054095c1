//! The behaviour of a generated builder: storage that starts empty, setters
//! that store, append or replace, and a `build` that checks required fields.
use vstd::prelude::*;
use crate::classify::{FieldKind, KindModel};
use crate::schema::{
    all_setters, collision_flag_agrees, field_setters, names_distinct, setters_of, BuilderDecl,
    Effect, FieldSpec, Setter, SetterModel,
};

verus! {

/// A field value.
#[derive(Debug, PartialEq)]
pub enum Value {
    Text(String),
    Int(i64),
    Bool(bool),
}

impl Value {
    /// A copy of the value.
    pub fn duplicate(&self) -> (r: Value)
        ensures
            r == *self,
    {
        match self {
            Value::Text(s) => Value::Text(s.clone()),
            Value::Int(n) => Value::Int(*n),
            Value::Bool(b) => Value::Bool(*b),
        }
    }
}

/// A copy of a sequence of values.
pub fn copy_values(v: &Vec<Value>) -> (r: Vec<Value>)
    ensures
        r@ == v@,
{
    let mut r: Vec<Value> = Vec::new();
    let mut i: usize = 0;
    while i < v.len()
        invariant
            i <= v@.len(),
            r@ == v@.subrange(0, i as int),
        decreases v@.len() - i,
    {
        r.push(v[i].duplicate());
        assert(r@ =~= v@.subrange(0, i + 1));
        i = i + 1;
    }
    assert(v@.subrange(0, v@.len() as int) =~= v@);
    r
}

/// The storage of one builder field.
pub enum Slot {
    /// Storage of a required or optional field.
    Single(Option<Value>),
    /// Storage of a repeated field.
    Many(Vec<Value>),
}

pub enum SlotModel {
    Single(Option<Value>),
    Many(Seq<Value>),
}

impl View for Slot {
    type V = SlotModel;

    open spec fn view(&self) -> SlotModel {
        match self {
            Slot::Single(o) => SlotModel::Single(*o),
            Slot::Many(v) => SlotModel::Many(v@),
        }
    }
}

/// One field of a built record.
#[derive(Debug, PartialEq)]
pub enum Output {
    /// The value of a required field.
    Plain(Value),
    /// The value of an optional field.
    Maybe(Option<Value>),
    /// The value of a repeated field.
    List(Vec<Value>),
}

pub enum OutputModel {
    Plain(Value),
    Maybe(Option<Value>),
    List(Seq<Value>),
}

impl View for Output {
    type V = OutputModel;

    open spec fn view(&self) -> OutputModel {
        match self {
            Output::Plain(v) => OutputModel::Plain(*v),
            Output::Maybe(o) => OutputModel::Maybe(*o),
            Output::List(v) => OutputModel::List(v@),
        }
    }
}

/// Why `build` failed.
#[derive(Debug, PartialEq)]
pub enum BuildError {
    /// The named required field was never set.
    MissingField(String),
}

/// Why a setter call failed.
#[derive(Debug, PartialEq)]
pub enum SetError {
    /// The builder has no setter of that name taking that argument.
    NoSuchSetter,
}

/// The storage a field starts with.
pub open spec fn init_slot(k: KindModel) -> SlotModel {
    match k {
        KindModel::Repeated(..) => SlotModel::Many(Seq::empty()),
        _ => SlotModel::Single(None),
    }
}

/// The storage of a fresh builder.
pub open spec fn initial(fields: Seq<FieldSpec>) -> Seq<SlotModel> {
    Seq::new(fields.len(), |i: int| init_slot(fields[i].kind@))
}

/// Storage `s` has the shape that kind `k` asks for.
pub open spec fn fits(k: KindModel, s: SlotModel) -> bool {
    match k {
        KindModel::Repeated(..) => s is Many,
        _ => s is Single,
    }
}

pub open spec fn well_formed(fields: Seq<FieldSpec>, slots: Seq<SlotModel>) -> bool {
    &&& slots.len() == fields.len()
    &&& forall|i: int| 0 <= i < fields.len() ==> fits(#[trigger] fields[i].kind@, slots[i])
}

/// Stores `Some(v)` in field `i`.
pub open spec fn store(slots: Seq<SlotModel>, i: int, v: Value) -> Seq<SlotModel> {
    slots.update(i, SlotModel::Single(Some(v)))
}

/// Appends `v` to the sequence of field `i`.
pub open spec fn append(slots: Seq<SlotModel>, i: int, v: Value) -> Seq<SlotModel> {
    match slots[i] {
        SlotModel::Many(vs) => slots.update(i, SlotModel::Many(vs.push(v))),
        SlotModel::Single(_) => slots,
    }
}

/// Replaces the sequence of field `i` by `vs`.
pub open spec fn replace(slots: Seq<SlotModel>, i: int, vs: Seq<Value>) -> Seq<SlotModel> {
    slots.update(i, SlotModel::Many(vs))
}

/// `s` is a setter named `name`; `bulk` tells whether it takes a whole sequence.
pub open spec fn answers(s: SetterModel, name: Seq<char>, bulk: bool) -> bool {
    s.name == name && (s.effect == Effect::Replace) == bulk
}

/// Index of the first setter in `ss` that answers to `name`.
pub open spec fn first_answering(ss: Seq<SetterModel>, name: Seq<char>, bulk: bool) -> Option<int>
    decreases ss.len(),
{
    if ss.len() == 0 {
        None
    } else {
        match first_answering(ss.drop_last(), name, bulk) {
            Some(k) => Some(k),
            None => if answers(ss.last(), name, bulk) {
                Some(ss.len() - 1)
            } else {
                None
            },
        }
    }
}

/// The storage after calling the one-value setter `s` with `v`.
pub open spec fn apply_one(slots: Seq<SlotModel>, s: SetterModel, v: Value) -> Seq<SlotModel> {
    if s.effect == Effect::Store {
        store(slots, s.field as int, v)
    } else {
        append(slots, s.field as int, v)
    }
}

/// The storage after calling the one-value setter named `name` with `v`;
/// unchanged where no such setter exists.
pub open spec fn set_spec(fields: Seq<FieldSpec>, slots: Seq<SlotModel>, name: Seq<char>, v: Value) -> Seq<
    SlotModel,
> {
    match first_answering(setters_of(fields), name, false) {
        Some(k) => apply_one(slots, setters_of(fields)[k], v),
        None => slots,
    }
}

/// The storage after calling the bulk setter named `name` with `vs`;
/// unchanged where no such setter exists.
pub open spec fn set_all_spec(
    fields: Seq<FieldSpec>,
    slots: Seq<SlotModel>,
    name: Seq<char>,
    vs: Seq<Value>,
) -> Seq<SlotModel> {
    match first_answering(setters_of(fields), name, true) {
        Some(k) => replace(slots, setters_of(fields)[k].field as int, vs),
        None => slots,
    }
}

/// The storage after calling the one-value setter named `name` once for each
/// of `xs`, in order.
pub open spec fn set_each(
    fields: Seq<FieldSpec>,
    slots: Seq<SlotModel>,
    name: Seq<char>,
    xs: Seq<Value>,
) -> Seq<SlotModel>
    decreases xs.len(),
{
    if xs.len() == 0 {
        slots
    } else {
        set_spec(fields, set_each(fields, slots, name, xs.drop_last()), name, xs.last())
    }
}

/// What a field of kind `k` builds to from storage `s`; `None` where a
/// required field is unset.
pub open spec fn output_of(k: KindModel, s: SlotModel) -> Option<OutputModel> {
    match k {
        KindModel::Required => match s {
            SlotModel::Single(Some(v)) => Some(OutputModel::Plain(v)),
            _ => None,
        },
        KindModel::Optional(_) => match s {
            SlotModel::Single(o) => Some(OutputModel::Maybe(o)),
            _ => None,
        },
        KindModel::Repeated(..) => match s {
            SlotModel::Many(vs) => Some(OutputModel::List(vs)),
            _ => None,
        },
    }
}

/// The result of `build`: the record's fields in order, or the name of the
/// first field, in declaration order, that cannot be built.
pub open spec fn build_spec(fields: Seq<FieldSpec>, slots: Seq<SlotModel>) -> Result<
    Seq<OutputModel>,
    Seq<char>,
>
    decreases fields.len(),
{
    if fields.len() == 0 {
        Ok(Seq::empty())
    } else {
        match build_spec(fields.drop_last(), slots) {
            Err(n) => Err(n),
            Ok(outs) => match output_of(fields.last().kind@, slots[fields.len() - 1]) {
                Some(o) => Ok(outs.push(o)),
                None => Err(fields.last().name@),
            },
        }
    }
}

/// A builder for one record type.
pub struct Builder {
    pub fields: Vec<FieldSpec>,
    pub slots: Vec<Slot>,
}

impl Builder {
    pub open spec fn slots_model(&self) -> Seq<SlotModel> {
        self.slots@.map_values(|s: Slot| s@)
    }

    pub open spec fn wf(&self) -> bool {
        &&& well_formed(self.fields@, self.slots_model())
        &&& names_distinct(setters_of(self.fields@))
        &&& forall|i: int|
            0 <= i < self.fields@.len() ==> collision_flag_agrees(#[trigger] self.fields@[i])
    }

    /// A fresh builder: every required and optional field unset, every
    /// repeated field empty.
    pub fn new(decl: BuilderDecl) -> (b: Builder)
        requires
            decl.wf(),
        ensures
            b.fields@ == decl.fields@,
            b.slots_model() == initial(decl.fields@),
            b.wf(),
    {
        let fields = decl.fields;
        let mut slots: Vec<Slot> = Vec::new();
        let mut i: usize = 0;
        while i < fields.len()
            invariant
                i <= fields@.len(),
                slots@.len() == i,
                forall|j: int|
                    0 <= j < i ==> (#[trigger] slots@[j])@ == init_slot(fields@[j].kind@),
            decreases fields@.len() - i,
        {
            match fields[i].kind {
                FieldKind::Repeated { .. } => slots.push(Slot::Many(Vec::new())),
                _ => slots.push(Slot::Single(None)),
            }
            i = i + 1;
        }
        let b = Builder { fields, slots };
        assert(b.slots_model() =~= initial(b.fields@));
        b
    }

    /// Calls the one-value setter named `name` with `v`: the first setter of
    /// that name, in declaration order, that stores or appends.
    pub fn set(&mut self, name: &String, v: Value) -> (r: Result<(), SetError>)
        requires
            old(self).wf(),
        ensures
            final(self).wf(),
            final(self).fields@ == old(self).fields@,
            final(self).slots_model() == set_spec(old(self).fields@, old(self).slots_model(), name@, v),
            match first_answering(setters_of(old(self).fields@), name@, false) {
                Some(_) => r is Ok,
                None => r == Err::<(), SetError>(SetError::NoSuchSetter),
            },
    {
        let ss = all_setters(&self.fields);
        let found = find_setter(&ss, name, false);
        match found {
            None => Err(SetError::NoSuchSetter),
            Some(k) => {
                proof {
                    lemma_setter_targets(self.fields@);
                    assert(ss@.map_values(|s: Setter| s@)[k as int] == ss@[k as int]@);
                }
                let f = ss[k].field;
                let ghost before = self.slots_model();
                if ss[k].effect == Effect::Store {
                    self.slots.set(f, Slot::Single(Some(v)));
                } else {
                    let mut vs = match &self.slots[f] {
                        Slot::Many(vs) => copy_values(vs),
                        // a well-formed builder stores a repeated field as a sequence
                        Slot::Single(_) => Vec::new(),
                    };
                    vs.push(v);
                    self.slots.set(f, Slot::Many(vs));
                }
                assert(self.slots_model() =~= apply_one(before, ss@[k as int]@, v));
                Ok(())
            },
        }
    }

    /// Calls the whole-sequence setter named `name` with `vs`.
    pub fn set_all(&mut self, name: &String, vs: Vec<Value>) -> (r: Result<(), SetError>)
        requires
            old(self).wf(),
        ensures
            final(self).wf(),
            final(self).fields@ == old(self).fields@,
            final(self).slots_model() == set_all_spec(
                old(self).fields@,
                old(self).slots_model(),
                name@,
                vs@,
            ),
            match first_answering(setters_of(old(self).fields@), name@, true) {
                Some(_) => r is Ok,
                None => r == Err::<(), SetError>(SetError::NoSuchSetter),
            },
    {
        let ss = all_setters(&self.fields);
        let found = find_setter(&ss, name, true);
        match found {
            None => Err(SetError::NoSuchSetter),
            Some(k) => {
                proof {
                    lemma_setter_targets(self.fields@);
                    assert(ss@.map_values(|s: Setter| s@)[k as int] == ss@[k as int]@);
                }
                let f = ss[k].field;
                let ghost before = self.slots_model();
                let ghost items = vs@;
                self.slots.set(f, Slot::Many(vs));
                assert(self.slots_model() =~= replace(before, f as int, items));
                Ok(())
            },
        }
    }

    /// Assembles the record; fails naming the first required field, in
    /// declaration order, that is unset. The builder is left as it was.
    pub fn build(&self) -> (r: Result<Vec<Output>, BuildError>)
        requires
            self.wf(),
        ensures
            match r {
                Ok(outs) => build_spec(self.fields@, self.slots_model()) == Ok::<
                    Seq<OutputModel>,
                    Seq<char>,
                >(outs@.map_values(|o: Output| o@)),
                Err(BuildError::MissingField(n)) => build_spec(self.fields@, self.slots_model())
                    == Err::<Seq<OutputModel>, Seq<char>>(n@),
            },
    {
        let ghost slots = self.slots_model();
        let mut outs: Vec<Output> = Vec::new();
        let mut i: usize = 0;
        assert(self.fields@.subrange(0, 0) =~= Seq::<FieldSpec>::empty());
        assert(outs@.map_values(|o: Output| o@) =~= Seq::<OutputModel>::empty());
        while i < self.fields.len()
            invariant
                i <= self.fields@.len(),
                self.wf(),
                slots == self.slots_model(),
                build_spec(self.fields@.subrange(0, i as int), slots) == Ok::<
                    Seq<OutputModel>,
                    Seq<char>,
                >(outs@.map_values(|o: Output| o@)),
            decreases self.fields@.len() - i,
        {
            let ghost pre = self.fields@.subrange(0, i + 1);
            assert(pre.drop_last() =~= self.fields@.subrange(0, i as int));
            let o: Option<Output> = if i < self.slots.len() {
                assert(slots[i as int] == self.slots@[i as int]@);
                match (&self.fields[i].kind, &self.slots[i]) {
                    (FieldKind::Required, Slot::Single(Some(v))) => Some(Output::Plain(v.duplicate())),
                    (FieldKind::Optional { .. }, Slot::Single(o)) => Some(
                        Output::Maybe(
                            match o {
                                Some(v) => Some(v.duplicate()),
                                None => None,
                            },
                        ),
                    ),
                    (FieldKind::Repeated { .. }, Slot::Many(vs)) => Some(Output::List(copy_values(vs))),
                    _ => None,
                }
            } else {
                None
            };
            assert(slots[i as int] == self.slots@[i as int]@);
            assert(o matches Some(x) ==> output_of(self.fields@[i as int].kind@, slots[i as int])
                == Some(x@));
            assert(o is None ==> output_of(self.fields@[i as int].kind@, slots[i as int]) is None);
            match o {
                Some(o) => {
                    let ghost before = outs@.map_values(|o: Output| o@);
                    outs.push(o);
                    assert(outs@.map_values(|o: Output| o@) =~= before.push(o@));
                },
                None => {
                    proof {
                        lemma_build_prefix_err(self.fields@, slots, i + 1);
                    }
                    return Err(BuildError::MissingField(self.fields[i].name.clone()));
                },
            }
            i = i + 1;
        }
        assert(self.fields@.subrange(0, self.fields@.len() as int) =~= self.fields@);
        Ok(outs)
    }
}

/// Index of the first setter in `ss` that answers to `name`.
pub fn find_setter(ss: &Vec<Setter>, name: &String, bulk: bool) -> (r: Option<usize>)
    ensures
        match r {
            Some(k) => first_answering(ss@.map_values(|s: Setter| s@), name@, bulk) == Some(k as int),
            None => first_answering(ss@.map_values(|s: Setter| s@), name@, bulk) is None,
        },
        r matches Some(k) ==> k < ss@.len() && answers(ss@[k as int]@, name@, bulk),
{
    let ghost sv = ss@.map_values(|s: Setter| s@);
    let mut found: Option<usize> = None;
    let mut i: usize = 0;
    while i < ss.len()
        invariant
            i <= ss@.len(),
            sv == ss@.map_values(|s: Setter| s@),
            found matches Some(k) ==> k < i && answers(ss@[k as int]@, name@, bulk),
            match found {
                Some(k) => first_answering(sv.subrange(0, i as int), name@, bulk) == Some(k as int),
                None => first_answering(sv.subrange(0, i as int), name@, bulk) is None,
            },
        decreases ss@.len() - i,
    {
        assert(sv.subrange(0, i + 1).drop_last() =~= sv.subrange(0, i as int));
        assert(sv[i as int] == ss@[i as int]@);
        if found.is_none() && ss[i].name == *name && (ss[i].effect == Effect::Replace) == bulk {
            found = Some(i);
        }
        i = i + 1;
    }
    assert(sv.subrange(0, sv.len() as int) =~= sv);
    found
}

/// An error met in a prefix of the fields is the error of the whole build.
pub proof fn lemma_build_prefix_err(fs: Seq<FieldSpec>, slots: Seq<SlotModel>, n: int)
    requires
        0 <= n <= fs.len(),
        build_spec(fs.subrange(0, n), slots) is Err,
    ensures
        build_spec(fs, slots) == build_spec(fs.subrange(0, n), slots),
    decreases fs.len(),
{
    if n < fs.len() {
        assert(fs.drop_last().subrange(0, n) =~= fs.subrange(0, n));
        lemma_build_prefix_err(fs.drop_last(), slots, n);
    } else {
        assert(fs.subrange(0, n) =~= fs);
    }
}

/// Every setter targets a field of the builder and is one of that field's setters.
pub proof fn lemma_setter_targets(fs: Seq<FieldSpec>)
    ensures
        forall|k: int|
            0 <= k < setters_of(fs).len() ==> (#[trigger] setters_of(fs)[k]).field < fs.len()
                && field_setters(fs[setters_of(fs)[k].field as int], setters_of(fs)[k].field).contains(
                setters_of(fs)[k],
            ),
    decreases fs.len(),
{
    if fs.len() > 0 {
        let pre = fs.drop_last();
        lemma_setter_targets(pre);
        let a = setters_of(pre);
        let b = field_setters(fs.last(), (fs.len() - 1) as nat);
        assert forall|k: int| 0 <= k < setters_of(fs).len() implies (#[trigger] setters_of(
            fs,
        )[k]).field < fs.len() && field_setters(
            fs[setters_of(fs)[k].field as int],
            setters_of(fs)[k].field,
        ).contains(setters_of(fs)[k]) by {
            if k < a.len() {
                assert(setters_of(fs)[k] == a[k]);
                assert(fs[a[k].field as int] == pre[a[k].field as int]);
            } else {
                assert(setters_of(fs)[k] == b[k - a.len()]);
                assert(b[k - a.len()].field == fs.len() - 1) by {
                    assert(b.len() <= 2);
                }
            }
        }
    }
}

} // verus!

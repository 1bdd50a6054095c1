//! Properties of generated builders, proved over the models of `schema` and
//! `runtime`.
use vstd::prelude::*;
use crate::runtime::{
    answers, append, apply_one, build_spec, first_answering, initial, output_of, replace, set_all_spec,
    set_each, set_spec, store, well_formed, OutputModel, SlotModel, Value,
};
use crate::runtime::lemma_setter_targets;
use crate::schema::{clashes, field_setters, names_distinct, setters_of, Effect, FieldSpec, SetterModel};

verus! {

/// `build` succeeds exactly when every field builds, and then the record's
/// field `i` is what field `i` builds to.
pub proof fn lemma_build_ok(fs: Seq<FieldSpec>, slots: Seq<SlotModel>)
    ensures
        build_spec(fs, slots) is Ok <==> forall|i: int|
            0 <= i < fs.len() ==> (#[trigger] output_of(fs[i].kind@, slots[i])) is Some,
        build_spec(fs, slots) is Ok ==> build_spec(fs, slots)->Ok_0.len() == fs.len(),
        build_spec(fs, slots) is Ok ==> forall|i: int|
            0 <= i < fs.len() ==> (#[trigger] output_of(fs[i].kind@, slots[i])) == Some(
                build_spec(fs, slots)->Ok_0[i],
            ),
    decreases fs.len(),
{
    if fs.len() > 0 {
        let pre = fs.drop_last();
        lemma_build_ok(pre, slots);
        assert forall|i: int| 0 <= i < pre.len() implies pre[i] == fs[i] by {}
        if build_spec(fs, slots) is Ok {
            let outs = build_spec(pre, slots)->Ok_0;
            assert forall|i: int| 0 <= i < fs.len() implies (#[trigger] output_of(
                fs[i].kind@,
                slots[i],
            )) == Some(build_spec(fs, slots)->Ok_0[i]) by {
                if i < pre.len() {
                    assert(output_of(pre[i].kind@, slots[i]) == Some(outs[i]));
                }
            }
        } else {
            if build_spec(pre, slots) is Ok {
                assert(output_of(fs[fs.len() - 1].kind@, slots[fs.len() - 1]) is None);
            } else {
                let j = choose|j: int|
                    0 <= j < pre.len() && (#[trigger] output_of(pre[j].kind@, slots[j])) is None;
                assert(output_of(fs[j].kind@, slots[j]) is None);
            }
        }
    }
}

/// Where field `i` is the first that cannot be built, `build` fails naming it.
pub proof fn lemma_build_first_missing(fs: Seq<FieldSpec>, slots: Seq<SlotModel>, i: int)
    requires
        0 <= i < fs.len(),
        output_of(fs[i].kind@, slots[i]) is None,
        forall|j: int| 0 <= j < i ==> (#[trigger] output_of(fs[j].kind@, slots[j])) is Some,
    ensures
        build_spec(fs, slots) == Err::<Seq<OutputModel>, Seq<char>>(fs[i].name@),
    decreases fs.len(),
{
    let pre = fs.drop_last();
    if i < fs.len() - 1 {
        assert forall|j: int| 0 <= j < i implies (#[trigger] output_of(pre[j].kind@, slots[j])) is Some by {
            assert(pre[j] == fs[j]);
        }
        lemma_build_first_missing(pre, slots, i);
    } else {
        lemma_build_ok(pre, slots);
        assert forall|j: int| 0 <= j < pre.len() implies (#[trigger] output_of(
            pre[j].kind@,
            slots[j],
        )) is Some by {
            assert(pre[j] == fs[j]);
        }
    }
}

/// A record without fields builds, from a fresh builder, to the empty record.
pub proof fn law_empty_record_builds(fields: Seq<FieldSpec>)
    requires
        fields.len() == 0,
    ensures
        build_spec(fields, initial(fields)) == Ok::<Seq<OutputModel>, Seq<char>>(Seq::empty()),
{
}

/// On a fresh builder, `build` fails naming the first required field in
/// declaration order.
pub proof fn law_fresh_builder_names_first_required(fields: Seq<FieldSpec>, i: int)
    requires
        0 <= i < fields.len(),
        fields[i].kind@ is Required,
        forall|j: int| 0 <= j < i ==> !((#[trigger] fields[j]).kind@ is Required),
    ensures
        build_spec(fields, initial(fields)) == Err::<Seq<OutputModel>, Seq<char>>(fields[i].name@),
{
    let slots = initial(fields);
    assert forall|j: int| 0 <= j < i implies (#[trigger] output_of(fields[j].kind@, slots[j])) is Some by {
        assert(!(fields[j].kind@ is Required));
    }
    lemma_build_first_missing(fields, slots, i);
}

/// Once a required field is set, a successful `build` holds exactly the value
/// stored; and `build` succeeds once every required field is set.
pub proof fn law_required_value_kept(
    fields: Seq<FieldSpec>,
    slots: Seq<SlotModel>,
    i: int,
    v: Value,
)
    requires
        well_formed(fields, slots),
        0 <= i < fields.len(),
        fields[i].kind@ is Required,
    ensures
        build_spec(fields, store(slots, i, v)) is Ok ==> build_spec(fields, store(slots, i, v))->Ok_0[i]
            == OutputModel::Plain(v),
        (forall|j: int|
            0 <= j < fields.len() && j != i && (#[trigger] fields[j]).kind@ is Required ==> slots[j]
                is Single && slots[j]->Single_0 is Some) ==> build_spec(fields, store(slots, i, v)) is Ok,
{
    let after = store(slots, i, v);
    lemma_build_ok(fields, after);
    assert(output_of(fields[i].kind@, after[i]) == Some(OutputModel::Plain(v)));
    if forall|j: int|
        0 <= j < fields.len() && j != i && (#[trigger] fields[j]).kind@ is Required ==> slots[j]
            is Single && slots[j]->Single_0 is Some {
        assert forall|j: int| 0 <= j < fields.len() implies (#[trigger] output_of(
            fields[j].kind@,
            after[j],
        )) is Some by {
            if j != i {
                assert(fields[j].kind@ is Required ==> slots[j] is Single && slots[j]->Single_0 is Some);
                assert(crate::runtime::fits(fields[j].kind@, slots[j]));
            }
        }
    }
}

/// An unset optional field builds to the empty value; a set one to the value.
pub proof fn law_optional_field(fields: Seq<FieldSpec>, slots: Seq<SlotModel>, i: int, v: Value)
    requires
        well_formed(fields, slots),
        0 <= i < fields.len(),
        fields[i].kind@ is Optional,
    ensures
        slots[i] == SlotModel::Single(None) && build_spec(fields, slots) is Ok ==> build_spec(
            fields,
            slots,
        )->Ok_0[i] == OutputModel::Maybe(None),
        build_spec(fields, store(slots, i, v)) is Ok ==> build_spec(fields, store(slots, i, v))->Ok_0[i]
            == OutputModel::Maybe(Some(v)),
{
    lemma_build_ok(fields, slots);
    let after = store(slots, i, v);
    lemma_build_ok(fields, after);
    assert(output_of(fields[i].kind@, after[i]) == Some(OutputModel::Maybe(Some(v))));
    assert(slots[i] == SlotModel::Single(None) ==> output_of(fields[i].kind@, slots[i]) == Some(
        OutputModel::Maybe(None),
    ));
}

/// A repeated field builds to the sequence its storage holds: the bulk
/// setter's argument, extended by each element setter call in call order.
pub proof fn law_repeated_field(
    fields: Seq<FieldSpec>,
    slots: Seq<SlotModel>,
    i: int,
    vs: Seq<Value>,
    a: Value,
    b: Value,
    c: Value,
)
    requires
        well_formed(fields, slots),
        0 <= i < fields.len(),
        fields[i].kind@ is Repeated,
    ensures
        build_spec(fields, replace(slots, i, vs)) is Ok ==> build_spec(
            fields,
            replace(slots, i, vs),
        )->Ok_0[i] == OutputModel::List(vs),
        slots[i] == SlotModel::Many(Seq::empty()) ==> append(
            append(append(slots, i, a), i, b),
            i,
            c,
        ) == replace(slots, i, seq![a, b, c]),
        append(replace(slots, i, vs), i, a) == replace(slots, i, vs.push(a)),
{
    let after = replace(slots, i, vs);
    lemma_build_ok(fields, after);
    assert(output_of(fields[i].kind@, after[i]) == Some(OutputModel::List(vs)));
    if slots[i] == SlotModel::Many(Seq::empty()) {
        assert(Seq::<Value>::empty().push(a).push(b).push(c) =~= seq![a, b, c]);
        assert(append(append(append(slots, i, a), i, b), i, c) =~= replace(slots, i, seq![a, b, c]));
    }
    assert(append(replace(slots, i, vs), i, a) =~= replace(slots, i, vs.push(a)));
}

/// A repeated field whose element setter bears the field's own name has that
/// one setter, which appends: no setter replaces its whole sequence. Any other
/// repeated field also has a bulk setter under its own name.
pub proof fn law_colliding_name_only_appends(fields: Seq<FieldSpec>, i: int)
    requires
        0 <= i < fields.len(),
        fields[i].kind@ is Repeated,
        fields[i].kind@->Repeated_2 == (fields[i].kind@->Repeated_1 == fields[i].name@),
    ensures
        fields[i].kind@->Repeated_2 ==> forall|k: int|
            0 <= k < setters_of(fields).len() && (#[trigger] setters_of(fields)[k]).field == i
                ==> setters_of(fields)[k].effect == Effect::Append && setters_of(fields)[k].name
                == fields[i].name@,
        fields[i].kind@->Repeated_2 && (forall|k: int|
            0 <= k < setters_of(fields).len() && (#[trigger] setters_of(fields)[k]).field != i
                ==> !answers(setters_of(fields)[k], fields[i].name@, true)) ==> first_answering(
            setters_of(fields),
            fields[i].name@,
            true,
        ) is None,
        !fields[i].kind@->Repeated_2 ==> exists|k: int|
            0 <= k < setters_of(fields).len() && (#[trigger] setters_of(fields)[k]).field == i
                && setters_of(fields)[k].effect == Effect::Replace && setters_of(fields)[k].name
                == fields[i].name@,
    decreases fields.len(),
{
    lemma_setter_targets(fields);
    if fields[i].kind@->Repeated_2 {
        let all = setters_of(fields);
        assert forall|k: int| 0 <= k < all.len() && (#[trigger] all[k]).field == i implies all[k].effect
            == Effect::Append && all[k].name == fields[i].name@ by {
            let fsi = field_setters(fields[i], i as nat);
            assert(fsi.contains(all[k]));
            let t = choose|t: int| 0 <= t < fsi.len() && fsi[t] == all[k];
            assert(fsi.len() == 1);
        }
        lemma_first_answering(all, fields[i].name@, true);
    } else {
        lemma_setters_cover(fields, i);
        let fsi = field_setters(fields[i], i as nat);
        let t = fsi[1];
        let k = choose|k: int| 0 <= k < setters_of(fields).len() && setters_of(fields)[k] == t;
        assert(setters_of(fields)[k].field == i);
    }
}

/// Every setter of every field is among the builder's setters.
pub proof fn lemma_setters_cover(fields: Seq<FieldSpec>, i: int)
    requires
        0 <= i < fields.len(),
    ensures
        forall|t: int|
            0 <= t < field_setters(fields[i], i as nat).len() ==> exists|k: int|
                0 <= k < setters_of(fields).len() && setters_of(fields)[k] == (#[trigger] field_setters(
                    fields[i],
                    i as nat,
                )[t]),
    decreases fields.len(),
{
    let pre = fields.drop_last();
    let a = setters_of(pre);
    let all = setters_of(fields);
    if i < fields.len() - 1 {
        lemma_setters_cover(pre, i);
        assert(pre[i] == fields[i]);
        assert forall|t: int| 0 <= t < field_setters(fields[i], i as nat).len() implies exists|k: int|
            0 <= k < all.len() && all[k] == (#[trigger] field_setters(fields[i], i as nat)[t]) by {
            let k = choose|k: int| 0 <= k < a.len() && a[k] == field_setters(pre[i], i as nat)[t];
            assert(all[k] == a[k]);
        }
    } else {
        assert forall|t: int| 0 <= t < field_setters(fields[i], i as nat).len() implies exists|k: int|
            0 <= k < all.len() && all[k] == (#[trigger] field_setters(fields[i], i as nat)[t]) by {
            assert(all[a.len() + t] == field_setters(fields[i], i as nat)[t]);
        }
    }
}

/// The first answering setter answers; where none is found, none answers.
pub proof fn lemma_first_answering(ss: Seq<SetterModel>, name: Seq<char>, bulk: bool)
    ensures
        first_answering(ss, name, bulk) matches Some(j) ==> 0 <= j < ss.len() && answers(
            ss[j],
            name,
            bulk,
        ),
        first_answering(ss, name, bulk) is None ==> forall|j: int|
            0 <= j < ss.len() ==> !answers(#[trigger] ss[j], name, bulk),
    decreases ss.len(),
{
    if ss.len() > 0 {
        let pre = ss.drop_last();
        lemma_first_answering(pre, name, bulk);
        assert forall|j: int| 0 <= j < pre.len() implies pre[j] == ss[j] by {}
    }
}

/// Calling a setter by name reaches the setter generated for that name on
/// field `i`, wherever no setter of another field answers to the same name:
/// the one-value setter of a required or optional field stores, that of a
/// repeated field appends, and the bulk setter replaces.
pub proof fn law_setter_reaches_its_field(fields: Seq<FieldSpec>, i: int, t: int)
    requires
        0 <= i < fields.len(),
        0 <= t < field_setters(fields[i], i as nat).len(),
        forall|k: int|
            0 <= k < setters_of(fields).len() && (#[trigger] setters_of(fields)[k]).field != i
                ==> !answers(
                setters_of(fields)[k],
                field_setters(fields[i], i as nat)[t].name,
                field_setters(fields[i], i as nat)[t].effect == Effect::Replace,
            ),
    ensures
        ({
            let target = field_setters(fields[i], i as nat)[t];
            let found = first_answering(
                setters_of(fields),
                target.name,
                target.effect == Effect::Replace,
            );
            found matches Some(k) && 0 <= k < setters_of(fields).len() && setters_of(fields)[k]
                == target
        }),
{
    let fsi = field_setters(fields[i], i as nat);
    let target = fsi[t];
    let bulk = target.effect == Effect::Replace;
    let all = setters_of(fields);
    lemma_setters_cover(fields, i);
    lemma_setter_targets(fields);
    lemma_first_answering(all, target.name, bulk);
    let k0 = choose|k: int| 0 <= k < all.len() && all[k] == fsi[t];
    assert(answers(all[k0], target.name, bulk));
    let j = first_answering(all, target.name, bulk)->Some_0;
    assert(all[j].field == i);
    assert(fsi.contains(all[j]));
    let u = choose|u: int| 0 <= u < fsi.len() && fsi[u] == all[j];
    assert(all[j] == target);
}

/// With distinct setter names, calling setter `t` of field `i` by its name
/// reaches exactly that setter.
pub proof fn lemma_lookup(fields: Seq<FieldSpec>, i: int, t: int)
    requires
        names_distinct(setters_of(fields)),
        0 <= i < fields.len(),
        0 <= t < field_setters(fields[i], i as nat).len(),
    ensures
        ({
            let target = field_setters(fields[i], i as nat)[t];
            let found = first_answering(
                setters_of(fields),
                target.name,
                target.effect == Effect::Replace,
            );
            found matches Some(k) && 0 <= k < setters_of(fields).len() && setters_of(fields)[k]
                == target
        }),
{
    let all = setters_of(fields);
    let fsi = field_setters(fields[i], i as nat);
    let target = fsi[t];
    let bulk = target.effect == Effect::Replace;
    lemma_setters_cover(fields, i);
    let k0 = choose|k: int| 0 <= k < all.len() && all[k] == fsi[t];
    assert forall|k: int| 0 <= k < all.len() && (#[trigger] all[k]).field != i implies !answers(
        all[k],
        target.name,
        bulk,
    ) by {
        if all[k].name == target.name {
            if k < k0 {
                assert(clashes(all, k0));
            } else {
                assert(all[k0].name == all[k].name);
                assert(clashes(all, k));
            }
        }
    }
    law_setter_reaches_its_field(fields, i, t);
}

/// Calling the element setter of repeated field `i` once for each of `xs`
/// appends `xs`, in call order, to what the field held.
pub proof fn lemma_set_each_appends(
    fields: Seq<FieldSpec>,
    slots: Seq<SlotModel>,
    i: int,
    cur: Seq<Value>,
    xs: Seq<Value>,
)
    requires
        names_distinct(setters_of(fields)),
        0 <= i < fields.len(),
        fields[i].kind@ is Repeated,
        i < slots.len(),
        slots[i] == SlotModel::Many(cur),
    ensures
        set_each(fields, slots, fields[i].kind@->Repeated_1, xs) == replace(slots, i, cur + xs),
    decreases xs.len(),
{
    let each = fields[i].kind@->Repeated_1;
    if xs.len() == 0 {
        assert(cur + xs =~= cur);
        assert(replace(slots, i, cur + xs) =~= slots);
    } else {
        let pre = xs.drop_last();
        lemma_set_each_appends(fields, slots, i, cur, pre);
        lemma_lookup(fields, i, 0);
        let mid = replace(slots, i, cur + pre);
        let target = field_setters(fields[i], i as nat)[0];
        assert(set_spec(fields, mid, each, xs.last()) == apply_one(mid, target, xs.last()));
        assert((cur + pre).push(xs.last()) =~= cur + xs);
        assert(apply_one(mid, target, xs.last()) =~= replace(slots, i, cur + xs));
    }
}

/// Setting a required field through its setter stores exactly the value
/// given; once every required field is set, `build` succeeds and holds it,
/// unmodified, whatever the value.
pub proof fn law_required_set_then_build(
    fields: Seq<FieldSpec>,
    slots: Seq<SlotModel>,
    i: int,
    v: Value,
)
    requires
        well_formed(fields, slots),
        names_distinct(setters_of(fields)),
        0 <= i < fields.len(),
        fields[i].kind@ is Required,
    ensures
        set_spec(fields, slots, fields[i].name@, v) == store(slots, i, v),
        build_spec(fields, store(slots, i, v)) is Ok ==> build_spec(fields, store(slots, i, v))->Ok_0[i]
            == OutputModel::Plain(v),
        (forall|j: int|
            0 <= j < fields.len() && j != i && (#[trigger] fields[j]).kind@ is Required ==> slots[j]
                is Single && slots[j]->Single_0 is Some) ==> build_spec(fields, store(slots, i, v)) is Ok,
{
    lemma_lookup(fields, i, 0);
    law_required_value_kept(fields, slots, i, v);
}

/// Setting an optional field through its setter, which takes the inner
/// type, stores `Some` of the value, and `build` then holds `Some(v)`.
pub proof fn law_optional_set_then_build(
    fields: Seq<FieldSpec>,
    slots: Seq<SlotModel>,
    i: int,
    v: Value,
)
    requires
        well_formed(fields, slots),
        names_distinct(setters_of(fields)),
        0 <= i < fields.len(),
        fields[i].kind@ is Optional,
    ensures
        set_spec(fields, slots, fields[i].name@, v) == store(slots, i, v),
        build_spec(fields, store(slots, i, v)) is Ok ==> build_spec(fields, store(slots, i, v))->Ok_0[i]
            == OutputModel::Maybe(Some(v)),
        slots[i] == SlotModel::Single(None) && build_spec(fields, slots) is Ok ==> build_spec(
            fields,
            slots,
        )->Ok_0[i] == OutputModel::Maybe(None),
{
    lemma_lookup(fields, i, 0);
    law_optional_field(fields, slots, i, v);
}

/// For a repeated field whose element setter has a name of its own: the bulk
/// setter replaces the whole sequence (earlier appends are dropped), element
/// calls append in call order from there, and `build` holds the result.
pub proof fn law_repeated_setters(
    fields: Seq<FieldSpec>,
    slots: Seq<SlotModel>,
    i: int,
    vs: Seq<Value>,
    xs: Seq<Value>,
)
    requires
        well_formed(fields, slots),
        names_distinct(setters_of(fields)),
        0 <= i < fields.len(),
        fields[i].kind@ is Repeated,
        !fields[i].kind@->Repeated_2,
    ensures
        set_all_spec(fields, slots, fields[i].name@, vs) == replace(slots, i, vs),
        set_each(
            fields,
            set_all_spec(fields, slots, fields[i].name@, vs),
            fields[i].kind@->Repeated_1,
            xs,
        ) == replace(slots, i, vs + xs),
        set_all_spec(
            fields,
            set_each(fields, slots, fields[i].kind@->Repeated_1, xs),
            fields[i].name@,
            vs,
        ) == replace(slots, i, vs),
        slots[i] == SlotModel::Many(Seq::empty()) ==> set_each(
            fields,
            slots,
            fields[i].kind@->Repeated_1,
            xs,
        ) == replace(slots, i, xs),
        build_spec(fields, replace(slots, i, vs + xs)) is Ok ==> build_spec(
            fields,
            replace(slots, i, vs + xs),
        )->Ok_0[i] == OutputModel::List(vs + xs),
{
    lemma_lookup(fields, i, 1);
    let replaced = replace(slots, i, vs);
    lemma_set_each_appends(fields, replaced, i, vs, xs);
    assert(replace(replaced, i, vs + xs) =~= replace(slots, i, vs + xs));
    let cur = slots[i]->Many_0;
    lemma_set_each_appends(fields, slots, i, cur, xs);
    assert(replace(replace(slots, i, cur + xs), i, vs) =~= replace(slots, i, vs));
    if slots[i] == SlotModel::Many(Seq::empty()) {
        assert(Seq::<Value>::empty() + xs =~= xs);
    }
    let any = Value::Bool(true);
    law_repeated_field(fields, slots, i, vs + xs, any, any, any);
}

/// For a repeated field whose element setter bears the field's own name:
/// every call by that name appends one element, in call order, and no bulk
/// setter answers to the name.
pub proof fn law_colliding_setter_appends(
    fields: Seq<FieldSpec>,
    slots: Seq<SlotModel>,
    i: int,
    xs: Seq<Value>,
)
    requires
        well_formed(fields, slots),
        names_distinct(setters_of(fields)),
        0 <= i < fields.len(),
        fields[i].kind@ is Repeated,
        fields[i].kind@->Repeated_2,
        fields[i].kind@->Repeated_1 == fields[i].name@,
    ensures
        set_each(fields, slots, fields[i].name@, xs) == replace(slots, i, slots[i]->Many_0 + xs),
        first_answering(setters_of(fields), fields[i].name@, true) is None,
        forall|vs: Seq<Value>| set_all_spec(fields, slots, fields[i].name@, vs) == slots,
{
    lemma_set_each_appends(fields, slots, i, slots[i]->Many_0, xs);
    let all = setters_of(fields);
    lemma_setters_cover(fields, i);
    let fsi = field_setters(fields[i], i as nat);
    let k0 = choose|k: int| 0 <= k < all.len() && all[k] == fsi[0];
    assert forall|k: int| 0 <= k < all.len() && (#[trigger] all[k]).field != i implies !answers(
        all[k],
        fields[i].name@,
        true,
    ) by {
        if all[k].name == fields[i].name@ {
            if k < k0 {
                assert(clashes(all, k0));
            } else {
                assert(all[k0].name == all[k].name);
                assert(clashes(all, k));
            }
        }
    }
    law_colliding_name_only_appends(fields, i);
}

} // verus!

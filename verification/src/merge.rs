//! The structural merge engine: a two-way right-biased merge, a
//! default-aware normalization pass, and the default-aware three-way merge
//! that decides, field by field, whether a later configuration layer
//! overrides an earlier one.
//!
//! All three walk map entries and struct fields by key; a key is looked up
//! by structural equality, and the first occurrence wins.  Entry order is
//! preserved: keys of the left (or accumulated) operand keep their
//! positions, and keys that only the right (candidate) operand has are
//! appended in its order.

use vstd::prelude::*;

use crate::value::Value;
use crate::value::ValueModel;
use crate::value::model_of;
use crate::value::entry_models_of;
use crate::value::field_models_of;
use crate::value::value_eq;
use crate::value::deep_clone;
use crate::value::wf;
use crate::value::keys_unique;

verus! {

/// The value under the first occurrence of `key`, if any.
pub open spec fn lookup<K>(entries: Seq<(K, ValueModel)>, key: K) -> Option<ValueModel>
    decreases entries.len(),
{
    if entries.len() == 0 {
        Option::None
    } else if entries[0].0 == key {
        Option::Some(entries[0].1)
    } else {
        lookup(entries.subrange(1, entries.len() as int), key)
    }
}

/// Whether some entry has this key.
pub open spec fn has_key<K>(entries: Seq<(K, ValueModel)>, key: K) -> bool {
    lookup(entries, key) is Some
}

/// `lookup` returns the value at the first index whose key matches.
pub proof fn lemma_lookup_at<K>(entries: Seq<(K, ValueModel)>, key: K, i: int)
    requires
        0 <= i < entries.len(),
        entries[i].0 == key,
        forall|j: int| 0 <= j < i ==> entries[j].0 != key,
    ensures
        lookup(entries, key) == Option::Some(entries[i].1),
    decreases entries.len(),
{
    if i == 0 {
    } else {
        let rest = entries.subrange(1, entries.len() as int);
        assert(rest[i - 1] == entries[i]);
        assert(forall|j: int| 0 <= j < i - 1 ==> rest[j] == entries[j + 1]);
        lemma_lookup_at(rest, key, i - 1);
    }
}

/// `lookup` misses exactly when no entry has the key.
pub proof fn lemma_lookup_none<K>(entries: Seq<(K, ValueModel)>, key: K)
    requires
        forall|j: int| 0 <= j < entries.len() ==> entries[j].0 != key,
    ensures
        lookup(entries, key) is None,
    decreases entries.len(),
{
    if entries.len() == 0 {
    } else {
        let rest = entries.subrange(1, entries.len() as int);
        assert(forall|j: int| 0 <= j < rest.len() ==> rest[j] == entries[j + 1]);
        lemma_lookup_none(rest, key);
    }
}

/// The entries of `re` whose keys do not occur in `le`, in order.
pub open spec fn novel_entries<K>(
    le: Seq<(K, ValueModel)>,
    re: Seq<(K, ValueModel)>,
) -> Seq<(K, ValueModel)>
    decreases re.len(),
{
    if re.len() == 0 {
        Seq::empty()
    } else {
        novel_entries(le, re.drop_last()) + if has_key(le, re.last().0) {
            Seq::empty()
        } else {
            seq![re.last()]
        }
    }
}

/// Whether two values are containers that may be merged recursively: two
/// maps, two structs with the same declared name, or two struct variants
/// with the same enum name, variant index and variant name.
pub open spec fn compatible_shapes(a: ValueModel, b: ValueModel) -> bool {
    ||| (a is Mapping && b is Mapping)
    ||| (a matches ValueModel::Struct(an, _af) && b matches ValueModel::Struct(bn, _bf) && an == bn)
    ||| (a matches ValueModel::StructVariant { name: an, variant_index: ai, variant: av, .. }
        && b matches ValueModel::StructVariant { name: bn, variant_index: bi, variant: bv, .. }
        && an == bn && ai == bi && av == bv)
}

/// Two-way right-biased merge: for compatible container shapes the keys are
/// merged recursively, with a key only in one operand carried through; any
/// other pair of shapes is replaced by `r` wholesale.
pub open spec fn spec_merge(l: ValueModel, r: ValueModel) -> ValueModel
    decreases l,
{
    match (l, r) {
        (ValueModel::Mapping(le), ValueModel::Mapping(re)) => ValueModel::Mapping(
            merge_entry_seqs(le, re),
        ),
        (ValueModel::Struct(ln, lf), ValueModel::Struct(rn, rf)) => if ln == rn {
            ValueModel::Struct(ln, merge_entry_seqs(lf, rf))
        } else {
            r
        },
        (
            ValueModel::StructVariant { name: ln, variant_index: li, variant: lv, fields: lf },
            ValueModel::StructVariant { name: rn, variant_index: ri, variant: rv, fields: rf },
        ) => if ln == rn && li == ri && lv == rv {
            ValueModel::StructVariant {
                name: ln,
                variant_index: li,
                variant: lv,
                fields: merge_entry_seqs(lf, rf),
            }
        } else {
            r
        },
        (_, _) => r,
    }
}

/// The entry list of a two-way merge: `le`'s keys keep their positions,
/// each merged with `re`'s value for the same key when there is one, and
/// `re`'s novel keys are appended in `re`'s order.
pub open spec fn merge_entry_seqs<K>(
    le: Seq<(K, ValueModel)>,
    re: Seq<(K, ValueModel)>,
) -> Seq<(K, ValueModel)>
    decreases le,
{
    Seq::new(le.len(), |i: int| if 0 <= i < le.len() {
        (le[i].0, match lookup(re, le[i].0) {
            Option::Some(rv) => spec_merge(le[i].1, rv),
            Option::None => le[i].1,
        })
    } else {
        le[i]
    }) + novel_entries(le, re)
}

/// Default-aware normalization: walk the candidate's keys; where the
/// default has a compatible substructure under the same key, recurse;
/// otherwise take the candidate's value as it stands.  The result has
/// exactly the candidate's keys, in the candidate's order.
pub open spec fn spec_merge_with_default(d: ValueModel, v: ValueModel) -> ValueModel
    decreases v,
{
    match (d, v) {
        (ValueModel::Mapping(de), ValueModel::Mapping(ve)) => ValueModel::Mapping(
            normalize_entry_seqs(de, ve),
        ),
        (ValueModel::Struct(dn, df), ValueModel::Struct(vn, vf)) => if dn == vn {
            ValueModel::Struct(vn, normalize_entry_seqs(df, vf))
        } else {
            v
        },
        (
            ValueModel::StructVariant { name: dn, variant_index: di, variant: dv, fields: df },
            ValueModel::StructVariant { name: vn, variant_index: vi, variant: vv, fields: vf },
        ) => if dn == vn && di == vi && dv == vv {
            ValueModel::StructVariant {
                name: vn,
                variant_index: vi,
                variant: vv,
                fields: normalize_entry_seqs(df, vf),
            }
        } else {
            v
        },
        (_, _) => v,
    }
}

/// The entry list of a normalization pass: the candidate's entries in
/// order, each recursed into where the default has the key.
pub open spec fn normalize_entry_seqs<K>(
    de: Seq<(K, ValueModel)>,
    ve: Seq<(K, ValueModel)>,
) -> Seq<(K, ValueModel)>
    decreases ve,
{
    Seq::new(ve.len(), |i: int| if 0 <= i < ve.len() {
        (ve[i].0, match lookup(de, ve[i].0) {
            Option::Some(dv) => spec_merge_with_default(dv, ve[i].1),
            Option::None => ve[i].1,
        })
    } else {
        ve[i]
    })
}

/// The per-key decision of the three-way merge, for a key both sides have:
/// with `dv` the default's value, `lv` the accumulated value and `rv` the
/// candidate's value,
/// - `lv == dv`: neither kept nor protected, adopt `rv`;
/// - `lv != dv` and `rv == dv`: the candidate left it unset, keep `lv`;
/// - both differ: recurse three-way on compatible containers, otherwise
///   fall back to the two-way merge (the candidate wins at leaves).
///
/// A `dv` of `None` (the default lacks the key) is an internal-consistency
/// violation; see [`merge3_ok`].  Here it decides as if the default were
/// the absence marker.
pub open spec fn spec_merge3(d: ValueModel, l: ValueModel, r: ValueModel) -> ValueModel
    decreases l,
{
    match (d, l, r) {
        (ValueModel::Mapping(de), ValueModel::Mapping(le), ValueModel::Mapping(re)) =>
            ValueModel::Mapping(merge3_entry_seqs(de, le, re)),
        (ValueModel::Struct(dn, df), ValueModel::Struct(ln, lf), ValueModel::Struct(rn, rf)) =>
            if ln == rn && dn == ln {
                ValueModel::Struct(ln, merge3_entry_seqs(df, lf, rf))
            } else {
                r
            },
        (
            ValueModel::StructVariant { name: dn, variant_index: di, variant: dvn, fields: df },
            ValueModel::StructVariant { name: ln, variant_index: li, variant: lvn, fields: lf },
            ValueModel::StructVariant { name: rn, variant_index: ri, variant: rvn, fields: rf },
        ) => if ln == rn && li == ri && lvn == rvn && dn == ln && di == li && dvn == lvn {
            ValueModel::StructVariant {
                name: ln,
                variant_index: li,
                variant: lvn,
                fields: merge3_entry_seqs(df, lf, rf),
            }
        } else {
            r
        },
        (_, _, _) => r,
    }
}

/// The entry list of a three-way merge: the accumulated entries keep their
/// positions, each decided against the default's and the candidate's value
/// for the same key; the candidate's novel keys are appended in its order.
pub open spec fn merge3_entry_seqs<K>(
    de: Seq<(K, ValueModel)>,
    le: Seq<(K, ValueModel)>,
    re: Seq<(K, ValueModel)>,
) -> Seq<(K, ValueModel)>
    decreases le,
{
    Seq::new(le.len(), |i: int| if 0 <= i < le.len() {
        (le[i].0, match lookup(re, le[i].0) {
            Option::None => le[i].1,
            Option::Some(rv) => {
                let dv = match lookup(de, le[i].0) {
                    Option::Some(w) => w,
                    Option::None => ValueModel::Unit,
                };
                if le[i].1 == dv {
                    rv
                } else if rv == dv {
                    le[i].1
                } else if compatible_shapes(le[i].1, rv) {
                    spec_merge3(dv, le[i].1, rv)
                } else {
                    spec_merge(le[i].1, rv)
                }
            },
        })
    } else {
        le[i]
    }) + novel_entries(le, re)
}

/// No internal-consistency violation anywhere in a three-way merge: at
/// every level where entries are walked, the default has every key the
/// candidate has.
pub open spec fn merge3_ok(d: ValueModel, l: ValueModel, r: ValueModel) -> bool
    decreases l,
{
    match (d, l, r) {
        (ValueModel::Mapping(de), ValueModel::Mapping(le), ValueModel::Mapping(re)) =>
            merge3_entry_seqs_ok(de, le, re),
        (ValueModel::Struct(dn, df), ValueModel::Struct(ln, lf), ValueModel::Struct(rn, rf)) =>
            if ln == rn && dn == ln {
                merge3_entry_seqs_ok(df, lf, rf)
            } else {
                true
            },
        (
            ValueModel::StructVariant { name: dn, variant_index: di, variant: dvn, fields: df },
            ValueModel::StructVariant { name: ln, variant_index: li, variant: lvn, fields: lf },
            ValueModel::StructVariant { name: rn, variant_index: ri, variant: rvn, fields: rf },
        ) => if ln == rn && li == ri && lvn == rvn && dn == ln && di == li && dvn == lvn {
            merge3_entry_seqs_ok(df, lf, rf)
        } else {
            true
        },
        (_, _, _) => true,
    }
}

/// Consistency of one entry walk: every candidate key occurs in the
/// default, and every three-way recursion below is consistent in turn.
pub open spec fn merge3_entry_seqs_ok<K>(
    de: Seq<(K, ValueModel)>,
    le: Seq<(K, ValueModel)>,
    re: Seq<(K, ValueModel)>,
) -> bool
    decreases le,
{
    &&& (forall|i: int| 0 <= i < re.len() ==> has_key(de, #[trigger] re[i].0))
    &&& (forall|i: int| 0 <= i < le.len() ==> match lookup(re, #[trigger] le[i].0) {
        Option::None => true,
        Option::Some(rv) => {
            let dv = match lookup(de, le[i].0) {
                Option::Some(w) => w,
                Option::None => ValueModel::Unit,
            };
            if le[i].1 == dv {
                true
            } else if rv == dv {
                true
            } else if compatible_shapes(le[i].1, rv) {
                merge3_ok(dv, le[i].1, rv)
            } else {
                true
            }
        },
    })
}

} // verus!

verus! {

/// The index of the first entry whose key equals `key`, if any, tied to
/// what [`lookup`] returns on the entry models.
fn find_entry(es: &Vec<(Value, Value)>, key: &Value) -> (r: Option<usize>)
    ensures
        match r {
            Option::Some(i) => {
                &&& 0 <= i < es@.len()
                &&& entry_models_of(es@)[i as int].0 == key@
                &&& lookup(entry_models_of(es@), key@)
                    == Option::Some(entry_models_of(es@)[i as int].1)
            },
            Option::None => lookup(entry_models_of(es@), key@) is None,
        },
{
    let ghost ems = entry_models_of(es@);
    let mut i: usize = 0;
    while i < es.len()
        invariant
            i <= es@.len(),
            ems == entry_models_of(es@),
            forall|j: int| 0 <= j < i ==> ems[j].0 != key@,
        decreases es@.len() - i,
    {
        proof {
            assert(ems[i as int] == (model_of(es@[i as int].0), model_of(es@[i as int].1)));
        }
        if value_eq(&es[i].0, key) {
            proof {
                lemma_lookup_at(ems, key@, i as int);
            }
            return Option::Some(i);
        }
        i += 1;
    }
    proof {
        lemma_lookup_none(ems, key@);
    }
    Option::None
}

/// The index of the first field whose name equals `name`, if any, tied to
/// what [`lookup`] returns on the field models.
fn find_field(fs: &Vec<(String, Value)>, name: &String) -> (r: Option<usize>)
    ensures
        match r {
            Option::Some(i) => {
                &&& 0 <= i < fs@.len()
                &&& field_models_of(fs@)[i as int].0 == name@
                &&& lookup(field_models_of(fs@), name@)
                    == Option::Some(field_models_of(fs@)[i as int].1)
            },
            Option::None => lookup(field_models_of(fs@), name@) is None,
        },
{
    let ghost fms = field_models_of(fs@);
    let mut i: usize = 0;
    while i < fs.len()
        invariant
            i <= fs@.len(),
            fms == field_models_of(fs@),
            forall|j: int| 0 <= j < i ==> fms[j].0 != name@,
        decreases fs@.len() - i,
    {
        proof {
            assert(fms[i as int] == (fs@[i as int].0@, model_of(fs@[i as int].1)));
        }
        if fs[i].0 == *name {
            proof {
                lemma_lookup_at(fms, name@, i as int);
            }
            return Option::Some(i);
        }
        i += 1;
    }
    proof {
        lemma_lookup_none(fms, name@);
    }
    Option::None
}

} // verus!

verus! {

/// Two-way right-biased merge of two values (see [`spec_merge`]): for two
/// maps, two structs with the same name, or two struct variants with the
/// same identity, each key is merged recursively and the right operand's
/// value wins where recursion cannot proceed; any other pair of shapes is
/// replaced by `r` wholesale.
pub fn merge(l: Value, r: Value) -> (out: Value)
    ensures
        out@ == spec_merge(l@, r@),
{
    merge_values(&l, &r)
}

/// Worker of [`merge`], by reference.
fn merge_values(l: &Value, r: &Value) -> (out: Value)
    ensures
        out@ == spec_merge(l@, r@),
    decreases l,
{
    match (l, r) {
        (Value::Mapping(le), Value::Mapping(re)) => {
            proof {
                assert(model_of(*l) == ValueModel::Mapping(entry_models_of(le@)));
                assert(model_of(*r) == ValueModel::Mapping(entry_models_of(re@)));
            }
            let es = merge_entries_vec(le, re);
            let ghost ems = entry_models_of(es@);
            let out = Value::Mapping(es);
            proof {
                assert(model_of(out) == ValueModel::Mapping(ems));
            }
            out
        },
        (Value::Struct(ln, lf), Value::Struct(rn, rf)) => {
            proof {
                assert(model_of(*l) == ValueModel::Struct(ln@, field_models_of(lf@)));
                assert(model_of(*r) == ValueModel::Struct(rn@, field_models_of(rf@)));
            }
            if *ln == *rn {
                let fs = merge_fields_vec(lf, rf);
                let ghost fms = field_models_of(fs@);
                let out = Value::Struct(ln.clone(), fs);
                proof {
                    assert(model_of(out) == ValueModel::Struct(ln@, fms));
                }
                out
            } else {
                deep_clone(r)
            }
        },
        (
            Value::StructVariant { name: ln, variant_index: li, variant: lv, fields: lf },
            Value::StructVariant { name: rn, variant_index: ri, variant: rv, fields: rf },
        ) => {
            proof {
                assert(model_of(*l) matches ValueModel::StructVariant { fields: mf, .. }
                    && mf == field_models_of(lf@));
                assert(model_of(*r) matches ValueModel::StructVariant { fields: mf, .. }
                    && mf == field_models_of(rf@));
            }
            if *ln == *rn && *li == *ri && *lv == *rv {
                let fs = merge_fields_vec(lf, rf);
                let ghost fms = field_models_of(fs@);
                let out = Value::StructVariant {
                    name: ln.clone(),
                    variant_index: *li,
                    variant: lv.clone(),
                    fields: fs,
                };
                proof {
                    assert(model_of(out) matches ValueModel::StructVariant { fields: mf, .. }
                        && mf == fms);
                }
                out
            } else {
                deep_clone(r)
            }
        },
        _ => deep_clone(r),
    }
}

/// The two-way merge of two map entry lists (see [`merge_entry_seqs`]).
fn merge_entries_vec(le: &Vec<(Value, Value)>, re: &Vec<(Value, Value)>) -> (out: Vec<(Value, Value)>)
    ensures
        entry_models_of(out@) == merge_entry_seqs(entry_models_of(le@), entry_models_of(re@)),
    decreases le,
{
    let ghost lems = entry_models_of(le@);
    let ghost rems = entry_models_of(re@);
    let ghost target = merge_entry_seqs(lems, rems);
    proof {
        assert(target.subrange(0, lems.len() as int) =~= Seq::new(lems.len(), |i: int|
            if 0 <= i < lems.len() {
                (lems[i].0, match lookup(rems, lems[i].0) {
                    Option::Some(rv) => spec_merge(lems[i].1, rv),
                    Option::None => lems[i].1,
                })
            } else {
                lems[i]
            }));
    }
    let mut out: Vec<(Value, Value)> = Vec::new();
    let mut i: usize = 0;
    while i < le.len()
        invariant
            i <= le@.len(),
            lems == entry_models_of(le@),
            rems == entry_models_of(re@),
            target == merge_entry_seqs(lems, rems),
            out@.len() == i,
            forall|j: int| 0 <= j < i ==> entry_models_of(out@)[j] == target[j],
        decreases le@.len() - i,
    {
        proof {
            assert(lems[i as int] == (model_of(le@[i as int].0), model_of(le@[i as int].1)));
        }
        let k = deep_clone(&le[i].0);
        let v = match find_entry(re, &le[i].0) {
            Option::Some(j) => merge_values(&le[i].1, &re[j].1),
            Option::None => deep_clone(&le[i].1),
        };
        out.push((k, v));
        i += 1;
    }
    let mut t: usize = 0;
    while t < re.len()
        invariant
            t <= re@.len(),
            lems == entry_models_of(le@),
            rems == entry_models_of(re@),
            target == merge_entry_seqs(lems, rems),
            entry_models_of(out@) =~= target.subrange(0, lems.len() as int)
                + novel_entries(lems, rems.subrange(0, t as int)),
        decreases re@.len() - t,
    {
        proof {
            assert(rems[t as int] == (model_of(re@[t as int].0), model_of(re@[t as int].1)));
            assert(rems.subrange(0, t as int + 1).drop_last() =~= rems.subrange(0, t as int));
            assert(rems.subrange(0, t as int + 1).last() == rems[t as int]);
        }
        match find_entry(le, &re[t].0) {
            Option::Some(_j) => {
                proof {
                    assert(has_key(lems, rems[t as int].0));
                    assert(novel_entries(lems, rems.subrange(0, t as int + 1))
                        =~= novel_entries(lems, rems.subrange(0, t as int)));
                }
            },
            Option::None => {
                let k = deep_clone(&re[t].0);
                let v = deep_clone(&re[t].1);
                let ghost prev = out@;
                out.push((k, v));
                proof {
                    assert(!has_key(lems, rems[t as int].0));
                    assert(novel_entries(lems, rems.subrange(0, t as int + 1))
                        =~= novel_entries(lems, rems.subrange(0, t as int)).push(rems[t as int]));
                    crate::value::lemma_entry_models_of_push(prev, (k, v));
                    assert(entry_models_of(out@)
                        =~= entry_models_of(prev).push(rems[t as int]));
                }
            },
        }
        proof {
            assert(entry_models_of(out@) =~= target.subrange(0, lems.len() as int)
                + novel_entries(lems, rems.subrange(0, t as int + 1)));
        }
        t += 1;
    }
    proof {
        assert(rems.subrange(0, rems.len() as int) =~= rems);
        assert(target =~= target.subrange(0, lems.len() as int) + novel_entries(lems, rems));
        assert(entry_models_of(out@) =~= target);
    }
    out
}

/// The two-way merge of two named field lists (see [`merge_entry_seqs`]).
fn merge_fields_vec(le: &Vec<(String, Value)>, re: &Vec<(String, Value)>) -> (out: Vec<(String, Value)>)
    ensures
        field_models_of(out@) == merge_entry_seqs(field_models_of(le@), field_models_of(re@)),
    decreases le,
{
    let ghost lems = field_models_of(le@);
    let ghost rems = field_models_of(re@);
    let ghost target = merge_entry_seqs(lems, rems);
    proof {
        assert(target.subrange(0, lems.len() as int) =~= Seq::new(lems.len(), |i: int|
            if 0 <= i < lems.len() {
                (lems[i].0, match lookup(rems, lems[i].0) {
                    Option::Some(rv) => spec_merge(lems[i].1, rv),
                    Option::None => lems[i].1,
                })
            } else {
                lems[i]
            }));
    }
    let mut out: Vec<(String, Value)> = Vec::new();
    let mut i: usize = 0;
    while i < le.len()
        invariant
            i <= le@.len(),
            lems == field_models_of(le@),
            rems == field_models_of(re@),
            target == merge_entry_seqs(lems, rems),
            out@.len() == i,
            forall|j: int| 0 <= j < i ==> field_models_of(out@)[j] == target[j],
        decreases le@.len() - i,
    {
        proof {
            assert(lems[i as int] == (le@[i as int].0@, model_of(le@[i as int].1)));
        }
        let k = le[i].0.clone();
        let v = match find_field(re, &le[i].0) {
            Option::Some(j) => merge_values(&le[i].1, &re[j].1),
            Option::None => deep_clone(&le[i].1),
        };
        out.push((k, v));
        i += 1;
    }
    let mut t: usize = 0;
    while t < re.len()
        invariant
            t <= re@.len(),
            lems == field_models_of(le@),
            rems == field_models_of(re@),
            target == merge_entry_seqs(lems, rems),
            field_models_of(out@) =~= target.subrange(0, lems.len() as int)
                + novel_entries(lems, rems.subrange(0, t as int)),
        decreases re@.len() - t,
    {
        proof {
            assert(rems[t as int] == (re@[t as int].0@, model_of(re@[t as int].1)));
            assert(rems.subrange(0, t as int + 1).drop_last() =~= rems.subrange(0, t as int));
            assert(rems.subrange(0, t as int + 1).last() == rems[t as int]);
        }
        match find_field(le, &re[t].0) {
            Option::Some(_j) => {
                proof {
                    assert(has_key(lems, rems[t as int].0));
                    assert(novel_entries(lems, rems.subrange(0, t as int + 1))
                        =~= novel_entries(lems, rems.subrange(0, t as int)));
                }
            },
            Option::None => {
                let k = re[t].0.clone();
                let v = deep_clone(&re[t].1);
                let ghost prev = out@;
                out.push((k, v));
                proof {
                    assert(!has_key(lems, rems[t as int].0));
                    assert(novel_entries(lems, rems.subrange(0, t as int + 1))
                        =~= novel_entries(lems, rems.subrange(0, t as int)).push(rems[t as int]));
                    crate::value::lemma_field_models_of_push(prev, (k, v));
                    assert(field_models_of(out@)
                        =~= field_models_of(prev).push(rems[t as int]));
                }
            },
        }
        proof {
            assert(field_models_of(out@) =~= target.subrange(0, lems.len() as int)
                + novel_entries(lems, rems.subrange(0, t as int + 1)));
        }
        t += 1;
    }
    proof {
        assert(rems.subrange(0, rems.len() as int) =~= rems);
        assert(target =~= target.subrange(0, lems.len() as int) + novel_entries(lems, rems));
        assert(field_models_of(out@) =~= target);
    }
    out
}

} // verus!

verus! {

/// Default-aware normalization of a raw source snapshot (see
/// [`spec_merge_with_default`]): walk the candidate's keys; where the
/// default has a compatible substructure under the same key, recurse;
/// otherwise take the candidate's value as it stands.
pub fn merge_with_default(default: Value, v: Value) -> (out: Value)
    ensures
        out@ == spec_merge_with_default(default@, v@),
{
    normalize_values(&default, &v)
}

/// Worker of [`merge_with_default`], by reference.
fn normalize_values(d: &Value, v: &Value) -> (out: Value)
    ensures
        out@ == spec_merge_with_default(d@, v@),
    decreases v,
{
    match (d, v) {
        (Value::Mapping(de), Value::Mapping(ve)) => {
            proof {
                assert(model_of(*d) == ValueModel::Mapping(entry_models_of(de@)));
                assert(model_of(*v) == ValueModel::Mapping(entry_models_of(ve@)));
            }
            let es = normalize_entries_vec(de, ve);
            let ghost ems = entry_models_of(es@);
            let out = Value::Mapping(es);
            proof {
                assert(model_of(out) == ValueModel::Mapping(ems));
            }
            out
        },
        (Value::Struct(dn, df), Value::Struct(vn, vf)) => {
            proof {
                assert(model_of(*d) == ValueModel::Struct(dn@, field_models_of(df@)));
                assert(model_of(*v) == ValueModel::Struct(vn@, field_models_of(vf@)));
            }
            if *dn == *vn {
                let fs = normalize_fields_vec(df, vf);
                let ghost fms = field_models_of(fs@);
                let out = Value::Struct(vn.clone(), fs);
                proof {
                    assert(model_of(out) == ValueModel::Struct(vn@, fms));
                }
                out
            } else {
                deep_clone(v)
            }
        },
        (
            Value::StructVariant { name: dn, variant_index: di, variant: dv, fields: df },
            Value::StructVariant { name: vn, variant_index: vi, variant: vv, fields: vf },
        ) => {
            proof {
                assert(model_of(*d) matches ValueModel::StructVariant { fields: mf, .. }
                    && mf == field_models_of(df@));
                assert(model_of(*v) matches ValueModel::StructVariant { fields: mf, .. }
                    && mf == field_models_of(vf@));
            }
            if *dn == *vn && *di == *vi && *dv == *vv {
                let fs = normalize_fields_vec(df, vf);
                let ghost fms = field_models_of(fs@);
                let out = Value::StructVariant {
                    name: vn.clone(),
                    variant_index: *vi,
                    variant: vv.clone(),
                    fields: fs,
                };
                proof {
                    assert(model_of(out) matches ValueModel::StructVariant { fields: mf, .. }
                        && mf == fms);
                }
                out
            } else {
                deep_clone(v)
            }
        },
        _ => deep_clone(v),
    }
}

/// Normalization of a map entry list (see [`normalize_entry_seqs`]).
fn normalize_entries_vec(de: &Vec<(Value, Value)>, ve: &Vec<(Value, Value)>) -> (out: Vec<(Value, Value)>)
    ensures
        entry_models_of(out@) == normalize_entry_seqs(entry_models_of(de@), entry_models_of(ve@)),
    decreases ve,
{
    let ghost dems = entry_models_of(de@);
    let ghost vems = entry_models_of(ve@);
    let ghost target = normalize_entry_seqs(dems, vems);
    let mut out: Vec<(Value, Value)> = Vec::new();
    let mut i: usize = 0;
    while i < ve.len()
        invariant
            i <= ve@.len(),
            dems == entry_models_of(de@),
            vems == entry_models_of(ve@),
            target == normalize_entry_seqs(dems, vems),
            out@.len() == i,
            forall|j: int| 0 <= j < i ==> entry_models_of(out@)[j] == target[j],
        decreases ve@.len() - i,
    {
        proof {
            assert(vems[i as int] == (model_of(ve@[i as int].0), model_of(ve@[i as int].1)));
        }
        let k = deep_clone(&ve[i].0);
        let v = match find_entry(de, &ve[i].0) {
            Option::Some(j) => normalize_values(&de[j].1, &ve[i].1),
            Option::None => deep_clone(&ve[i].1),
        };
        out.push((k, v));
        i += 1;
    }
    proof {
        assert(entry_models_of(out@) =~= target);
    }
    out
}

/// Normalization of a named field list (see [`normalize_entry_seqs`]).
fn normalize_fields_vec(de: &Vec<(String, Value)>, ve: &Vec<(String, Value)>) -> (out: Vec<(String, Value)>)
    ensures
        field_models_of(out@) == normalize_entry_seqs(field_models_of(de@), field_models_of(ve@)),
    decreases ve,
{
    let ghost dems = field_models_of(de@);
    let ghost vems = field_models_of(ve@);
    let ghost target = normalize_entry_seqs(dems, vems);
    let mut out: Vec<(String, Value)> = Vec::new();
    let mut i: usize = 0;
    while i < ve.len()
        invariant
            i <= ve@.len(),
            dems == field_models_of(de@),
            vems == field_models_of(ve@),
            target == normalize_entry_seqs(dems, vems),
            out@.len() == i,
            forall|j: int| 0 <= j < i ==> field_models_of(out@)[j] == target[j],
        decreases ve@.len() - i,
    {
        proof {
            assert(vems[i as int] == (ve@[i as int].0@, model_of(ve@[i as int].1)));
        }
        let k = ve[i].0.clone();
        let v = match find_field(de, &ve[i].0) {
            Option::Some(j) => normalize_values(&de[j].1, &ve[i].1),
            Option::None => deep_clone(&ve[i].1),
        };
        out.push((k, v));
        i += 1;
    }
    proof {
        assert(field_models_of(out@) =~= target);
    }
    out
}

} // verus!

verus! {

/// The error of the merge engine: the default snapshot lacks a key that a
/// candidate layer has, so no precedence decision is possible for it.
#[derive(Debug, Clone, Copy, PartialEq, Eq, Structural)]
pub enum MergeError {
    MissingDefault,
}

impl MergeError {
    /// A short description of the error.
    pub fn message(&self) -> (r: &'static str)
        ensures
            r@ == "the default value lacks a key that a collected layer has"@,
    {
        "the default value lacks a key that a collected layer has"
    }
}

/// Whether two values may be merged recursively (see [`compatible_shapes`]).
fn compatible_values(a: &Value, b: &Value) -> (r: bool)
    ensures
        r == compatible_shapes(a@, b@),
{
    match (a, b) {
        (Value::Mapping(_x), Value::Mapping(_y)) => true,
        (Value::Struct(an, _x), Value::Struct(bn, _y)) => *an == *bn,
        (
            Value::StructVariant { name: an, variant_index: ai, variant: av, .. },
            Value::StructVariant { name: bn, variant_index: bi, variant: bv, .. },
        ) => *an == *bn && *ai == *bi && *av == *bv,
        _ => false,
    }
}

/// Default-aware three-way merge (see [`spec_merge3`] and [`merge3_ok`]):
/// for every key the candidate `r` has, decide from the pair
/// `(l's value == default's value, r's value == default's value)` whether
/// the accumulated value is kept, the candidate's value is adopted, or the
/// two are merged recursively.  Fails exactly when, anywhere along the
/// recursion, the default snapshot lacks a key that the candidate has.
///
/// Equality to the default snapshot is a deliberate stand-in for "did this
/// layer actually set the field": a field a layer explicitly set to its
/// default value is indistinguishable from one the layer never set.
pub fn merge_defaultable(default: Value, l: Value, r: Value) -> (out: Result<Value, MergeError>)
    ensures
        merge3_ok(default@, l@, r@) ==> (out matches Result::Ok(v) && v@ == spec_merge3(
            default@,
            l@,
            r@,
        )),
        !merge3_ok(default@, l@, r@) ==> out == Result::<Value, MergeError>::Err(
            MergeError::MissingDefault,
        ),
{
    merge3_values(&default, &l, &r)
}

/// Worker of [`merge_defaultable`], by reference.
fn merge3_values(d: &Value, l: &Value, r: &Value) -> (out: Result<Value, MergeError>)
    ensures
        merge3_ok(d@, l@, r@) ==> (out matches Result::Ok(v) && v@ == spec_merge3(d@, l@, r@)),
        !merge3_ok(d@, l@, r@) ==> out == Result::<Value, MergeError>::Err(
            MergeError::MissingDefault,
        ),
    decreases l,
{
    match (d, l, r) {
        (Value::Mapping(de), Value::Mapping(le), Value::Mapping(re)) => {
            proof {
                assert(model_of(*d) == ValueModel::Mapping(entry_models_of(de@)));
                assert(model_of(*l) == ValueModel::Mapping(entry_models_of(le@)));
                assert(model_of(*r) == ValueModel::Mapping(entry_models_of(re@)));
            }
            match merge3_entries_vec(de, le, re) {
                Result::Ok(es) => {
                    let ghost ems = entry_models_of(es@);
                    let out = Value::Mapping(es);
                    proof {
                        assert(model_of(out) == ValueModel::Mapping(ems));
                    }
                    Result::Ok(out)
                },
                Result::Err(e) => Result::Err(e),
            }
        },
        (Value::Struct(dn, df), Value::Struct(ln, lf), Value::Struct(rn, rf)) => {
            proof {
                assert(model_of(*d) == ValueModel::Struct(dn@, field_models_of(df@)));
                assert(model_of(*l) == ValueModel::Struct(ln@, field_models_of(lf@)));
                assert(model_of(*r) == ValueModel::Struct(rn@, field_models_of(rf@)));
            }
            if *ln == *rn && *dn == *ln {
                match merge3_fields_vec(df, lf, rf) {
                    Result::Ok(fs) => {
                        let ghost fms = field_models_of(fs@);
                        let out = Value::Struct(ln.clone(), fs);
                        proof {
                            assert(model_of(out) == ValueModel::Struct(ln@, fms));
                        }
                        Result::Ok(out)
                    },
                    Result::Err(e) => Result::Err(e),
                }
            } else {
                Result::Ok(deep_clone(r))
            }
        },
        (
            Value::StructVariant { name: dn, variant_index: di, variant: dv, fields: df },
            Value::StructVariant { name: ln, variant_index: li, variant: lv, fields: lf },
            Value::StructVariant { name: rn, variant_index: ri, variant: rv, fields: rf },
        ) => {
            proof {
                assert(model_of(*d) matches ValueModel::StructVariant { fields: mf, .. }
                    && mf == field_models_of(df@));
                assert(model_of(*l) matches ValueModel::StructVariant { fields: mf, .. }
                    && mf == field_models_of(lf@));
                assert(model_of(*r) matches ValueModel::StructVariant { fields: mf, .. }
                    && mf == field_models_of(rf@));
            }
            if *ln == *rn && *li == *ri && *lv == *rv && *dn == *ln && *di == *li && *dv == *lv {
                match merge3_fields_vec(df, lf, rf) {
                    Result::Ok(fs) => {
                        let ghost fms = field_models_of(fs@);
                        let out = Value::StructVariant {
                            name: ln.clone(),
                            variant_index: *li,
                            variant: lv.clone(),
                            fields: fs,
                        };
                        proof {
                            assert(model_of(out) matches ValueModel::StructVariant { fields: mf, .. }
                                && mf == fms);
                        }
                        Result::Ok(out)
                    },
                    Result::Err(e) => Result::Err(e),
                }
            } else {
                Result::Ok(deep_clone(r))
            }
        },
        _ => Result::Ok(deep_clone(r)),
    }
}

} // verus!

verus! {

/// The three-way merge of map entry lists (see [`merge3_entry_seqs`] and
/// [`merge3_entry_seqs_ok`]).
fn merge3_entries_vec(
    de: &Vec<(Value, Value)>,
    le: &Vec<(Value, Value)>,
    re: &Vec<(Value, Value)>,
) -> (out: Result<Vec<(Value, Value)>, MergeError>)
    ensures
        merge3_entry_seqs_ok(entry_models_of(de@), entry_models_of(le@), entry_models_of(re@))
            ==> (out matches Result::Ok(es) && entry_models_of(es@) == merge3_entry_seqs(
            entry_models_of(de@),
            entry_models_of(le@),
            entry_models_of(re@),
        )),
        !merge3_entry_seqs_ok(entry_models_of(de@), entry_models_of(le@), entry_models_of(re@))
            ==> out == Result::<Vec<(Value, Value)>, MergeError>::Err(MergeError::MissingDefault),
    decreases le,
{
    let ghost dems = entry_models_of(de@);
    let ghost lems = entry_models_of(le@);
    let ghost rems = entry_models_of(re@);
    let ghost target = merge3_entry_seqs(dems, lems, rems);

    let mut t: usize = 0;
    while t < re.len()
        invariant
            t <= re@.len(),
            dems == entry_models_of(de@),
            rems == entry_models_of(re@),
            forall|j: int| 0 <= j < t ==> has_key(dems, #[trigger] rems[j].0),
        decreases re@.len() - t,
    {
        proof {
            assert(rems[t as int] == (model_of(re@[t as int].0), model_of(re@[t as int].1)));
        }
        match find_entry(de, &re[t].0) {
            Option::Some(_j) => {
            },
            Option::None => {
                proof {
                    assert(!has_key(dems, rems[t as int].0));
                    assert(!merge3_entry_seqs_ok(dems, lems, rems));
                }
                return Result::Err(MergeError::MissingDefault);
            },
        }
        t += 1;
    }
    proof {
        assert(forall|j: int| 0 <= j < rems.len() ==> has_key(dems, #[trigger] rems[j].0));
    }

    let mut out: Vec<(Value, Value)> = Vec::new();
    let mut i: usize = 0;
    while i < le.len()
        invariant
            i <= le@.len(),
            dems == entry_models_of(de@),
            lems == entry_models_of(le@),
            rems == entry_models_of(re@),
            target == merge3_entry_seqs(dems, lems, rems),
            forall|j: int| 0 <= j < rems.len() ==> has_key(dems, #[trigger] rems[j].0),
            out@.len() == i,
            forall|j: int| 0 <= j < i ==> entry_models_of(out@)[j] == target[j],
            forall|j: int| 0 <= j < i ==> match lookup(rems, #[trigger] lems[j].0) {
                Option::None => true,
                Option::Some(rv) => {
                    let dv = match lookup(dems, lems[j].0) {
                        Option::Some(w) => w,
                        Option::None => ValueModel::Unit,
                    };
                    if lems[j].1 == dv {
                        true
                    } else if rv == dv {
                        true
                    } else if compatible_shapes(lems[j].1, rv) {
                        merge3_ok(dv, lems[j].1, rv)
                    } else {
                        true
                    }
                },
            },
        decreases le@.len() - i,
    {
        proof {
            assert(lems[i as int] == (model_of(le@[i as int].0), model_of(le@[i as int].1)));
        }
        let k = deep_clone(&le[i].0);
        match find_entry(re, &le[i].0) {
            Option::None => {
                let v = deep_clone(&le[i].1);
                out.push((k, v));
            },
            Option::Some(j) => {
                proof {
                    assert(rems[j as int] == (model_of(re@[j as int].0), model_of(re@[j as int].1)));
                }
                match find_entry(de, &le[i].0) {
                    Option::None => {
                        proof {
                            assert(has_key(dems, rems[j as int].0));
                            assert(false);
                        }
                        return Result::Err(MergeError::MissingDefault);
                    },
                    Option::Some(dj) => {
                        proof {
                            assert(dems[dj as int] == (
                                model_of(de@[dj as int].0),
                                model_of(de@[dj as int].1),
                            ));
                        }
                        if value_eq(&le[i].1, &de[dj].1) {
                            let v = deep_clone(&re[j].1);
                            out.push((k, v));
                        } else if value_eq(&re[j].1, &de[dj].1) {
                            let v = deep_clone(&le[i].1);
                            out.push((k, v));
                        } else if compatible_values(&le[i].1, &re[j].1) {
                            match merge3_values(&de[dj].1, &le[i].1, &re[j].1) {
                                Result::Ok(v) => {
                                    out.push((k, v));
                                },
                                Result::Err(e) => {
                                    proof {
                                        assert(lookup(rems, lems[i as int].0)
                                            == Option::Some(rems[j as int].1));
                                        assert(lookup(dems, lems[i as int].0)
                                            == Option::Some(dems[dj as int].1));
                                        assert(lems[i as int].1 != dems[dj as int].1);
                                        assert(rems[j as int].1 != dems[dj as int].1);
                                        assert(compatible_shapes(lems[i as int].1, rems[j as int].1));
                                        assert(!merge3_ok(
                                            dems[dj as int].1,
                                            lems[i as int].1,
                                            rems[j as int].1,
                                        ));
                                        assert(!merge3_entry_seqs_ok(dems, lems, rems));
                                    }
                                    return Result::Err(e);
                                },
                            }
                        } else {
                            let v = merge_values(&le[i].1, &re[j].1);
                            out.push((k, v));
                        }
                    },
                }
            },
        }
        i += 1;
    }
    proof {
        assert(merge3_entry_seqs_ok(dems, lems, rems));
    }

    let mut t2: usize = 0;
    while t2 < re.len()
        invariant
            t2 <= re@.len(),
            dems == entry_models_of(de@),
            lems == entry_models_of(le@),
            rems == entry_models_of(re@),
            target == merge3_entry_seqs(dems, lems, rems),
            merge3_entry_seqs_ok(dems, lems, rems),
            entry_models_of(out@) =~= target.subrange(0, lems.len() as int)
                + novel_entries(lems, rems.subrange(0, t2 as int)),
        decreases re@.len() - t2,
    {
        proof {
            assert(rems[t2 as int] == (model_of(re@[t2 as int].0), model_of(re@[t2 as int].1)));
            assert(rems.subrange(0, t2 as int + 1).drop_last() =~= rems.subrange(0, t2 as int));
            assert(rems.subrange(0, t2 as int + 1).last() == rems[t2 as int]);
        }
        match find_entry(le, &re[t2].0) {
            Option::Some(_j) => {
                proof {
                    assert(has_key(lems, rems[t2 as int].0));
                    assert(novel_entries(lems, rems.subrange(0, t2 as int + 1))
                        =~= novel_entries(lems, rems.subrange(0, t2 as int)));
                }
            },
            Option::None => {
                let k = deep_clone(&re[t2].0);
                let v = deep_clone(&re[t2].1);
                let ghost prev = out@;
                out.push((k, v));
                proof {
                    assert(!has_key(lems, rems[t2 as int].0));
                    assert(novel_entries(lems, rems.subrange(0, t2 as int + 1))
                        =~= novel_entries(lems, rems.subrange(0, t2 as int)).push(rems[t2 as int]));
                    crate::value::lemma_entry_models_of_push(prev, (k, v));
                    assert(entry_models_of(out@)
                        =~= entry_models_of(prev).push(rems[t2 as int]));
                }
            },
        }
        proof {
            assert(entry_models_of(out@) =~= target.subrange(0, lems.len() as int)
                + novel_entries(lems, rems.subrange(0, t2 as int + 1)));
        }
        t2 += 1;
    }
    proof {
        assert(rems.subrange(0, rems.len() as int) =~= rems);
        assert(target =~= target.subrange(0, lems.len() as int) + novel_entries(lems, rems));
        assert(entry_models_of(out@) =~= target);
    }
    Result::Ok(out)
}

} // verus!

verus! {

/// The three-way merge of named field lists (see [`merge3_entry_seqs`] and
/// [`merge3_entry_seqs_ok`]).
fn merge3_fields_vec(
    de: &Vec<(String, Value)>,
    le: &Vec<(String, Value)>,
    re: &Vec<(String, Value)>,
) -> (out: Result<Vec<(String, Value)>, MergeError>)
    ensures
        merge3_entry_seqs_ok(field_models_of(de@), field_models_of(le@), field_models_of(re@))
            ==> (out matches Result::Ok(es) && field_models_of(es@) == merge3_entry_seqs(
            field_models_of(de@),
            field_models_of(le@),
            field_models_of(re@),
        )),
        !merge3_entry_seqs_ok(field_models_of(de@), field_models_of(le@), field_models_of(re@))
            ==> out == Result::<Vec<(String, Value)>, MergeError>::Err(MergeError::MissingDefault),
    decreases le,
{
    let ghost dems = field_models_of(de@);
    let ghost lems = field_models_of(le@);
    let ghost rems = field_models_of(re@);
    let ghost target = merge3_entry_seqs(dems, lems, rems);

    let mut t: usize = 0;
    while t < re.len()
        invariant
            t <= re@.len(),
            dems == field_models_of(de@),
            rems == field_models_of(re@),
            forall|j: int| 0 <= j < t ==> has_key(dems, #[trigger] rems[j].0),
        decreases re@.len() - t,
    {
        proof {
            assert(rems[t as int] == (re@[t as int].0@, model_of(re@[t as int].1)));
        }
        match find_field(de, &re[t].0) {
            Option::Some(_j) => {
            },
            Option::None => {
                proof {
                    assert(!has_key(dems, rems[t as int].0));
                    assert(!merge3_entry_seqs_ok(dems, lems, rems));
                }
                return Result::Err(MergeError::MissingDefault);
            },
        }
        t += 1;
    }
    proof {
        assert(forall|j: int| 0 <= j < rems.len() ==> has_key(dems, #[trigger] rems[j].0));
    }

    let mut out: Vec<(String, Value)> = Vec::new();
    let mut i: usize = 0;
    while i < le.len()
        invariant
            i <= le@.len(),
            dems == field_models_of(de@),
            lems == field_models_of(le@),
            rems == field_models_of(re@),
            target == merge3_entry_seqs(dems, lems, rems),
            forall|j: int| 0 <= j < rems.len() ==> has_key(dems, #[trigger] rems[j].0),
            out@.len() == i,
            forall|j: int| 0 <= j < i ==> field_models_of(out@)[j] == target[j],
            forall|j: int| 0 <= j < i ==> match lookup(rems, #[trigger] lems[j].0) {
                Option::None => true,
                Option::Some(rv) => {
                    let dv = match lookup(dems, lems[j].0) {
                        Option::Some(w) => w,
                        Option::None => ValueModel::Unit,
                    };
                    if lems[j].1 == dv {
                        true
                    } else if rv == dv {
                        true
                    } else if compatible_shapes(lems[j].1, rv) {
                        merge3_ok(dv, lems[j].1, rv)
                    } else {
                        true
                    }
                },
            },
        decreases le@.len() - i,
    {
        proof {
            assert(lems[i as int] == (le@[i as int].0@, model_of(le@[i as int].1)));
        }
        let k = le[i].0.clone();
        match find_field(re, &le[i].0) {
            Option::None => {
                let v = deep_clone(&le[i].1);
                out.push((k, v));
            },
            Option::Some(j) => {
                proof {
                    assert(rems[j as int] == (re@[j as int].0@, model_of(re@[j as int].1)));
                }
                match find_field(de, &le[i].0) {
                    Option::None => {
                        proof {
                            assert(has_key(dems, rems[j as int].0));
                            assert(false);
                        }
                        return Result::Err(MergeError::MissingDefault);
                    },
                    Option::Some(dj) => {
                        proof {
                            assert(dems[dj as int] == (
                                de@[dj as int].0@,
                                model_of(de@[dj as int].1),
                            ));
                        }
                        if value_eq(&le[i].1, &de[dj].1) {
                            let v = deep_clone(&re[j].1);
                            out.push((k, v));
                        } else if value_eq(&re[j].1, &de[dj].1) {
                            let v = deep_clone(&le[i].1);
                            out.push((k, v));
                        } else if compatible_values(&le[i].1, &re[j].1) {
                            match merge3_values(&de[dj].1, &le[i].1, &re[j].1) {
                                Result::Ok(v) => {
                                    out.push((k, v));
                                },
                                Result::Err(e) => {
                                    proof {
                                        assert(lookup(rems, lems[i as int].0)
                                            == Option::Some(rems[j as int].1));
                                        assert(lookup(dems, lems[i as int].0)
                                            == Option::Some(dems[dj as int].1));
                                        assert(lems[i as int].1 != dems[dj as int].1);
                                        assert(rems[j as int].1 != dems[dj as int].1);
                                        assert(compatible_shapes(lems[i as int].1, rems[j as int].1));
                                        assert(!merge3_ok(
                                            dems[dj as int].1,
                                            lems[i as int].1,
                                            rems[j as int].1,
                                        ));
                                        assert(!merge3_entry_seqs_ok(dems, lems, rems));
                                    }
                                    return Result::Err(e);
                                },
                            }
                        } else {
                            let v = merge_values(&le[i].1, &re[j].1);
                            out.push((k, v));
                        }
                    },
                }
            },
        }
        i += 1;
    }
    proof {
        assert(merge3_entry_seqs_ok(dems, lems, rems));
    }

    let mut t2: usize = 0;
    while t2 < re.len()
        invariant
            t2 <= re@.len(),
            dems == field_models_of(de@),
            lems == field_models_of(le@),
            rems == field_models_of(re@),
            target == merge3_entry_seqs(dems, lems, rems),
            merge3_entry_seqs_ok(dems, lems, rems),
            field_models_of(out@) =~= target.subrange(0, lems.len() as int)
                + novel_entries(lems, rems.subrange(0, t2 as int)),
        decreases re@.len() - t2,
    {
        proof {
            assert(rems[t2 as int] == (re@[t2 as int].0@, model_of(re@[t2 as int].1)));
            assert(rems.subrange(0, t2 as int + 1).drop_last() =~= rems.subrange(0, t2 as int));
            assert(rems.subrange(0, t2 as int + 1).last() == rems[t2 as int]);
        }
        match find_field(le, &re[t2].0) {
            Option::Some(_j) => {
                proof {
                    assert(has_key(lems, rems[t2 as int].0));
                    assert(novel_entries(lems, rems.subrange(0, t2 as int + 1))
                        =~= novel_entries(lems, rems.subrange(0, t2 as int)));
                }
            },
            Option::None => {
                let k = re[t2].0.clone();
                let v = deep_clone(&re[t2].1);
                let ghost prev = out@;
                out.push((k, v));
                proof {
                    assert(!has_key(lems, rems[t2 as int].0));
                    assert(novel_entries(lems, rems.subrange(0, t2 as int + 1))
                        =~= novel_entries(lems, rems.subrange(0, t2 as int)).push(rems[t2 as int]));
                    crate::value::lemma_field_models_of_push(prev, (k, v));
                    assert(field_models_of(out@)
                        =~= field_models_of(prev).push(rems[t2 as int]));
                }
            },
        }
        proof {
            assert(field_models_of(out@) =~= target.subrange(0, lems.len() as int)
                + novel_entries(lems, rems.subrange(0, t2 as int + 1)));
        }
        t2 += 1;
    }
    proof {
        assert(rems.subrange(0, rems.len() as int) =~= rems);
        assert(target =~= target.subrange(0, lems.len() as int) + novel_entries(lems, rems));
        assert(field_models_of(out@) =~= target);
    }
    Result::Ok(out)
}

} // verus!

verus! {

/// A key that some entry carries is found.
pub proof fn lemma_lookup_finds<K>(entries: Seq<(K, ValueModel)>, key: K, i: int)
    requires
        0 <= i < entries.len(),
        entries[i].0 == key,
    ensures
        has_key(entries, key),
    decreases entries.len(),
{
    if entries[0].0 == key {
    } else {
        let rest = entries.subrange(1, entries.len() as int);
        assert(rest[i - 1] == entries[i]);
        lemma_lookup_finds(rest, key, i - 1);
    }
}

/// When every key of `re` occurs in `le`, nothing of `re` is novel.
pub proof fn lemma_novel_entries_empty<K>(le: Seq<(K, ValueModel)>, re: Seq<(K, ValueModel)>)
    requires
        forall|i: int| 0 <= i < re.len() ==> has_key(le, #[trigger] re[i].0),
    ensures
        novel_entries(le, re) == Seq::<(K, ValueModel)>::empty(),
    decreases re.len(),
{
    if re.len() == 0 {
    } else {
        assert(forall|i: int| 0 <= i < re.drop_last().len()
            ==> #[trigger] re.drop_last()[i] == re[i]);
        lemma_novel_entries_empty(le, re.drop_last());
        assert(re.last() == re[re.len() - 1]);
        assert(has_key(le, re.last().0));
        assert(novel_entries(le, re) =~= Seq::<(K, ValueModel)>::empty());
    }
}

/// Merging a default-equal candidate into an accumulated entry list is a
/// no-op, provided the accumulated list has every key the default has.
pub proof fn lemma_merge3_entries_default_noop<K>(de: Seq<(K, ValueModel)>, le: Seq<(K, ValueModel)>)
    requires
        forall|i: int| 0 <= i < de.len() ==> has_key(le, #[trigger] de[i].0),
    ensures
        merge3_entry_seqs(de, le, de) == le,
        merge3_entry_seqs_ok(de, le, de),
{
    lemma_novel_entries_empty(le, de);
    assert forall|j: int| 0 <= j < le.len() implies merge3_entry_seqs(de, le, de)[j] == le[j] by {
        match lookup(de, le[j].0) {
            Option::Some(_rv) => {
            },
            Option::None => {
            },
        }
    }
    assert(merge3_entry_seqs(de, le, de) =~= le);
    assert forall|i: int| 0 <= i < de.len() implies has_key(de, #[trigger] de[i].0) by {
        lemma_lookup_finds(de, de[i].0, i);
    }
    assert(merge3_entry_seqs_ok(de, le, de));
}

/// Whether the accumulated value has, under its own compatible shape, every
/// key that the default snapshot declares.
pub open spec fn default_keys_covered(d: ValueModel, a: ValueModel) -> bool {
    match (d, a) {
        (ValueModel::Mapping(de), ValueModel::Mapping(ae)) => forall|i: int|
            0 <= i < de.len() ==> has_key(ae, #[trigger] de[i].0),
        (ValueModel::Struct(_dn, df), ValueModel::Struct(_an, af)) => forall|i: int|
            0 <= i < df.len() ==> has_key(af, #[trigger] df[i].0),
        (
            ValueModel::StructVariant { fields: df, .. },
            ValueModel::StructVariant { fields: af, .. },
        ) => forall|i: int| 0 <= i < df.len() ==> has_key(af, #[trigger] df[i].0),
        (_, _) => true,
    }
}

/// Idempotence of defaults: merging a candidate equal to the default
/// snapshot into any accumulated state is a no-op, for compatibly shaped
/// operands whose accumulated state has every key the default declares.
/// (With a key only in the default, the merge would add that key; with
/// incompatibly shaped operands, the candidate, that is the default, would
/// replace the accumulated state wholesale.)
pub proof fn lemma_merge3_default_is_noop(d: ValueModel, a: ValueModel)
    requires
        compatible_shapes(a, d),
        default_keys_covered(d, a),
    ensures
        merge3_ok(d, a, d),
        spec_merge3(d, a, d) == a,
{
    match (d, a) {
        (ValueModel::Mapping(de), ValueModel::Mapping(ae)) => {
            lemma_merge3_entries_default_noop(de, ae);
        },
        (ValueModel::Struct(_dn, df), ValueModel::Struct(_an, af)) => {
            lemma_merge3_entries_default_noop(df, af);
        },
        (
            ValueModel::StructVariant { fields: df, .. },
            ValueModel::StructVariant { fields: af, .. },
        ) => {
            lemma_merge3_entries_default_noop(df, af);
        },
        (_, _) => {
        },
    }
}

/// Right-bias of the two-way merge: whenever the operands are not
/// compatible containers (two scalars, mismatched shapes, or mismatched
/// struct identity), the right operand takes the slot verbatim.
pub proof fn lemma_merge_right_bias(l: ValueModel, r: ValueModel)
    requires
        !compatible_shapes(l, r),
    ensures
        spec_merge(l, r) == r,
{
}

/// Struct-name guard: two struct-shaped values with different declared
/// names are never merged field by field; the right operand replaces the
/// left wholesale, in the two-way and in the three-way merge alike.
pub proof fn lemma_struct_name_guard(d: ValueModel, l: ValueModel, r: ValueModel)
    requires
        l is Struct,
        r is Struct,
        l->Struct_0 != r->Struct_0,
    ensures
        spec_merge(l, r) == r,
        spec_merge3(d, l, r) == r,
        merge3_ok(d, l, r),
{
}

} // verus!

verus! {

/// The value that `lookup` finds in a list of well-formed values is
/// well-formed.
proof fn lemma_lookup_wf<K>(entries: Seq<(K, ValueModel)>, key: K)
    requires
        forall|i: int| 0 <= i < entries.len() ==> wf(#[trigger] entries[i].1),
    ensures
        lookup(entries, key) matches Option::Some(v) ==> wf(v),
    decreases entries.len(),
{
    if entries.len() == 0 {
    } else if entries[0].0 == key {
    } else {
        let rest = entries.subrange(1, entries.len() as int);
        assert(forall|i: int| 0 <= i < rest.len() ==> rest[i] == entries[i + 1]);
        lemma_lookup_wf(rest, key);
    }
}

/// Every novel entry is one of the right operand's entries, under a key the
/// left operand does not have.
proof fn lemma_novel_entries_facts<K>(le: Seq<(K, ValueModel)>, re: Seq<(K, ValueModel)>)
    ensures
        forall|j: int| 0 <= j < novel_entries(le, re).len()
            ==> !has_key(le, #[trigger] novel_entries(le, re)[j].0),
        forall|j: int| 0 <= j < novel_entries(le, re).len()
            ==> exists|i: int| 0 <= i < re.len() && #[trigger] novel_entries(le, re)[j] == re[i],
    decreases re.len(),
{
    if re.len() == 0 {
    } else {
        lemma_novel_entries_facts(le, re.drop_last());
        let prev = novel_entries(le, re.drop_last());
        let cur = novel_entries(le, re);
        assert forall|j: int| 0 <= j < cur.len() implies !has_key(le, #[trigger] cur[j].0)
            && exists|i: int| 0 <= i < re.len() && cur[j] == re[i] by {
            if j < prev.len() {
                assert(cur[j] == prev[j]);
                let i = choose|i: int| 0 <= i < re.drop_last().len() && prev[j] == re.drop_last()[i];
                assert(cur[j] == re[i]);
            } else {
                assert(cur[j] == re.last());
                assert(cur[j] == re[re.len() - 1]);
            }
        }
    }
}

/// Novel entries of a uniquely keyed right operand are uniquely keyed.
proof fn lemma_novel_entries_unique<K>(le: Seq<(K, ValueModel)>, re: Seq<(K, ValueModel)>)
    requires
        keys_unique(re),
    ensures
        keys_unique(novel_entries(le, re)),
    decreases re.len(),
{
    if re.len() == 0 {
    } else {
        assert(keys_unique(re.drop_last()));
        lemma_novel_entries_unique(le, re.drop_last());
        let prev = novel_entries(le, re.drop_last());
        let cur = novel_entries(le, re);
        if !has_key(le, re.last().0) {
            lemma_novel_entries_facts(le, re.drop_last());
            assert forall|j: int| 0 <= j < prev.len() implies prev[j].0 != re.last().0 by {
                let i = choose|i: int| 0 <= i < re.drop_last().len() && prev[j] == re.drop_last()[i];
                assert(prev[j] == re[i]);
                assert(re[i].0 != re[re.len() - 1].0);
            }
            assert(keys_unique(cur));
        } else {
            assert(cur =~= prev);
        }
    }
}

} // verus!

verus! {

/// Normalization preserves well-formedness: with a well-formed candidate,
/// the normalized value is well-formed, whatever the default is.
pub proof fn lemma_merge_with_default_preserves_wf(d: ValueModel, v: ValueModel)
    requires
        wf(v),
    ensures
        wf(spec_merge_with_default(d, v)),
    decreases v,
{
    match (d, v) {
        (ValueModel::Mapping(de), ValueModel::Mapping(ve)) => {
            assert forall|i: int| 0 <= i < ve.len() implies wf(#[trigger] ve[i].1) by {
                assert(wf(ve[i].0) && wf(ve[i].1));
            }
            lemma_normalize_entry_seqs_wf(de, ve);
            assert forall|j: int| 0 <= j < ve.len() implies wf(
                #[trigger] normalize_entry_seqs(de, ve)[j].0,
            ) by {
                assert(normalize_entry_seqs(de, ve)[j].0 == ve[j].0);
            }
        },
        (ValueModel::Struct(dn, df), ValueModel::Struct(vn, vf)) => {
            if dn == vn {
                lemma_normalize_entry_seqs_wf(df, vf);
            }
        },
        (
            ValueModel::StructVariant { name: dn, variant_index: di, variant: dv, fields: df },
            ValueModel::StructVariant { name: vn, variant_index: vi, variant: vv, fields: vf },
        ) => {
            if dn == vn && di == vi && dv == vv {
                lemma_normalize_entry_seqs_wf(df, vf);
            }
        },
        (_, _) => {
        },
    }
}

/// The entry walk of normalization preserves key uniqueness and value
/// well-formedness, and keeps exactly the candidate's keys.
proof fn lemma_normalize_entry_seqs_wf<K>(de: Seq<(K, ValueModel)>, ve: Seq<(K, ValueModel)>)
    requires
        keys_unique(ve),
        forall|i: int| 0 <= i < ve.len() ==> wf(#[trigger] ve[i].1),
    ensures
        normalize_entry_seqs(de, ve).len() == ve.len(),
        forall|j: int| 0 <= j < ve.len()
            ==> #[trigger] normalize_entry_seqs(de, ve)[j].0 == ve[j].0,
        keys_unique(normalize_entry_seqs(de, ve)),
        forall|j: int| 0 <= j < ve.len() ==> wf(#[trigger] normalize_entry_seqs(de, ve)[j].1),
    decreases ve,
{
    let out = normalize_entry_seqs(de, ve);
    assert forall|j: int| 0 <= j < ve.len() implies wf(#[trigger] out[j].1) by {
        match lookup(de, ve[j].0) {
            Option::Some(dv) => {
                lemma_merge_with_default_preserves_wf(dv, ve[j].1);
            },
            Option::None => {
            },
        }
    }
}

} // verus!

verus! {

/// Whether `k` is a key of one of the two entry lists.
spec fn key_of_either<K>(k: K, le: Seq<(K, ValueModel)>, re: Seq<(K, ValueModel)>) -> bool {
    (exists|i: int| 0 <= i < le.len() && k == #[trigger] le[i].0) || (exists|i: int|
        0 <= i < re.len() && k == #[trigger] re[i].0)
}

/// The two-way merge preserves well-formedness.
pub proof fn lemma_merge_preserves_wf(l: ValueModel, r: ValueModel)
    requires
        wf(l),
        wf(r),
    ensures
        wf(spec_merge(l, r)),
    decreases l,
{
    match (l, r) {
        (ValueModel::Mapping(le), ValueModel::Mapping(re)) => {
            assert forall|i: int| 0 <= i < le.len() implies wf(#[trigger] le[i].1) by {
                assert(wf(le[i].0) && wf(le[i].1));
            }
            assert forall|i: int| 0 <= i < re.len() implies wf(#[trigger] re[i].1) by {
                assert(wf(re[i].0) && wf(re[i].1));
            }
            lemma_merge_entry_seqs_wf(le, re);
            let out = merge_entry_seqs(le, re);
            assert forall|j: int| 0 <= j < out.len() implies wf(#[trigger] out[j].0) by {
                assert(key_of_either(out[j].0, le, re));
                if exists|i: int| 0 <= i < le.len() && out[j].0 == #[trigger] le[i].0 {
                    let i = choose|i: int| 0 <= i < le.len() && out[j].0 == #[trigger] le[i].0;
                    assert(wf(le[i].0) && wf(le[i].1));
                } else {
                    let i = choose|i: int| 0 <= i < re.len() && out[j].0 == #[trigger] re[i].0;
                    assert(wf(re[i].0) && wf(re[i].1));
                }
            }
        },
        (ValueModel::Struct(ln, lf), ValueModel::Struct(rn, rf)) => {
            if ln == rn {
                lemma_merge_entry_seqs_wf(lf, rf);
            }
        },
        (
            ValueModel::StructVariant { name: ln, variant_index: li, variant: lv, fields: lf },
            ValueModel::StructVariant { name: rn, variant_index: ri, variant: rv, fields: rf },
        ) => {
            if ln == rn && li == ri && lv == rv {
                lemma_merge_entry_seqs_wf(lf, rf);
            }
        },
        (_, _) => {
        },
    }
}

/// The entry walk of the two-way merge keeps keys unique, keeps every
/// merged value well-formed, and introduces no key that neither operand
/// has.
proof fn lemma_merge_entry_seqs_wf<K>(le: Seq<(K, ValueModel)>, re: Seq<(K, ValueModel)>)
    requires
        keys_unique(le),
        keys_unique(re),
        forall|i: int| 0 <= i < le.len() ==> wf(#[trigger] le[i].1),
        forall|i: int| 0 <= i < re.len() ==> wf(#[trigger] re[i].1),
    ensures
        keys_unique(merge_entry_seqs(le, re)),
        forall|j: int| 0 <= j < merge_entry_seqs(le, re).len()
            ==> wf(#[trigger] merge_entry_seqs(le, re)[j].1),
        forall|j: int| 0 <= j < merge_entry_seqs(le, re).len()
            ==> key_of_either(#[trigger] merge_entry_seqs(le, re)[j].0, le, re),
    decreases le,
{
    let out = merge_entry_seqs(le, re);
    let novel = novel_entries(le, re);
    lemma_novel_entries_facts(le, re);
    lemma_novel_entries_unique(le, re);
    assert(out.len() == le.len() + novel.len());

    // Values are well-formed, and every key comes from an operand.
    assert forall|j: int| 0 <= j < out.len() implies wf(#[trigger] out[j].1) by {
        if j < le.len() {
            match lookup(re, le[j].0) {
                Option::Some(rv) => {
                    lemma_lookup_wf(re, le[j].0);
                    lemma_merge_preserves_wf(le[j].1, rv);
                    assert(out[j].1 == spec_merge(le[j].1, rv));
                },
                Option::None => {
                    assert(out[j].1 == le[j].1);
                },
            }
        } else {
            let t = j - le.len();
            assert(out[j] == novel[t]);
            let i = choose|i: int| 0 <= i < re.len() && novel[t] == re[i];
            assert(out[j].1 == re[i].1);
        }
    }
    assert forall|j: int| 0 <= j < out.len() implies key_of_either(
        #[trigger] out[j].0,
        le,
        re,
    ) by {
        if j < le.len() {
            assert(out[j].0 == le[j].0);
        } else {
            let t = j - le.len();
            assert(out[j] == novel[t]);
            let i = choose|i: int| 0 <= i < re.len() && novel[t] == re[i];
            assert(out[j].0 == re[i].0);
        }
    }

    // Keys are pairwise distinct: the left part keeps the left operand's
    // keys, the novel part is uniquely keyed, and no novel key occurs in
    // the left operand.
    assert forall|a: int, b: int| 0 <= a < b < out.len() implies out[a].0 != out[b].0 by {
        if b < le.len() {
            assert(out[a].0 == le[a].0 && out[b].0 == le[b].0);
        } else if a < le.len() {
            assert(out[a].0 == le[a].0);
            assert(out[b] == novel[b - le.len()]);
            assert(!has_key(le, novel[b - le.len()].0));
            if out[a].0 == out[b].0 {
                lemma_lookup_finds(le, le[a].0, a);
            }
        } else {
            assert(out[a] == novel[a - le.len()] && out[b] == novel[b - le.len()]);
        }
    }
}

} // verus!

verus! {

/// The three-way merge preserves well-formedness: with a well-formed
/// accumulated value and candidate, the merged value is well-formed,
/// whatever the default is.
pub proof fn lemma_merge3_preserves_wf(d: ValueModel, l: ValueModel, r: ValueModel)
    requires
        wf(l),
        wf(r),
    ensures
        wf(spec_merge3(d, l, r)),
    decreases l,
{
    match (d, l, r) {
        (ValueModel::Mapping(de), ValueModel::Mapping(le), ValueModel::Mapping(re)) => {
            assert forall|i: int| 0 <= i < le.len() implies wf(#[trigger] le[i].1) by {
                assert(wf(le[i].0) && wf(le[i].1));
            }
            assert forall|i: int| 0 <= i < re.len() implies wf(#[trigger] re[i].1) by {
                assert(wf(re[i].0) && wf(re[i].1));
            }
            lemma_merge3_entry_seqs_wf(de, le, re);
            let out = merge3_entry_seqs(de, le, re);
            assert forall|j: int| 0 <= j < out.len() implies wf(#[trigger] out[j].0) by {
                assert(key_of_either(out[j].0, le, re));
                if exists|i: int| 0 <= i < le.len() && out[j].0 == #[trigger] le[i].0 {
                    let i = choose|i: int| 0 <= i < le.len() && out[j].0 == #[trigger] le[i].0;
                    assert(wf(le[i].0) && wf(le[i].1));
                } else {
                    let i = choose|i: int| 0 <= i < re.len() && out[j].0 == #[trigger] re[i].0;
                    assert(wf(re[i].0) && wf(re[i].1));
                }
            }
        },
        (ValueModel::Struct(dn, df), ValueModel::Struct(ln, lf), ValueModel::Struct(rn, rf)) => {
            if ln == rn && dn == ln {
                lemma_merge3_entry_seqs_wf(df, lf, rf);
            }
        },
        (
            ValueModel::StructVariant { name: dn, variant_index: di, variant: dvn, fields: df },
            ValueModel::StructVariant { name: ln, variant_index: li, variant: lvn, fields: lf },
            ValueModel::StructVariant { name: rn, variant_index: ri, variant: rvn, fields: rf },
        ) => {
            if ln == rn && li == ri && lvn == rvn && dn == ln && di == li && dvn == lvn {
                lemma_merge3_entry_seqs_wf(df, lf, rf);
            }
        },
        (_, _, _) => {
        },
    }
}

/// The entry walk of the three-way merge keeps keys unique, keeps every
/// decided value well-formed, and introduces no key that neither the
/// accumulated value nor the candidate has.
proof fn lemma_merge3_entry_seqs_wf<K>(
    de: Seq<(K, ValueModel)>,
    le: Seq<(K, ValueModel)>,
    re: Seq<(K, ValueModel)>,
)
    requires
        keys_unique(le),
        keys_unique(re),
        forall|i: int| 0 <= i < le.len() ==> wf(#[trigger] le[i].1),
        forall|i: int| 0 <= i < re.len() ==> wf(#[trigger] re[i].1),
    ensures
        keys_unique(merge3_entry_seqs(de, le, re)),
        forall|j: int| 0 <= j < merge3_entry_seqs(de, le, re).len()
            ==> wf(#[trigger] merge3_entry_seqs(de, le, re)[j].1),
        forall|j: int| 0 <= j < merge3_entry_seqs(de, le, re).len()
            ==> key_of_either(#[trigger] merge3_entry_seqs(de, le, re)[j].0, le, re),
    decreases le,
{
    let out = merge3_entry_seqs(de, le, re);
    let novel = novel_entries(le, re);
    lemma_novel_entries_facts(le, re);
    lemma_novel_entries_unique(le, re);
    assert(out.len() == le.len() + novel.len());

    assert forall|j: int| 0 <= j < out.len() implies wf(#[trigger] out[j].1) by {
        if j < le.len() {
            match lookup(re, le[j].0) {
                Option::Some(rv) => {
                    lemma_lookup_wf(re, le[j].0);
                    let dv = match lookup(de, le[j].0) {
                        Option::Some(w) => w,
                        Option::None => ValueModel::Unit,
                    };
                    if le[j].1 == dv {
                        assert(out[j].1 == rv);
                    } else if rv == dv {
                        assert(out[j].1 == le[j].1);
                    } else if compatible_shapes(le[j].1, rv) {
                        lemma_merge3_preserves_wf(dv, le[j].1, rv);
                        assert(out[j].1 == spec_merge3(dv, le[j].1, rv));
                    } else {
                        lemma_merge_preserves_wf(le[j].1, rv);
                        assert(out[j].1 == spec_merge(le[j].1, rv));
                    }
                },
                Option::None => {
                    assert(out[j].1 == le[j].1);
                },
            }
        } else {
            let t = j - le.len();
            assert(out[j] == novel[t]);
            let i = choose|i: int| 0 <= i < re.len() && novel[t] == re[i];
            assert(out[j].1 == re[i].1);
        }
    }
    assert forall|j: int| 0 <= j < out.len() implies key_of_either(
        #[trigger] out[j].0,
        le,
        re,
    ) by {
        if j < le.len() {
            assert(out[j].0 == le[j].0);
        } else {
            let t = j - le.len();
            assert(out[j] == novel[t]);
            let i = choose|i: int| 0 <= i < re.len() && novel[t] == re[i];
            assert(out[j].0 == re[i].0);
        }
    }
    assert forall|a: int, b: int| 0 <= a < b < out.len() implies out[a].0 != out[b].0 by {
        if b < le.len() {
            assert(out[a].0 == le[a].0 && out[b].0 == le[b].0);
        } else if a < le.len() {
            assert(out[a].0 == le[a].0);
            assert(out[b] == novel[b - le.len()]);
            assert(!has_key(le, novel[b - le.len()].0));
            if out[a].0 == out[b].0 {
                lemma_lookup_finds(le, le[a].0, a);
            }
        } else {
            assert(out[a] == novel[a - le.len()] && out[b] == novel[b - le.len()]);
        }
    }
}

} // verus!

verus! {

/// The per-key precedence of the three-way merge, read off for one
/// accumulated entry: the key keeps its place, a key the candidate does not
/// touch keeps the accumulated value, a candidate value equal to the
/// default never overwrites an accumulated value that differs from the
/// default, an accumulated value still at the default adopts the
/// candidate's value, and where both differ and no recursion is possible
/// the later layer wins.
pub proof fn lemma_per_key_precedence<K>(
    de: Seq<(K, ValueModel)>,
    le: Seq<(K, ValueModel)>,
    re: Seq<(K, ValueModel)>,
    j: int,
)
    requires
        0 <= j < le.len(),
    ensures
        merge3_entry_seqs(de, le, re)[j].0 == le[j].0,
        lookup(re, le[j].0) is None ==> merge3_entry_seqs(de, le, re)[j].1 == le[j].1,
        match (lookup(de, le[j].0), lookup(re, le[j].0)) {
            (Option::Some(dv), Option::Some(rv)) => {
                &&& (le[j].1 != dv && rv == dv ==> merge3_entry_seqs(de, le, re)[j].1 == le[j].1)
                &&& (le[j].1 == dv ==> merge3_entry_seqs(de, le, re)[j].1 == rv)
                &&& (le[j].1 != dv && rv != dv && !compatible_shapes(le[j].1, rv)
                    ==> merge3_entry_seqs(de, le, re)[j].1 == rv)
            },
            _ => true,
        },
{
}

} // verus!

//! The layer orchestrator: threads a default snapshot and an accumulated
//! value through an ordered list of source layers, one three-way merge per
//! collected layer, and selects the result.
//!
//! Collecting a source and projecting an accumulated value into the caller's
//! type are the collaborators' work: a source's outcome is handed in as a
//! [`SourceOutcome`], and the projection attempts come back as a list of
//! candidates for [`finish_build`].  A source that failed to collect
//! contributes nothing and the build goes on; only the merge engine's
//! internal-consistency failure aborts a build.

use vstd::prelude::*;

use crate::value::Value;
use crate::value::ValueModel;
use crate::value::models_of;
use crate::value::deep_clone;
use crate::merge::MergeError;
use crate::merge::merge_with_default;
use crate::merge::merge_defaultable;
use crate::merge::spec_merge_with_default;
use crate::merge::spec_merge3;
use crate::merge::merge3_ok;
use crate::merge::lemma_merge_with_default_preserves_wf;
use crate::merge::lemma_merge3_preserves_wf;
use crate::value::wf;

verus! {

/// What one source layer produced: a complete value snapshot, or nothing
/// because collection failed.
pub enum SourceOutcome {
    Collected(Value),
    Failed,
}

/// The error of a whole build: every layer failed to produce a usable
/// result, or the merge engine found an internal inconsistency.
#[derive(Debug, Clone, Copy, PartialEq, Eq, Structural)]
pub enum BuildError {
    NoValidValue,
}

impl BuildError {
    /// A short description of the error.
    pub fn message(&self) -> (r: &'static str)
        ensures
            r@ == "no valid value to deserialize"@,
    {
        "no valid value to deserialize"
    }
}

/// The model of a source outcome: the collected value's model, or nothing.
pub open spec fn outcome_model(o: SourceOutcome) -> Option<ValueModel> {
    match o {
        SourceOutcome::Collected(v) => Option::Some(v@),
        SourceOutcome::Failed => Option::None,
    }
}

/// The models of a list of source outcomes, elementwise.
pub open spec fn outcome_models(s: Seq<SourceOutcome>) -> Seq<Option<ValueModel>> {
    Seq::new(s.len(), |i: int| if 0 <= i < s.len() {
        outcome_model(s[i])
    } else {
        Option::None
    })
}

/// One accumulation step: normalize the raw snapshot against the default,
/// then merge it three-way into the accumulated value.
pub open spec fn spec_build_step(d: ValueModel, acc: ValueModel, raw: ValueModel) -> ValueModel {
    spec_merge3(d, acc, spec_merge_with_default(d, raw))
}

/// Whether one accumulation step is internally consistent.
pub open spec fn step_ok(d: ValueModel, acc: ValueModel, raw: ValueModel) -> bool {
    merge3_ok(d, acc, spec_merge_with_default(d, raw))
}

/// The accumulated value after each collected layer, in order: a failed
/// layer contributes nothing, and each collected layer's snapshot is
/// normalized and merged into the running value.
pub open spec fn spec_acc_states(
    d: ValueModel,
    acc: ValueModel,
    outcomes: Seq<Option<ValueModel>>,
) -> Seq<ValueModel>
    decreases outcomes.len(),
{
    if outcomes.len() == 0 {
        Seq::empty()
    } else {
        match outcomes[0] {
            Option::None => spec_acc_states(d, acc, outcomes.drop_first()),
            Option::Some(raw) => seq![spec_build_step(d, acc, raw)] + spec_acc_states(
                d,
                spec_build_step(d, acc, raw),
                outcomes.drop_first(),
            ),
        }
    }
}

/// Whether every accumulation step along the way is internally consistent.
pub open spec fn spec_acc_ok(
    d: ValueModel,
    acc: ValueModel,
    outcomes: Seq<Option<ValueModel>>,
) -> bool
    decreases outcomes.len(),
{
    if outcomes.len() == 0 {
        true
    } else {
        match outcomes[0] {
            Option::None => spec_acc_ok(d, acc, outcomes.drop_first()),
            Option::Some(raw) => step_ok(d, acc, raw) && spec_acc_ok(
                d,
                spec_build_step(d, acc, raw),
                outcomes.drop_first(),
            ),
        }
    }
}

/// The final value of a build: the last accumulated value, or the default
/// snapshot itself when no layer contributed.
pub open spec fn spec_final_value(d: ValueModel, outcomes: Seq<Option<ValueModel>>) -> ValueModel {
    let states = spec_acc_states(d, d, outcomes);
    if states.len() == 0 {
        d
    } else {
        states.last()
    }
}

/// One accumulation step (see [`spec_build_step`]): normalize the raw
/// snapshot against the default so that it has the same shape the default
/// declares, then merge it three-way into the accumulated value.
pub fn build_step(default: &Value, acc: Value, raw: Value) -> (out: Result<Value, MergeError>)
    ensures
        step_ok(default@, acc@, raw@) ==> (out matches Result::Ok(v) && v@ == spec_build_step(
            default@,
            acc@,
            raw@,
        )),
        !step_ok(default@, acc@, raw@) ==> out == Result::<Value, MergeError>::Err(
            MergeError::MissingDefault,
        ),
{
    let normalized = merge_with_default(deep_clone(default), raw);
    merge_defaultable(deep_clone(default), acc, normalized)
}

/// Run every layer in order against the default snapshot and return the
/// accumulated value after each collected layer (see [`spec_acc_states`]).
/// A failed layer contributes nothing; an internal inconsistency aborts the
/// whole build.
pub fn accumulate(default: &Value, layers: Vec<SourceOutcome>) -> (out: Result<
    Vec<Value>,
    MergeError,
>)
    ensures
        spec_acc_ok(default@, default@, outcome_models(layers@)) ==> (out matches Result::Ok(accs)
            && models_of(accs@) == spec_acc_states(default@, default@, outcome_models(layers@))),
        !spec_acc_ok(default@, default@, outcome_models(layers@)) ==> out == Result::<
            Vec<Value>,
            MergeError,
        >::Err(MergeError::MissingDefault),
{
    let ghost dm = default@;
    let ghost allm = outcome_models(layers@);
    let mut accs: Vec<Value> = Vec::new();
    let mut acc: Value = deep_clone(default);
    proof {
        assert(allm.subrange(0, allm.len() as int) =~= allm);
        assert(models_of(accs@) =~= Seq::<ValueModel>::empty());
        assert(Seq::<ValueModel>::empty() + spec_acc_states(dm, acc@, allm) =~= spec_acc_states(
            dm,
            acc@,
            allm,
        ));
    }
    let mut i: usize = 0;
    while i < layers.len()
        invariant
            i <= layers@.len(),
            dm == default@,
            allm == outcome_models(layers@),
            spec_acc_states(dm, dm, allm) =~= models_of(accs@) + spec_acc_states(
                dm,
                acc@,
                allm.subrange(i as int, allm.len() as int),
            ),
            spec_acc_ok(dm, dm, allm) == spec_acc_ok(
                dm,
                acc@,
                allm.subrange(i as int, allm.len() as int),
            ),
        decreases layers@.len() - i,
    {
        let ghost suffix = allm.subrange(i as int, allm.len() as int);
        proof {
            assert(allm[i as int] == outcome_model(layers@[i as int]));
            assert(suffix[0] == allm[i as int]);
            assert(suffix.drop_first() =~= allm.subrange(i as int + 1, allm.len() as int));
        }
        match &layers[i] {
            SourceOutcome::Failed => {
            },
            SourceOutcome::Collected(raw) => {
                let raw_copy = deep_clone(raw);
                let ghost prev_acc = acc@;
                match build_step(default, acc, raw_copy) {
                    Result::Ok(next) => {
                        acc = next;
                        let snapshot = deep_clone(&acc);
                        let ghost prev_accs = accs@;
                        accs.push(snapshot);
                        proof {
                            crate::value::lemma_models_of_push(prev_accs, snapshot);
                            assert(models_of(accs@) =~= models_of(prev_accs).push(acc@));
                            assert(acc@ == spec_build_step(dm, prev_acc, raw@));
                        }
                    },
                    Result::Err(e) => {
                        proof {
                            assert(!spec_acc_ok(dm, prev_acc, suffix));
                            assert(!spec_acc_ok(dm, dm, allm));
                        }
                        return Result::Err(e);
                    },
                }
            },
        }
        i += 1;
    }
    proof {
        assert(allm.subrange(allm.len() as int, allm.len() as int).len() == 0);
        assert(spec_acc_states(dm, dm, allm) =~= models_of(accs@));
        assert(spec_acc_ok(dm, dm, allm));
    }
    Result::Ok(accs)
}

/// Build the final merged value from the default snapshot and the layers'
/// outcomes (see [`spec_final_value`]).
pub fn build_value(default: Value, layers: Vec<SourceOutcome>) -> (out: Result<Value, MergeError>)
    ensures
        spec_acc_ok(default@, default@, outcome_models(layers@)) ==> (out matches Result::Ok(v)
            && v@ == spec_final_value(default@, outcome_models(layers@))),
        !spec_acc_ok(default@, default@, outcome_models(layers@)) ==> out == Result::<
            Value,
            MergeError,
        >::Err(MergeError::MissingDefault),
{
    let mut accs = match accumulate(&default, layers) {
        Result::Ok(accs) => accs,
        Result::Err(e) => {
            return Result::Err(e);
        },
    };
    let ghost states = models_of(accs@);
    match accs.pop() {
        Option::Some(last) => {
            proof {
                assert(states.len() > 0 && states.last() == last@);
            }
            Result::Ok(last)
        },
        Option::None => Result::Ok(default),
    }
}

/// The last projection that succeeded, if any.
pub open spec fn last_some<T>(s: Seq<Option<T>>) -> Option<T>
    decreases s.len(),
{
    if s.len() == 0 {
        Option::None
    } else {
        match s.last() {
            Option::Some(t) => Option::Some(t),
            Option::None => last_some(s.drop_last()),
        }
    }
}

/// Select the result of a build: the last candidate that a layer's
/// projection produced wins; if no layer ever produced one, the whole
/// build fails with a single terminal error and no partial result.
pub fn finish_build<T>(candidates: Vec<Option<T>>) -> (out: Result<T, BuildError>)
    ensures
        match last_some(candidates@) {
            Option::Some(t) => out == Result::<T, BuildError>::Ok(t),
            Option::None => out == Result::<T, BuildError>::Err(BuildError::NoValidValue),
        },
{
    let ghost orig = candidates@;
    let mut c = candidates;
    while c.len() > 0
        invariant
            orig == candidates@,
            last_some(c@) == last_some(orig),
        decreases c@.len(),
    {
        let ghost before = c@;
        match c.pop() {
            Option::Some(Option::Some(t)) => {
                proof {
                    assert(before.last() == Option::Some(t));
                    assert(last_some(before) == Option::Some(t));
                }
                return Result::Ok(t);
            },
            Option::Some(Option::None) => {
                proof {
                    assert(before.last() == Option::<T>::None);
                    assert(last_some(before) == last_some(before.drop_last()));
                }
            },
            Option::None => {
            },
        }
    }
    proof {
        assert(last_some(c@) == Option::<T>::None);
    }
    Result::Err(BuildError::NoValidValue)
}

} // verus!

verus! {

/// Recovery: a source that fails to produce a value contributes nothing to
/// the accumulation, so the accumulated states — and with them the build's
/// precedence — are exactly as if the failing source were absent from the
/// ordered list.
pub proof fn lemma_failed_layer_is_absent(
    d: ValueModel,
    acc: ValueModel,
    pre: Seq<Option<ValueModel>>,
    post: Seq<Option<ValueModel>>,
)
    ensures
        spec_acc_states(d, acc, pre + seq![Option::None] + post) == spec_acc_states(
            d,
            acc,
            pre + post,
        ),
        spec_acc_ok(d, acc, pre + seq![Option::None] + post) == spec_acc_ok(d, acc, pre + post),
    decreases pre.len(),
{
    let with_failed = pre + seq![Option::None] + post;
    let without = pre + post;
    if pre.len() == 0 {
        assert(with_failed[0] is None);
        assert(with_failed.drop_first() =~= post);
        assert(without =~= post);
    } else {
        assert(with_failed[0] == pre[0]);
        assert(without[0] == pre[0]);
        assert(with_failed.drop_first() =~= pre.drop_first() + seq![Option::None] + post);
        assert(without.drop_first() =~= pre.drop_first() + post);
        match pre[0] {
            Option::None => {
                lemma_failed_layer_is_absent(d, acc, pre.drop_first(), post);
            },
            Option::Some(raw) => {
                lemma_failed_layer_is_absent(d, spec_build_step(d, acc, raw), pre.drop_first(), post);
            },
        }
    }
}

} // verus!

verus! {

/// Every accumulated state of a build is well-formed, when the starting
/// value and every collected layer's snapshot are.
pub proof fn lemma_acc_states_wf(
    d: ValueModel,
    acc: ValueModel,
    outcomes: Seq<Option<ValueModel>>,
)
    requires
        wf(acc),
        forall|i: int| 0 <= i < outcomes.len()
            ==> (#[trigger] outcomes[i] matches Option::Some(m) ==> wf(m)),
    ensures
        forall|j: int| 0 <= j < spec_acc_states(d, acc, outcomes).len()
            ==> wf(#[trigger] spec_acc_states(d, acc, outcomes)[j]),
    decreases outcomes.len(),
{
    if outcomes.len() == 0 {
    } else {
        let rest = outcomes.drop_first();
        assert(forall|i: int| 0 <= i < rest.len() ==> rest[i] == outcomes[i + 1]);
        match outcomes[0] {
            Option::None => {
                lemma_acc_states_wf(d, acc, rest);
                let states = spec_acc_states(d, acc, outcomes);
                assert forall|j: int| 0 <= j < states.len() implies wf(#[trigger] states[j]) by {
                    assert(states[j] == spec_acc_states(d, acc, rest)[j]);
                }
            },
            Option::Some(raw) => {
                assert(wf(raw));
                lemma_merge_with_default_preserves_wf(d, raw);
                lemma_merge3_preserves_wf(d, acc, spec_merge_with_default(d, raw));
                let next = spec_build_step(d, acc, raw);
                lemma_acc_states_wf(d, next, rest);
                let states = spec_acc_states(d, acc, outcomes);
                assert forall|j: int| 0 <= j < states.len() implies wf(#[trigger] states[j]) by {
                    if j == 0 {
                        assert(states[0] == next);
                    } else {
                        assert(states[j] == spec_acc_states(d, next, rest)[j - 1]);
                    }
                }
            },
        }
    }
}

} // verus!

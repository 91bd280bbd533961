//! What it means to process a block: the calls of the transform, in order,
//! and what they leave in the unit and in the output channels.

use crate::block::{
    held_after, kinds, latch, sample_at, shaped, ProcEnv, ProcessorError, SampleOutcome, UnitView,
};
use crate::channel::ChannelView;
use crate::signal::{SignalKind, SignalValue};
use vstd::prelude::*;

verus! {

/// One call of the transform: the held inputs and outputs it was handed, and
/// what it returned.
pub struct SampleStep<S, E> {
    pub inputs: Vec<SignalValue>,
    pub outputs: Vec<SignalValue>,
    pub outcome: SampleOutcome<S, E>,
}

/// The outcome has one output of each declared kind.
pub open spec fn fits<S, E>(out_kinds: Seq<SignalKind>, outcome: SampleOutcome<S, E>) -> bool {
    shaped(out_kinds, outcome.outputs@)
}

/// After this outcome the next index is processed: it fits and it succeeded.
pub open spec fn continues<S, E>(out_kinds: Seq<SignalKind>, outcome: SampleOutcome<S, E>) -> bool {
    fits(out_kinds, outcome) && outcome.result is Ok
}

/// The state before call `k`: the one the call before left, or the unit's
/// own at the first.
pub open spec fn state_before<S, E>(start: UnitView<S>, steps: Seq<SampleStep<S, E>>, k: int) -> S {
    if k <= 0 {
        start.state
    } else {
        steps[k - 1].outcome.state
    }
}

/// The outputs before call `k`: those the call before left, or the unit's
/// own at the first.
pub open spec fn outputs_before<S, E>(
    start: UnitView<S>,
    steps: Seq<SampleStep<S, E>>,
    k: int,
) -> Seq<SignalValue> {
    if k <= 0 {
        start.outputs
    } else {
        steps[k - 1].outcome.outputs@
    }
}

/// Call `k` was handed the inputs held after index `k` was read, with the
/// state and the outputs that the call before left, and returned what the
/// transform may return for them.
pub open spec fn step_valid<
    S,
    E,
    F: Fn(&ProcEnv, &S, &Vec<SignalValue>, &Vec<SignalValue>) -> SampleOutcome<S, E>,
>(
    f: F,
    env: ProcEnv,
    start: UnitView<S>,
    ins: Seq<Option<ChannelView>>,
    steps: Seq<SampleStep<S, E>>,
    k: int,
) -> bool {
    let step = steps[k];
    &&& step.inputs@ == held_after(start.inputs, ins, (k + 1) as nat)
    &&& step.outputs@ == outputs_before(start, steps, k)
    &&& call_ensures(
        f,
        (&env, &state_before(start, steps, k), &step.inputs, &step.outputs),
        step.outcome,
    )
}

/// `steps` are the calls of the transform over a block of `n` samples: one
/// for each index from zero up, each valid, stopping before `n` only after a
/// call that does not continue.
pub open spec fn is_run<
    S,
    E,
    F: Fn(&ProcEnv, &S, &Vec<SignalValue>, &Vec<SignalValue>) -> SampleOutcome<S, E>,
>(
    f: F,
    env: ProcEnv,
    start: UnitView<S>,
    ins: Seq<Option<ChannelView>>,
    steps: Seq<SampleStep<S, E>>,
    n: nat,
) -> bool {
    let out_kinds = kinds(start.output_spec);
    &&& steps.len() <= n
    &&& forall|k: int| 0 <= k < steps.len() ==> #[trigger] step_valid(f, env, start, ins, steps, k)
    &&& forall|k: int|
        0 <= k < steps.len() - 1 ==> continues(out_kinds, (#[trigger] steps[k]).outcome)
    &&& steps.len() < n ==> steps.len() > 0 && !continues(out_kinds, steps.last().outcome)
}

/// How many of the calls took effect: all, but for a last one that does not
/// fit.
pub open spec fn applied<S, E>(out_kinds: Seq<SignalKind>, steps: Seq<SampleStep<S, E>>) -> int {
    if steps.len() > 0 && !fits(out_kinds, steps.last().outcome) {
        steps.len() - 1
    } else {
        steps.len() as int
    }
}

/// The unit after the calls: the inputs held after every index that was
/// read, the state and outputs of the last call that took effect.
pub open spec fn unit_after<S, E>(
    start: UnitView<S>,
    ins: Seq<Option<ChannelView>>,
    steps: Seq<SampleStep<S, E>>,
) -> UnitView<S> {
    let a = applied(kinds(start.output_spec), steps);
    UnitView {
        name: start.name,
        input_spec: start.input_spec,
        output_spec: start.output_spec,
        state: state_before(start, steps, a),
        inputs: held_after(start.inputs, ins, steps.len()),
        outputs: outputs_before(start, steps, a),
    }
}

/// The output channels after the calls: at each index whose call took
/// effect, each channel holds the output the call gave it; the rest is as it
/// was.
pub open spec fn written<S, E>(
    out_kinds: Seq<SignalKind>,
    outs: Seq<ChannelView>,
    steps: Seq<SampleStep<S, E>>,
) -> Seq<ChannelView> {
    let a = applied(out_kinds, steps);
    Seq::new(
        outs.len(),
        |c: int|
            ChannelView {
                kind: outs[c].kind,
                samples: Seq::new(
                    outs[c].samples.len(),
                    |j: int|
                        if j < a {
                            Some(steps[j].outcome.outputs@[c])
                        } else {
                            outs[c].samples[j]
                        },
                ),
            },
    )
}

/// What one call of the transform makes of processing, at sample `index`:
/// an error where its outputs do not fit or where it failed, and success
/// otherwise.
pub open spec fn outcome_result<S, E>(
    out_kinds: Seq<SignalKind>,
    index: usize,
    outcome: SampleOutcome<S, E>,
) -> Result<(), ProcessorError<E>> {
    if !fits(out_kinds, outcome) {
        Err(ProcessorError::OutputShape { index })
    } else {
        match outcome.result {
            Err(error) => Err(ProcessorError::Transform { index, error }),
            Ok(_) => Ok(()),
        }
    }
}

/// What processing returns after the calls: what the last call makes of it,
/// and success where there was no call.
pub open spec fn result_after<S, E>(
    out_kinds: Seq<SignalKind>,
    steps: Seq<SampleStep<S, E>>,
) -> Result<(), ProcessorError<E>> {
    if steps.len() == 0 {
        Ok(())
    } else {
        outcome_result(out_kinds, (steps.len() - 1) as usize, steps.last().outcome)
    }
}

/// The transform can be called on every state with held inputs and outputs
/// of the declared kinds.
pub open spec fn accepts<
    S,
    E,
    F: Fn(&ProcEnv, &S, &Vec<SignalValue>, &Vec<SignalValue>) -> SampleOutcome<S, E>,
>(f: F, in_kinds: Seq<SignalKind>, out_kinds: Seq<SignalKind>) -> bool {
    forall|env: &ProcEnv, state: &S, inputs: &Vec<SignalValue>, outputs: &Vec<SignalValue>|
        shaped(in_kinds, inputs@) && shaped(out_kinds, outputs@) ==> #[trigger] call_requires(
            f,
            (env, state, inputs, outputs),
        )
}

/// Processing a block of `env.block_size` samples took the unit from `start`
/// to `end` and the output channels from `outs` to `outs_end`, and returned
/// `result`, by the calls `steps` of the transform.
pub open spec fn processed<
    S,
    E,
    F: Fn(&ProcEnv, &S, &Vec<SignalValue>, &Vec<SignalValue>) -> SampleOutcome<S, E>,
>(
    f: F,
    env: ProcEnv,
    start: UnitView<S>,
    ins: Seq<Option<ChannelView>>,
    outs: Seq<ChannelView>,
    steps: Seq<SampleStep<S, E>>,
    end: UnitView<S>,
    outs_end: Seq<ChannelView>,
    result: Result<(), ProcessorError<E>>,
) -> bool {
    &&& is_run(f, env, start, ins, steps, env.block_size as nat)
    &&& end == unit_after(start, ins, steps)
    &&& outs_end == written(kinds(start.output_spec), outs, steps)
    &&& result == result_after(kinds(start.output_spec), steps)
}

/// A run grows by the call at its next index: where every call so far is
/// valid and continues, and the next call was handed what is due at its
/// index and returned what the transform may return, the calls with the next
/// one added are valid, and all before it continue.
pub proof fn lemma_run_grows<
    S,
    E,
    F: Fn(&ProcEnv, &S, &Vec<SignalValue>, &Vec<SignalValue>) -> SampleOutcome<S, E>,
>(
    f: F,
    env: ProcEnv,
    start: UnitView<S>,
    ins: Seq<Option<ChannelView>>,
    steps: Seq<SampleStep<S, E>>,
    step: SampleStep<S, E>,
)
    requires
        forall|k: int| 0 <= k < steps.len() ==> #[trigger] step_valid(f, env, start, ins, steps, k),
        forall|k: int|
            0 <= k < steps.len() ==> continues(
                kinds(start.output_spec),
                (#[trigger] steps[k]).outcome,
            ),
        step.inputs@ == held_after(start.inputs, ins, steps.len() + 1),
        step.outputs@ == outputs_before(start, steps, steps.len() as int),
        call_ensures(
            f,
            (&env, &state_before(start, steps, steps.len() as int), &step.inputs, &step.outputs),
            step.outcome,
        ),
    ensures
        forall|k: int|
            0 <= k <= steps.len() ==> #[trigger] step_valid(f, env, start, ins, steps.push(step), k),
        forall|k: int|
            0 <= k < steps.len() ==> continues(
                kinds(start.output_spec),
                (#[trigger] steps.push(step)[k]).outcome,
            ),
{
    let next = steps.push(step);
    let i = steps.len() as int;
    assert(next[i] == step);
    assert forall|k: int| 0 <= k <= i implies #[trigger] step_valid(f, env, start, ins, next, k) by {
        if k < i {
            assert(step_valid(f, env, start, ins, steps, k));
            assert(next[k] == steps[k]);
            if k > 0 {
                assert(next[k - 1] == steps[k - 1]);
            }
        } else if i > 0 {
            assert(next[i - 1] == steps[i - 1]);
        }
    }
    assert forall|k: int| 0 <= k < i implies continues(
        kinds(start.output_spec),
        (#[trigger] next[k]).outcome,
    ) by {
        assert(next[k] == steps[k]);
    }
}

/// The transform returns one outcome for what it is handed: two calls with
/// the same environment and state and with equal held values agree on the
/// state, the outputs and the result.
pub open spec fn deterministic<
    S,
    E,
    F: Fn(&ProcEnv, &S, &Vec<SignalValue>, &Vec<SignalValue>) -> SampleOutcome<S, E>,
>(f: F) -> bool {
    forall|
        env: &ProcEnv,
        state: &S,
        inputs1: &Vec<SignalValue>,
        outputs1: &Vec<SignalValue>,
        inputs2: &Vec<SignalValue>,
        outputs2: &Vec<SignalValue>,
        outcome1: SampleOutcome<S, E>,
        outcome2: SampleOutcome<S, E>,
    |
        inputs1@ == inputs2@ && outputs1@ == outputs2@ && #[trigger] call_ensures(
            f,
            (env, state, inputs1, outputs1),
            outcome1,
        ) && #[trigger] call_ensures(f, (env, state, inputs2, outputs2), outcome2) ==> same_outcome(
            outcome1,
            outcome2,
        )
}

/// Two outcomes with the same state, outputs and result.
pub open spec fn same_outcome<S, E>(a: SampleOutcome<S, E>, b: SampleOutcome<S, E>) -> bool {
    a.state == b.state && a.outputs@ == b.outputs@ && a.result == b.result
}

/// The inputs a unit holds are as many after reading as before.
pub proof fn lemma_held_len(held: Seq<SignalValue>, ins: Seq<Option<ChannelView>>, n: nat)
    ensures
        held_after(held, ins, n).len() == held.len(),
    decreases n,
{
    if n > 0 {
        lemma_held_len(held, ins, (n - 1) as nat);
    }
}

/// Reading an index: an input with a value present at index `n` holds that
/// value afterwards, and an input with none holds what it held after the
/// index before, or before the block where `n` is zero.
pub proof fn lemma_fallback(held: Seq<SignalValue>, ins: Seq<Option<ChannelView>>, n: nat, c: int)
    requires
        0 <= c < held.len(),
    ensures
        held_after(held, ins, 0) == held,
        held_after(held, ins, n + 1)[c] == (match sample_at(ins, c, n as int) {
            Some(value) => value,
            None => held_after(held, ins, n)[c],
        }),
{
    lemma_held_len(held, ins, n);
    assert(held_after(held, ins, n + 1) == latch(held_after(held, ins, n), ins, n as int));
}

/// An input that is not connected holds its value through the whole block.
pub proof fn lemma_unconnected_holds(
    held: Seq<SignalValue>,
    ins: Seq<Option<ChannelView>>,
    n: nat,
    c: int,
)
    requires
        0 <= c < held.len(),
        c < ins.len() ==> ins[c] is None,
    ensures
        held_after(held, ins, n)[c] == held[c],
    decreases n,
{
    if n > 0 {
        lemma_unconnected_holds(held, ins, (n - 1) as nat, c);
        lemma_fallback(held, ins, (n - 1) as nat, c);
    }
}

/// A block that is processed with success had the transform called once for
/// each of its indices, whatever the unit declares.
pub proof fn lemma_success_calls_every_index<
    S,
    E,
    F: Fn(&ProcEnv, &S, &Vec<SignalValue>, &Vec<SignalValue>) -> SampleOutcome<S, E>,
>(
    f: F,
    env: ProcEnv,
    start: UnitView<S>,
    ins: Seq<Option<ChannelView>>,
    outs: Seq<ChannelView>,
    steps: Seq<SampleStep<S, E>>,
    end: UnitView<S>,
    outs_end: Seq<ChannelView>,
    result: Result<(), ProcessorError<E>>,
)
    requires
        processed(f, env, start, ins, outs, steps, end, outs_end, result),
    ensures
        result is Ok <==> steps.len() == env.block_size && forall|k: int|
            0 <= k < steps.len() ==> continues(
                kinds(start.output_spec),
                (#[trigger] steps[k]).outcome,
            ),
        result is Err ==> steps.len() > 0,
{
    let out_kinds = kinds(start.output_spec);
    if steps.len() > 0 {
        let last = steps.last();
        assert(last == steps[steps.len() - 1]);
    }
}

/// In two runs of one deterministic transform from one start, the calls at
/// an index that both runs reach agree.
proof fn lemma_calls_agree<
    S,
    E,
    F: Fn(&ProcEnv, &S, &Vec<SignalValue>, &Vec<SignalValue>) -> SampleOutcome<S, E>,
>(
    f: F,
    env: ProcEnv,
    start: UnitView<S>,
    ins: Seq<Option<ChannelView>>,
    n: nat,
    steps1: Seq<SampleStep<S, E>>,
    steps2: Seq<SampleStep<S, E>>,
    k: int,
)
    requires
        deterministic(f),
        is_run(f, env, start, ins, steps1, n),
        is_run(f, env, start, ins, steps2, n),
        0 <= k < steps1.len(),
        k < steps2.len(),
    ensures
        same_outcome(steps1[k].outcome, steps2[k].outcome),
    decreases k,
{
    if k > 0 {
        lemma_calls_agree(f, env, start, ins, n, steps1, steps2, k - 1);
    }
    assert(step_valid(f, env, start, ins, steps1, k));
    assert(step_valid(f, env, start, ins, steps2, k));
    assert(state_before(start, steps1, k) == state_before(start, steps2, k));
    assert(outputs_before(start, steps1, k) == outputs_before(start, steps2, k));
}

/// Processing is a function of its inputs: with a deterministic transform,
/// any two ways of processing the same block from the same unit and output
/// channels leave the same unit and the same output channels and return the
/// same result.
pub proof fn lemma_strategies_agree<
    S,
    E,
    F: Fn(&ProcEnv, &S, &Vec<SignalValue>, &Vec<SignalValue>) -> SampleOutcome<S, E>,
>(
    f: F,
    env: ProcEnv,
    start: UnitView<S>,
    ins: Seq<Option<ChannelView>>,
    outs: Seq<ChannelView>,
    steps1: Seq<SampleStep<S, E>>,
    end1: UnitView<S>,
    outs1: Seq<ChannelView>,
    result1: Result<(), ProcessorError<E>>,
    steps2: Seq<SampleStep<S, E>>,
    end2: UnitView<S>,
    outs2: Seq<ChannelView>,
    result2: Result<(), ProcessorError<E>>,
)
    requires
        deterministic(f),
        processed(f, env, start, ins, outs, steps1, end1, outs1, result1),
        processed(f, env, start, ins, outs, steps2, end2, outs2, result2),
    ensures
        end1 == end2,
        outs1 == outs2,
        result1 == result2,
{
    let n = env.block_size as nat;
    let out_kinds = kinds(start.output_spec);
    let m1 = steps1.len() as int;
    let m2 = steps2.len() as int;
    if m1 < m2 {
        lemma_calls_agree(f, env, start, ins, n, steps1, steps2, m1 - 1);
        assert(continues(out_kinds, steps2[m1 - 1].outcome));
        assert(steps1.last() == steps1[m1 - 1]);
        assert(false);
    }
    if m2 < m1 {
        lemma_calls_agree(f, env, start, ins, n, steps1, steps2, m2 - 1);
        assert(continues(out_kinds, steps1[m2 - 1].outcome));
        assert(steps2.last() == steps2[m2 - 1]);
        assert(false);
    }
    assert forall|k: int| 0 <= k < m1 implies same_outcome(
        #[trigger] steps1[k].outcome,
        steps2[k].outcome,
    ) by {
        lemma_calls_agree(f, env, start, ins, n, steps1, steps2, k);
    }
    if m1 > 0 {
        assert(steps1.last() == steps1[m1 - 1]);
        assert(steps2.last() == steps2[m1 - 1]);
        assert(same_outcome(steps1[m1 - 1].outcome, steps2[m1 - 1].outcome));
        if m1 > 1 {
            assert(same_outcome(steps1[m1 - 2].outcome, steps2[m1 - 2].outcome));
        }
    }
    assert(applied(out_kinds, steps1) == applied(out_kinds, steps2));
    assert(end1 =~~= end2);
    assert(outs1 =~~= outs2) by {
        let a = applied(out_kinds, steps1);
        assert forall|c: int, j: int|
            0 <= c < outs.len() && 0 <= j < outs[c].samples.len() implies written(
            out_kinds,
            outs,
            steps1,
        )[c].samples[j] == written(out_kinds, outs, steps2)[c].samples[j] by {
            if j < a {
                assert(same_outcome(steps1[j].outcome, steps2[j].outcome));
            }
        }
    }
}

} // verus!

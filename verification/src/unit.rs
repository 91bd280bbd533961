//! The processing unit at run time: what it holds, what it reports to the
//! engine, and how it works through one block of samples.

use crate::block::{
    check_channels, declared, declared_kinds, held_after, io_fault, io_ready, kinds, latch,
    lemma_io_ready, outs_ready, shaped, spec_kinds_of, zeros, ProcEnv, ProcessorError,
    SampleOutcome, UnitView,
};
use crate::channel::{channel_views, input_views, Channel, ChannelView};
use crate::emit::{copy_specs, UnitPlan};
use crate::run::{
    accepts, applied, continues, fits, is_run, lemma_run_grows, outcome_result, outputs_before,
    processed, result_after, state_before, step_valid, unit_after, written, SampleStep,
};
use crate::signal::{spec_views, SignalKind, SignalSpec, SignalValue};
use crate::text::copy_text;
use crate::wiring::{connect_inputs, connections, Connection, WiringError};
use vstd::prelude::*;

verus! {

/// A processing unit: its name, the channels it declares, its state, and the
/// value it holds for each input and output.
pub struct ProcessingUnit<S> {
    name: String,
    input_spec: Vec<SignalSpec>,
    output_spec: Vec<SignalSpec>,
    state: S,
    inputs: Vec<SignalValue>,
    outputs: Vec<SignalValue>,
}

impl<S> View for ProcessingUnit<S> {
    type V = UnitView<S>;

    closed spec fn view(&self) -> UnitView<S> {
        UnitView {
            name: self.name@,
            input_spec: spec_views(self.input_spec@),
            output_spec: spec_views(self.output_spec@),
            state: self.state,
            inputs: self.inputs@,
            outputs: self.outputs@,
        }
    }
}

/// Whether `values` holds one value of each kind that `specs` declares.
fn values_fit(values: &Vec<SignalValue>, specs: &Vec<SignalSpec>) -> (b: bool)
    ensures
        b == shaped(spec_kinds_of(specs@), values@),
{
    if values.len() != specs.len() {
        return false;
    }
    let mut c: usize = 0;
    while c < values.len()
        invariant
            0 <= c <= values.len(),
            values.len() == specs.len(),
            forall|k: int|
                0 <= k < c ==> (#[trigger] values[k]).spec_kind() == spec_kinds_of(specs@)[k],
        decreases values.len() - c,
    {
        if values[c].kind() != specs[c].kind {
            return false;
        }
        c += 1;
    }
    true
}

/// The zero of each kind that `specs` declares.
fn zero_values(specs: &Vec<SignalSpec>) -> (values: Vec<SignalValue>)
    ensures
        values@ == zeros(spec_kinds_of(specs@)),
        shaped(spec_kinds_of(specs@), values@),
{
    let mut values: Vec<SignalValue> = Vec::new();
    let mut c: usize = 0;
    while c < specs.len()
        invariant
            0 <= c <= specs.len(),
            values.len() == c,
            forall|k: int|
                0 <= k < c ==> (#[trigger] values[k]) == SignalValue::spec_zero(specs[k].kind),
        decreases specs.len() - c,
    {
        values.push(SignalValue::zero(specs[c].kind));
        c += 1;
    }
    assert(values@ =~= zeros(spec_kinds_of(specs@)));
    values
}

impl<S> ProcessingUnit<S> {
    #[verifier::type_invariant]
    closed spec fn holds_declared_kinds(self) -> bool {
        &&& shaped(spec_kinds_of(self.input_spec@), self.inputs@)
        &&& shaped(spec_kinds_of(self.output_spec@), self.outputs@)
    }

    /// A unit with the given name, channels and state. It holds the zero of
    /// its kind for every input and output.
    pub fn new(
        name: &str,
        input_spec: Vec<SignalSpec>,
        output_spec: Vec<SignalSpec>,
        state: S,
    ) -> (unit: Self)
        ensures
            unit@ == (UnitView {
                name: name@,
                input_spec: spec_views(input_spec@),
                output_spec: spec_views(output_spec@),
                state,
                inputs: zeros(spec_kinds_of(input_spec@)),
                outputs: zeros(spec_kinds_of(output_spec@)),
            }),
            unit@.well_formed(),
    {
        let inputs = zero_values(&input_spec);
        let outputs = zero_values(&output_spec);
        ProcessingUnit { name: copy_text(name), input_spec, output_spec, state, inputs, outputs }
    }

    /// The unit that a plan describes, with the given state. It holds the
    /// zero of its kind for every input and output.
    pub fn from_plan(plan: &UnitPlan, state: S) -> (unit: Self)
        ensures
            unit@ == (UnitView {
                name: plan.name@,
                input_spec: spec_views(plan.input_spec@),
                output_spec: spec_views(plan.output_spec@),
                state,
                inputs: zeros(spec_kinds_of(plan.input_spec@)),
                outputs: zeros(spec_kinds_of(plan.output_spec@)),
            }),
            unit@.well_formed(),
    {
        ProcessingUnit::new(plan.name.as_str(), plan.input_spec(), plan.output_spec(), state)
    }

    /// The unit's name.
    pub fn name(&self) -> (name: &str)
        ensures
            name@ == self@.name,
    {
        self.name.as_str()
    }

    /// The channels the unit reads, in declaration order. Every call returns
    /// the same list.
    pub fn input_spec(&self) -> (specs: Vec<SignalSpec>)
        ensures
            spec_views(specs@) == self@.input_spec,
    {
        copy_specs(&self.input_spec)
    }

    /// The channels the unit writes, in declaration order. Every call returns
    /// the same list.
    pub fn output_spec(&self) -> (specs: Vec<SignalSpec>)
        ensures
            spec_views(specs@) == self@.output_spec,
    {
        copy_specs(&self.output_spec)
    }

    /// The unit's state.
    pub fn state(&self) -> (state: &S)
        ensures
            *state == self@.state,
    {
        &self.state
    }

    /// The value the unit holds for each input.
    pub fn held_inputs(&self) -> (values: Vec<SignalValue>)
        ensures
            values@ == self@.inputs,
    {
        copy_values(&self.inputs)
    }

    /// The value the unit holds for each output.
    pub fn held_outputs(&self) -> (values: Vec<SignalValue>)
        ensures
            values@ == self@.outputs,
    {
        copy_values(&self.outputs)
    }

    /// Sets the value held for input `channel`, where the unit has that
    /// input and the value has its kind, and reports whether it did.
    pub fn set_input(&mut self, channel: usize, value: SignalValue) -> (set: bool)
        ensures
            set == (channel < old(self)@.inputs.len() && value.spec_kind() == kinds(
                old(self)@.input_spec,
            )[channel as int]),
            set ==> final(self)@ == (UnitView {
                inputs: old(self)@.inputs.update(channel as int, value),
                ..old(self)@
            }),
            !set ==> final(self)@ == old(self)@,
            final(self)@.well_formed(),
    {
        proof {
            use_type_invariant(&*self);
        }
        if channel >= self.inputs.len() || value.kind() != self.input_spec[channel].kind {
            return false;
        }
        let mut next = copy_values(&self.inputs);
        next[channel] = value;
        self.inputs = next;
        true
    }

    /// Fresh output channels for blocks of `size` samples: one for each
    /// output the unit declares, in order, of the declared kind, holding the
    /// zero of that kind at every index.
    pub fn create_output_buffers(&self, size: usize) -> (buffers: Vec<Channel>)
        ensures
            channel_views(buffers@) == zero_channels(kinds(self@.output_spec), size),
            outs_ready(kinds(self@.output_spec), channel_views(buffers@), size),
    {
        let mut buffers: Vec<Channel> = Vec::new();
        let mut c: usize = 0;
        while c < self.output_spec.len()
            invariant
                0 <= c <= self.output_spec.len(),
                buffers.len() == c,
                forall|k: int|
                    0 <= k < c ==> (#[trigger] buffers[k])@ == zero_channels(
                        spec_kinds_of(self.output_spec@),
                        size,
                    )[k],
            decreases self.output_spec.len() - c,
        {
            let channel = Channel::zeros(self.output_spec[c].kind, size);
            assert(channel@ =~~= zero_channels(spec_kinds_of(self.output_spec@), size)[c as int]);
            buffers.push(channel);
            c += 1;
        }
        assert(channel_views(buffers@) =~~= zero_channels(kinds(self@.output_spec), size));
        buffers
    }

    /// Lists the connections to make when the unit joins a graph: one for
    /// each input whose slot in `producers` holds a producer. The slots go by
    /// the inputs' declaration order; an input whose slot is empty stays
    /// unconnected.
    pub fn node<P>(&self, producers: Vec<Option<P>>) -> (r: Result<
        Vec<Connection<P>>,
        WiringError,
    >)
        ensures
            match r {
                Ok(made) => producers.len() == self@.input_spec.len() && made@ == connections(
                    producers@,
                ),
                Err(e) => producers.len() != self@.input_spec.len() && e
                    == (WiringError::ProducerCount {
                    expected: self@.input_spec.len() as usize,
                    found: producers.len(),
                }),
            },
    {
        connect_inputs(self.input_spec.len(), producers)
    }

    /// Called by the engine when the graph changes. The unit has nothing to
    /// allocate: it stays as it is.
    pub fn allocate(&mut self, sample_rate: u32, block_size: usize)
        ensures
            final(self)@ == old(self)@,
    {
    }

    /// Called by the engine when the block size changes. The unit keeps no
    /// buffers: it stays as it is.
    pub fn resize_buffers(&mut self, sample_rate: u32, block_size: usize)
        ensures
            final(self)@ == old(self)@,
    {
    }

    /// `allocate` for a unit with a hook of its own: the hook is called
    /// once, with the unit, the sample rate and the block size as they are,
    /// and the unit is what the hook returns.
    pub fn allocate_with<H: FnOnce(Self, u32, usize) -> Self>(
        self,
        hook: H,
        sample_rate: u32,
        block_size: usize,
    ) -> (unit: Self)
        requires
            call_requires(hook, (self, sample_rate, block_size)),
        ensures
            call_ensures(hook, (self, sample_rate, block_size), unit),
    {
        hook(self, sample_rate, block_size)
    }

    /// `resize_buffers` for a unit with a hook of its own: the hook is
    /// called once, with the unit, the sample rate and the block size as
    /// they are, and the unit is what the hook returns.
    pub fn resize_buffers_with<H: FnOnce(Self, u32, usize) -> Self>(
        self,
        hook: H,
        sample_rate: u32,
        block_size: usize,
    ) -> (unit: Self)
        requires
            call_requires(hook, (self, sample_rate, block_size)),
        ensures
            call_ensures(hook, (self, sample_rate, block_size), unit),
    {
        hook(self, sample_rate, block_size)
    }
}

/// Asking a unit for its channels any number of times gives the same lists:
/// two answers of `input_spec` for one unit name the same channels with the
/// same kinds in the same order, and so do two answers of `output_spec`.
pub proof fn lemma_specs_repeat<S>(
    unit: UnitView<S>,
    inputs1: Seq<SignalSpec>,
    inputs2: Seq<SignalSpec>,
    outputs1: Seq<SignalSpec>,
    outputs2: Seq<SignalSpec>,
)
    requires
        spec_views(inputs1) == unit.input_spec,
        spec_views(inputs2) == unit.input_spec,
        spec_views(outputs1) == unit.output_spec,
        spec_views(outputs2) == unit.output_spec,
    ensures
        inputs1.len() == inputs2.len(),
        forall|i: int| 0 <= i < inputs1.len() ==> (#[trigger] inputs1[i])@ == inputs2[i]@,
        outputs1.len() == outputs2.len(),
        forall|i: int| 0 <= i < outputs1.len() ==> (#[trigger] outputs1[i])@ == outputs2[i]@,
{
    assert(spec_views(inputs1).len() == inputs1.len());
    assert(spec_views(inputs2).len() == inputs2.len());
    assert forall|i: int| 0 <= i < inputs1.len() implies (#[trigger] inputs1[i])@
        == inputs2[i]@ by {
        assert(spec_views(inputs1)[i] == inputs1[i]@);
        assert(spec_views(inputs2)[i] == inputs2[i]@);
    }
    assert(spec_views(outputs1).len() == outputs1.len());
    assert(spec_views(outputs2).len() == outputs2.len());
    assert forall|i: int| 0 <= i < outputs1.len() implies (#[trigger] outputs1[i])@
        == outputs2[i]@ by {
        assert(spec_views(outputs1)[i] == outputs1[i]@);
        assert(spec_views(outputs2)[i] == outputs2[i]@);
    }
}

/// One channel for each kind, each holding the zero of its kind at every one
/// of `size` indices.
pub open spec fn zero_channels(kinds: Seq<SignalKind>, size: usize) -> Seq<ChannelView> {
    Seq::new(
        kinds.len(),
        |c: int|
            ChannelView {
                kind: kinds[c],
                samples: Seq::new(size as nat, |j: int| Some(SignalValue::spec_zero(kinds[c]))),
            },
    )
}

/// How a unit works through a block. Both ways leave the same unit, the same
/// output channels and the same result.
#[derive(Clone, Copy, Debug, PartialEq, Eq, Structural)]
pub enum Strategy {
    /// Read the inputs of the whole block, then call the transform for each
    /// index, then write the outputs.
    Accumulate,
    /// Read, call and write index by index.
    PerSample,
}

/// The output channels with the values `values` written at index `i`.
pub open spec fn stored(outs: Seq<ChannelView>, values: Seq<SignalValue>, i: int) -> Seq<
    ChannelView,
> {
    Seq::new(
        outs.len(),
        |c: int|
            ChannelView { kind: outs[c].kind, samples: outs[c].samples.update(i, Some(values[c])) },
    )
}

/// Writes one value into each output channel at index `i`.
fn write_outputs(outputs: &mut Vec<Channel>, values: &Vec<SignalValue>, i: usize)
    requires
        old(outputs).len() == values.len(),
        forall|c: int|
            0 <= c < values.len() ==> (#[trigger] old(outputs)[c])@.kind == values[c].spec_kind()
                && i < old(outputs)[c]@.samples.len(),
    ensures
        channel_views(final(outputs)@) == stored(channel_views(old(outputs)@), values@, i as int),
{
    let ghost before = channel_views(outputs@);
    let mut c: usize = 0;
    while c < values.len()
        invariant
            0 <= c <= values.len(),
            outputs.len() == values.len(),
            before.len() == values.len(),
            forall|k: int|
                0 <= k < values.len() ==> (#[trigger] before[k]).kind == values[k].spec_kind() && i
                    < before[k].samples.len(),
            forall|k: int| 0 <= k < c ==> (#[trigger] outputs[k])@ == stored(before, values@, i as int)[k],
            forall|k: int| c <= k < outputs.len() ==> (#[trigger] outputs[k])@ == before[k],
        decreases values.len() - c,
    {
        let ghost earlier = outputs@;
        let written = outputs[c].put(i, values[c]);
        assert(written);
        assert(forall|k: int| 0 <= k < outputs.len() && k != c ==> outputs[k] == earlier[k]);
        c += 1;
    }
    assert(channel_views(outputs@) =~= stored(before, values@, i as int));
}

/// The held inputs after index `i` of the inputs was read: each input takes
/// the sample present there and keeps its value where none is.
fn latch_row(
    held: &Vec<SignalValue>,
    specs: &Vec<SignalSpec>,
    inputs: &Vec<Option<Channel>>,
    i: usize,
) -> (next: Vec<SignalValue>)
    requires
        shaped(spec_kinds_of(specs@), held@),
        inputs.len() == specs.len(),
        forall|c: int|
            0 <= c < inputs.len() ==> ((#[trigger] inputs[c]) matches Some(channel)
                ==> channel@.kind == spec_kinds_of(specs@)[c] && i < channel@.samples.len()),
    ensures
        next@ == latch(held@, input_views(inputs@), i as int),
        shaped(spec_kinds_of(specs@), next@),
{
    let ghost ins = input_views(inputs@);
    let mut next: Vec<SignalValue> = Vec::new();
    let mut c: usize = 0;
    while c < inputs.len()
        invariant
            0 <= c <= inputs.len(),
            inputs.len() == specs.len(),
            shaped(spec_kinds_of(specs@), held@),
            ins == input_views(inputs@),
            forall|c: int|
                0 <= c < inputs.len() ==> ((#[trigger] inputs[c]) matches Some(channel)
                    ==> channel@.kind == spec_kinds_of(specs@)[c] && i < channel@.samples.len()),
            next.len() == c,
            forall|k: int| 0 <= k < c ==> (#[trigger] next[k]) == latch(held@, ins, i as int)[k],
            forall|k: int|
                0 <= k < c ==> (#[trigger] next[k]).spec_kind() == spec_kinds_of(specs@)[k],
        decreases inputs.len() - c,
    {
        let mut value = held[c];
        match &inputs[c] {
            Some(channel) => {
                proof {
                    channel.lemma_well_formed();
                    assert(ins[c as int] == Some(channel@));
                }
                match channel.get(i) {
                    Some(sample) => {
                        value = sample;
                    },
                    None => {},
                }
            },
            None => {
                assert(ins[c as int] is None);
            },
        }
        next.push(value);
        c += 1;
    }
    assert(next@ =~= latch(held@, ins, i as int));
    next
}

/// A copy of a list of values.
fn copy_values(values: &Vec<SignalValue>) -> (copy: Vec<SignalValue>)
    ensures
        copy@ == values@,
{
    let mut copy: Vec<SignalValue> = Vec::new();
    let mut c: usize = 0;
    while c < values.len()
        invariant
            0 <= c <= values.len(),
            copy@ == values@.take(c as int),
        decreases values.len() - c,
    {
        copy.push(values[c]);
        assert(copy@ =~= values@.take(c + 1));
        c += 1;
    }
    assert(values@.take(c as int) =~= values@);
    copy
}

impl<S> ProcessingUnit<S> {
    /// Reads index `i` of the inputs into the values the unit holds: each
    /// input takes the sample that is present there and keeps its value
    /// where none is. The inputs must be as the unit declares them.
    pub fn read_inputs(&mut self, inputs: &Vec<Option<Channel>>, i: usize)
        requires
            inputs.len() == old(self)@.input_spec.len(),
            forall|c: int|
                0 <= c < inputs.len() ==> ((#[trigger] inputs[c]) matches Some(channel)
                    ==> channel@.kind == kinds(old(self)@.input_spec)[c] && i
                    < channel@.samples.len()),
        ensures
            final(self)@ == (UnitView {
                inputs: latch(old(self)@.inputs, input_views(inputs@), i as int),
                ..old(self)@
            }),
            final(self)@.well_formed(),
    {
        proof {
            use_type_invariant(&*self);
        }
        let next = latch_row(&self.inputs, &self.input_spec, inputs, i);
        self.inputs = next;
    }
}

impl<S> ProcessingUnit<S> {
    /// Takes in what one call of the transform returned for sample `index`.
    ///
    /// Outputs that fit what the unit declares are kept with the state, and
    /// written to the output channels at `index`, whether the call succeeded
    /// or failed; of an outcome whose outputs do not fit, nothing is kept.
    /// The result is an error where the outputs do not fit or the call
    /// failed.
    pub fn apply<E>(
        &mut self,
        outputs: &mut Vec<Channel>,
        index: usize,
        outcome: SampleOutcome<S, E>,
    ) -> (r: Result<(), ProcessorError<E>>)
        requires
            old(outputs).len() == old(self)@.output_spec.len(),
            forall|c: int|
                0 <= c < old(outputs).len() ==> (#[trigger] old(outputs)[c])@.kind == kinds(
                    old(self)@.output_spec,
                )[c] && index < old(outputs)[c]@.samples.len(),
        ensures
            r == outcome_result(kinds(old(self)@.output_spec), index, outcome),
            fits(kinds(old(self)@.output_spec), outcome) ==> {
                &&& final(self)@ == (UnitView {
                    state: outcome.state,
                    outputs: outcome.outputs@,
                    ..old(self)@
                })
                &&& channel_views(final(outputs)@) == stored(
                    channel_views(old(outputs)@),
                    outcome.outputs@,
                    index as int,
                )
            },
            !fits(kinds(old(self)@.output_spec), outcome) ==> {
                &&& final(self)@ == old(self)@
                &&& channel_views(final(outputs)@) == channel_views(old(outputs)@)
            },
            final(self)@.well_formed(),
    {
        proof {
            use_type_invariant(&*self);
        }
        if !values_fit(&outcome.outputs, &self.output_spec) {
            return Err(ProcessorError::OutputShape { index });
        }
        let SampleOutcome { state, outputs: produced, result } = outcome;
        self.state = state;
        self.outputs = produced;
        write_outputs(outputs, &self.outputs, index);
        match result {
            Err(error) => Err(ProcessorError::Transform { index, error }),
            Ok(_) => Ok(()),
        }
    }
}

impl<S> ProcessingUnit<S> {
    /// Processes one block, index by index: at each index the inputs are
    /// read, the transform is called once, and what it returns is written
    /// straight into the output channels at that index.
    ///
    /// Channels that are not as declared are refused before anything is
    /// touched: their numbers are compared first, then their kinds, then
    /// their lengths. Otherwise the transform is called at index 0, 1, 2 and so
    /// on, each call with the inputs held after that index was read and with
    /// the state and outputs the call before left. Processing stops after
    /// the first call that fails, which is kept like any other, or that
    /// returns outputs of another shape than declared, of which nothing is
    /// kept; either is reported with its index.
    pub fn process_per_sample<
        E,
        F: Fn(&ProcEnv, &S, &Vec<SignalValue>, &Vec<SignalValue>) -> SampleOutcome<S, E>,
    >(
        &mut self,
        env: &ProcEnv,
        inputs: &Vec<Option<Channel>>,
        outputs: &mut Vec<Channel>,
        f: F,
    ) -> (r: Result<(), ProcessorError<E>>)
        requires
            accepts(f, kinds(old(self)@.input_spec), kinds(old(self)@.output_spec)),
        ensures
            match io_fault(
                declared(kinds(old(self)@.input_spec)),
                declared(kinds(old(self)@.output_spec)),
                input_views(inputs@),
                channel_views(old(outputs)@),
                env.block_size,
            ) {
                Some(fault) => {
                    &&& r == Err::<(), ProcessorError<E>>(ProcessorError::Io(fault))
                    &&& final(self)@ == old(self)@
                    &&& channel_views(final(outputs)@) == channel_views(old(outputs)@)
                },
                None => exists|steps: Seq<SampleStep<S, E>>| #[trigger]
                    processed(
                        f,
                        *env,
                        old(self)@,
                        input_views(inputs@),
                        channel_views(old(outputs)@),
                        steps,
                        final(self)@,
                        channel_views(final(outputs)@),
                        r,
                    ),
            },
            final(self)@.well_formed(),
    {
        proof {
            use_type_invariant(&*self);
        }
        let n = env.block_size;
        let ghost start = self@;
        let ghost ins = input_views(inputs@);
        let ghost outs = channel_views(outputs@);
        let ghost in_kinds = kinds(start.input_spec);
        let ghost out_kinds = kinds(start.output_spec);
        let expected_in = declared_kinds(&self.input_spec);
        let expected_out = declared_kinds(&self.output_spec);
        match check_channels(&expected_in, &expected_out, inputs, outputs, n) {
            Some(fault) => {
                return Err(ProcessorError::Io(fault));
            },
            None => {},
        }
        proof {
            lemma_io_ready(in_kinds, out_kinds, ins, outs, n);
        }
        let ghost mut steps: Seq<SampleStep<S, E>> = Seq::empty();
        let mut i: usize = 0;
        assert(channel_views(outputs@) =~~= written(out_kinds, outs, steps));
        while i < n
            invariant
                0 <= i <= n,
                n == env.block_size,
                accepts(f, in_kinds, out_kinds),
                in_kinds == kinds(start.input_spec),
                out_kinds == kinds(start.output_spec),
                ins == input_views(inputs@),
                io_ready(in_kinds, out_kinds, ins, outs, n),
                io_fault(declared(in_kinds), declared(out_kinds), ins, outs, n) is None,
                start == old(self)@,
                outs == channel_views(old(outputs)@),
                outputs.len() == outs.len(),
                steps.len() == i,
                forall|k: int| 0 <= k < i ==> #[trigger] step_valid(f, *env, start, ins, steps, k),
                forall|k: int| 0 <= k < i ==> continues(out_kinds, (#[trigger] steps[k]).outcome),
                self@ == unit_after(start, ins, steps),
                channel_views(outputs@) == written(out_kinds, outs, steps),
            decreases n - i,
        {
            proof {
                use_type_invariant(&*self);
                assert forall|c: int| 0 <= c < inputs.len() implies ((#[trigger] inputs[c]) matches Some(
                    channel,
                ) ==> channel@.kind == in_kinds[c] && i < channel@.samples.len()) by {
                    assert(ins[c] is Some ==> ins[c]->0 == inputs[c]->0@);
                }
            }
            self.read_inputs(inputs, i);
            proof {
                use_type_invariant(&*self);
            }
            let outcome = f(env, &self.state, &self.inputs, &self.outputs);
            let ghost step = SampleStep { inputs: self.inputs, outputs: self.outputs, outcome };
            let ghost next = steps.push(step);
            proof {
                lemma_run_grows(f, *env, start, ins, steps, step);
                assert forall|c: int| 0 <= c < outputs.len() implies (#[trigger] outputs[c])@.kind
                    == out_kinds[c] && i < outputs[c]@.samples.len() by {
                    assert(channel_views(outputs@)[c] == outputs[c]@);
                }
            }
            let r = self.apply(outputs, i, outcome);
            proof {
                if fits(out_kinds, step.outcome) {
                    assert(applied(out_kinds, next) == i + 1);
                } else {
                    assert(applied(out_kinds, next) == i);
                }
                assert(self@ == unit_after(start, ins, next));
                assert(channel_views(outputs@) =~~= written(out_kinds, outs, next));
                assert(r == result_after(out_kinds, next));
                steps = next;
            }
            match r {
                Err(e) => {
                    proof {
                        assert(is_run(f, *env, start, ins, steps, n as nat));
                        assert(processed(
                            f,
                            *env,
                            start,
                            ins,
                            outs,
                            steps,
                            self@,
                            channel_views(outputs@),
                            Err::<(), ProcessorError<E>>(e),
                        ));
                    }
                    return Err(e);
                },
                Ok(_) => {},
            }
            i += 1;
        }
        proof {
            use_type_invariant(&*self);
            assert(is_run(f, *env, start, ins, steps, n as nat));
            assert(processed(
                f,
                *env,
                start,
                ins,
                outs,
                steps,
                self@,
                channel_views(outputs@),
                Ok::<(), ProcessorError<E>>(()),
            ));
        }
        Ok(())
    }
}

/// The inputs held after each index of a block of `n` samples, from the
/// values `held` before the block.
fn latch_block(
    held: &Vec<SignalValue>,
    specs: &Vec<SignalSpec>,
    inputs: &Vec<Option<Channel>>,
    n: usize,
) -> (rows: Vec<Vec<SignalValue>>)
    requires
        shaped(spec_kinds_of(specs@), held@),
        inputs.len() == specs.len(),
        forall|c: int|
            0 <= c < inputs.len() ==> ((#[trigger] inputs[c]) matches Some(channel)
                ==> channel@.kind == spec_kinds_of(specs@)[c] && channel@.samples.len() == n),
    ensures
        rows.len() == n,
        forall|i: int|
            0 <= i < n ==> (#[trigger] rows[i])@ == held_after(
                held@,
                input_views(inputs@),
                (i + 1) as nat,
            ) && shaped(spec_kinds_of(specs@), rows[i]@),
{
    let ghost ins = input_views(inputs@);
    let mut rows: Vec<Vec<SignalValue>> = Vec::new();
    let mut i: usize = 0;
    while i < n
        invariant
            0 <= i <= n,
            rows.len() == i,
            shaped(spec_kinds_of(specs@), held@),
            inputs.len() == specs.len(),
            ins == input_views(inputs@),
            forall|c: int|
                0 <= c < inputs.len() ==> ((#[trigger] inputs[c]) matches Some(channel)
                    ==> channel@.kind == spec_kinds_of(specs@)[c] && channel@.samples.len() == n),
            forall|k: int|
                0 <= k < i ==> (#[trigger] rows[k])@ == held_after(held@, ins, (k + 1) as nat)
                    && shaped(spec_kinds_of(specs@), rows[k]@),
        decreases n - i,
    {
        let row = if i == 0 {
            latch_row(held, specs, inputs, i)
        } else {
            latch_row(&rows[i - 1], specs, inputs, i)
        };
        proof {
            assert(held_after(held@, ins, 0) == held@);
            assert(held_after(held@, ins, (i + 1) as nat) == latch(
                held_after(held@, ins, i as nat),
                ins,
                i as int,
            ));
        }
        let ghost earlier = rows@;
        rows.push(row);
        assert(forall|k: int| 0 <= k < i ==> rows[k] == earlier[k]);
        i += 1;
    }
    rows
}

impl<S> ProcessingUnit<S> {
    /// Processes one block in three passes: the inputs are read for the
    /// whole block first, then the transform is called once for each index,
    /// and what the calls returned is written into the output channels at
    /// the end.
    ///
    /// The unit, the output channels and the result are left as
    /// `process_per_sample` leaves them.
    pub fn process_accumulated<
        E,
        F: Fn(&ProcEnv, &S, &Vec<SignalValue>, &Vec<SignalValue>) -> SampleOutcome<S, E>,
    >(
        &mut self,
        env: &ProcEnv,
        inputs: &Vec<Option<Channel>>,
        outputs: &mut Vec<Channel>,
        f: F,
    ) -> (r: Result<(), ProcessorError<E>>)
        requires
            accepts(f, kinds(old(self)@.input_spec), kinds(old(self)@.output_spec)),
        ensures
            match io_fault(
                declared(kinds(old(self)@.input_spec)),
                declared(kinds(old(self)@.output_spec)),
                input_views(inputs@),
                channel_views(old(outputs)@),
                env.block_size,
            ) {
                Some(fault) => {
                    &&& r == Err::<(), ProcessorError<E>>(ProcessorError::Io(fault))
                    &&& final(self)@ == old(self)@
                    &&& channel_views(final(outputs)@) == channel_views(old(outputs)@)
                },
                None => exists|steps: Seq<SampleStep<S, E>>| #[trigger]
                    processed(
                        f,
                        *env,
                        old(self)@,
                        input_views(inputs@),
                        channel_views(old(outputs)@),
                        steps,
                        final(self)@,
                        channel_views(final(outputs)@),
                        r,
                    ),
            },
            final(self)@.well_formed(),
    {
        proof {
            use_type_invariant(&*self);
        }
        let n = env.block_size;
        let ghost start = self@;
        let ghost ins = input_views(inputs@);
        let ghost outs = channel_views(outputs@);
        let ghost in_kinds = kinds(start.input_spec);
        let ghost out_kinds = kinds(start.output_spec);
        let expected_in = declared_kinds(&self.input_spec);
        let expected_out = declared_kinds(&self.output_spec);
        match check_channels(&expected_in, &expected_out, inputs, outputs, n) {
            Some(fault) => {
                return Err(ProcessorError::Io(fault));
            },
            None => {},
        }
        proof {
            lemma_io_ready(in_kinds, out_kinds, ins, outs, n);
            assert forall|c: int| 0 <= c < inputs.len() implies ((#[trigger] inputs[c]) matches Some(
                channel,
            ) ==> channel@.kind == in_kinds[c] && channel@.samples.len() == n) by {
                assert(ins[c] is Some ==> ins[c]->0 == inputs[c]->0@);
            }
        }
        let rows = latch_block(&self.inputs, &self.input_spec, inputs, n);
        let mut produced: Vec<Vec<SignalValue>> = Vec::new();
        let mut failure: Option<ProcessorError<E>> = None;
        let ghost mut steps: Seq<SampleStep<S, E>> = Seq::empty();
        let mut i: usize = 0;
        while i < n && failure.is_none()
            invariant
                0 <= i <= n,
                n == env.block_size,
                accepts(f, in_kinds, out_kinds),
                in_kinds == kinds(start.input_spec),
                out_kinds == kinds(start.output_spec),
                in_kinds == spec_kinds_of(self.input_spec@),
                out_kinds == spec_kinds_of(self.output_spec@),
                rows.len() == n,
                forall|k: int|
                    0 <= k < n ==> (#[trigger] rows[k])@ == held_after(
                        start.inputs,
                        ins,
                        (k + 1) as nat,
                    ) && shaped(in_kinds, rows[k]@),
                steps.len() == i,
                forall|k: int| 0 <= k < i ==> #[trigger] step_valid(f, *env, start, ins, steps, k),
                forall|k: int|
                    0 <= k < i - 1 ==> continues(out_kinds, (#[trigger] steps[k]).outcome),
                failure is None ==> forall|k: int|
                    0 <= k < i ==> continues(out_kinds, (#[trigger] steps[k]).outcome),
                failure is Some ==> i > 0 && !continues(out_kinds, steps.last().outcome),
                match failure {
                    Some(e) => Err::<(), ProcessorError<E>>(e) == result_after(out_kinds, steps),
                    None => result_after(out_kinds, steps) is Ok,
                },
                produced.len() == applied(out_kinds, steps),
                forall|j: int|
                    0 <= j < produced.len() ==> (#[trigger] produced[j])@
                        == steps[j].outcome.outputs@ && shaped(out_kinds, produced[j]@),
                self.state == state_before(start, steps, applied(out_kinds, steps)),
                self.outputs@ == outputs_before(start, steps, applied(out_kinds, steps)),
                self.inputs@ == start.inputs,
                self.name@ == start.name,
                spec_views(self.input_spec@) == start.input_spec,
                spec_views(self.output_spec@) == start.output_spec,
            decreases n - i + (if failure is None { 1int } else { 0int }),
        {
            proof {
                use_type_invariant(&*self);
            }
            let outcome = f(env, &self.state, &rows[i], &self.outputs);
            let ghost step = SampleStep { inputs: rows[i as int], outputs: self.outputs, outcome };
            let ghost next = steps.push(step);
            proof {
                lemma_run_grows(f, *env, start, ins, steps, step);
                assert(applied(out_kinds, steps) == i);
            }
            if !values_fit(&outcome.outputs, &self.output_spec) {
                failure = Some(ProcessorError::OutputShape { index: i });
                proof {
                    assert(applied(out_kinds, next) == i);
                    assert forall|j: int| 0 <= j < produced.len() implies (#[trigger] produced[j])@
                        == next[j].outcome.outputs@ by {
                        assert(next[j] == steps[j]);
                    }
                }
            } else {
                let SampleOutcome { state, outputs: values, result } = outcome;
                let kept = copy_values(&values);
                self.state = state;
                self.outputs = values;
                produced.push(kept);
                proof {
                    assert(applied(out_kinds, next) == i + 1);
                    assert forall|j: int| 0 <= j < produced.len() implies (#[trigger] produced[j])@
                        == next[j].outcome.outputs@ && shaped(out_kinds, produced[j]@) by {
                        if j < i {
                            assert(next[j] == steps[j]);
                        }
                    }
                }
                match result {
                    Err(error) => {
                        failure = Some(ProcessorError::Transform { index: i, error });
                    },
                    Ok(_) => {},
                }
            }
            proof {
                steps = next;
            }
            i += 1;
        }
        proof {
            assert(is_run(f, *env, start, ins, steps, n as nat));
        }
        if i > 0 {
            self.inputs = copy_values(&rows[i - 1]);
        }
        assert(self@ =~~= unit_after(start, ins, steps));
        let ghost a = applied(out_kinds, steps);
        let mut j: usize = 0;
        assert(channel_views(outputs@) =~~= written(out_kinds, outs, steps.take(0)));
        while j < produced.len()
            invariant
                0 <= j <= produced.len(),
                produced.len() == a,
                a == applied(out_kinds, steps),
                a <= steps.len() <= n,
                forall|k: int|
                    0 <= k < produced.len() ==> (#[trigger] produced[k])@
                        == steps[k].outcome.outputs@ && shaped(out_kinds, produced[k]@),
                forall|k: int| 0 <= k < a ==> fits(out_kinds, (#[trigger] steps[k]).outcome),
                outs_ready(out_kinds, outs, n),
                outputs.len() == outs.len(),
                channel_views(outputs@) == written(out_kinds, outs, steps.take(j as int)),
            decreases produced.len() - j,
        {
            proof {
                let sofar = written(out_kinds, outs, steps.take(j as int));
                assert forall|c: int| 0 <= c < produced[j as int].len() implies (#[trigger] outputs[c])@.kind
                    == produced[j as int][c].spec_kind() && j < outputs[c]@.samples.len() by {
                    assert(channel_views(outputs@)[c] == outputs[c]@);
                    assert(sofar[c].kind == outs[c].kind);
                }
                if j > 0 {
                    assert(steps.take(j as int).last() == steps[j - 1]);
                }
                assert(steps.take(j + 1).last() == steps[j as int]);
                assert(applied(out_kinds, steps.take(j as int)) == j);
                assert(applied(out_kinds, steps.take(j + 1)) == j + 1);
            }
            write_outputs(outputs, &produced[j], j);
            assert(channel_views(outputs@) =~~= written(out_kinds, outs, steps.take(j + 1)));
            j += 1;
        }
        proof {
            if a > 0 {
                assert(steps.take(a).last() == steps[a - 1]);
            }
            assert(applied(out_kinds, steps.take(a)) == a);
            assert(written(out_kinds, outs, steps.take(a)) =~~= written(out_kinds, outs, steps));
            use_type_invariant(&*self);
        }
        let r = match failure {
            Some(e) => Err(e),
            None => Ok(()),
        };
        proof {
            assert(r == result_after(out_kinds, steps));
            assert(processed(f, *env, start, ins, outs, steps, self@, channel_views(outputs@), r));
        }
        r
    }
}

impl<S> ProcessingUnit<S> {
    /// Processes one block of `env.block_size` samples with the given
    /// strategy.
    ///
    /// Channels that are not as declared are refused before anything is
    /// touched: their numbers are compared first, then their kinds, then
    /// their lengths. Otherwise the transform is called at index 0, 1, 2 and so
    /// on: each call is handed the inputs held after that index was read and
    /// the state and outputs that the call before left, and what it returns
    /// becomes the unit's state and outputs and is written to the output
    /// channels at that index. Processing stops after the first call that
    /// fails, which is kept like any other, or that returns outputs of
    /// another shape than declared, of which nothing is kept; either is
    /// reported with its index.
    pub fn process<
        E,
        F: Fn(&ProcEnv, &S, &Vec<SignalValue>, &Vec<SignalValue>) -> SampleOutcome<S, E>,
    >(
        &mut self,
        strategy: Strategy,
        env: &ProcEnv,
        inputs: &Vec<Option<Channel>>,
        outputs: &mut Vec<Channel>,
        f: F,
    ) -> (r: Result<(), ProcessorError<E>>)
        requires
            accepts(f, kinds(old(self)@.input_spec), kinds(old(self)@.output_spec)),
        ensures
            match io_fault(
                declared(kinds(old(self)@.input_spec)),
                declared(kinds(old(self)@.output_spec)),
                input_views(inputs@),
                channel_views(old(outputs)@),
                env.block_size,
            ) {
                Some(fault) => {
                    &&& r == Err::<(), ProcessorError<E>>(ProcessorError::Io(fault))
                    &&& final(self)@ == old(self)@
                    &&& channel_views(final(outputs)@) == channel_views(old(outputs)@)
                },
                None => exists|steps: Seq<SampleStep<S, E>>| #[trigger]
                    processed(
                        f,
                        *env,
                        old(self)@,
                        input_views(inputs@),
                        channel_views(old(outputs)@),
                        steps,
                        final(self)@,
                        channel_views(final(outputs)@),
                        r,
                    ),
            },
            final(self)@.well_formed(),
    {
        match strategy {
            Strategy::Accumulate => self.process_accumulated(env, inputs, outputs, f),
            Strategy::PerSample => self.process_per_sample(env, inputs, outputs, f),
        }
    }
}

} // verus!

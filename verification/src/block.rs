//! One block of samples: what the engine hands to a unit, what a unit hands
//! to its transform, and the checks on the channels of a block.

use crate::channel::{channel_views, input_views, Channel, ChannelView};
use crate::first::{
    first_some, lemma_first_some_absent, lemma_first_some_at, lemma_first_some_found,
    lemma_first_some_none,
};
use crate::signal::{spec_views, SignalKind, SignalSpec, SignalValue};
use vstd::prelude::*;

verus! {

/// What the engine hands to every call: the sample rate in hertz and the
/// number of samples in a block.
#[derive(Clone, Copy, Debug, PartialEq, Eq, Structural)]
pub struct ProcEnv {
    pub sample_rate: u32,
    pub block_size: usize,
}

/// What one call of the per-sample transform leaves behind: the state, the
/// value of every output, and whether it succeeded.
pub struct SampleOutcome<S, E> {
    pub state: S,
    pub outputs: Vec<SignalValue>,
    pub result: Result<(), E>,
}

/// What is wrong with the channels handed over for a block.
#[derive(Clone, Copy, Debug, PartialEq, Eq, Structural)]
#[allow(inconsistent_fields)]
pub enum IoError {
    /// Another number of input channels than expected.
    InputCount { expected: usize, found: usize },
    /// A connected input channel of another kind than expected.
    InputKind { channel: usize, expected: SignalKind, found: SignalKind },
    /// A connected input channel of another length than the block.
    InputLength { channel: usize, expected: usize, found: usize },
    /// Another number of output channels than expected.
    OutputCount { expected: usize, found: usize },
    /// An output channel of another kind than expected.
    OutputKind { channel: usize, expected: SignalKind, found: SignalKind },
    /// An output channel of another length than the block.
    OutputLength { channel: usize, expected: usize, found: usize },
}

/// Why a block was not processed to its end.
#[derive(Debug, PartialEq, Eq)]
pub enum ProcessorError<E> {
    /// The channels handed over are not as the unit declares them.
    Io(IoError),
    /// At sample `index` the transform returned outputs of another number or
    /// of other kinds than declared.
    OutputShape { index: usize },
    /// At sample `index` the transform failed with `error`.
    Transform { index: usize, error: E },
}

/// A unit as a value of specifications.
#[verifier::ext_equal]
pub struct UnitView<S> {
    pub name: Seq<char>,
    pub input_spec: Seq<(Seq<char>, SignalKind)>,
    pub output_spec: Seq<(Seq<char>, SignalKind)>,
    pub state: S,
    /// The value last seen on each input.
    pub inputs: Seq<SignalValue>,
    /// The value last given to each output.
    pub outputs: Seq<SignalValue>,
}

/// The kinds of a list of channel specs.
pub open spec fn kinds(specs: Seq<(Seq<char>, SignalKind)>) -> Seq<SignalKind> {
    specs.map_values(|s: (Seq<char>, SignalKind)| s.1)
}

/// `values` holds one value of each kind of `kinds`, in order.
pub open spec fn shaped(kinds: Seq<SignalKind>, values: Seq<SignalValue>) -> bool {
    &&& values.len() == kinds.len()
    &&& forall|c: int| 0 <= c < kinds.len() ==> (#[trigger] values[c]).spec_kind() == kinds[c]
}

/// The zero of each kind of `kinds`.
pub open spec fn zeros(kinds: Seq<SignalKind>) -> Seq<SignalValue> {
    kinds.map_values(|k: SignalKind| SignalValue::spec_zero(k))
}

impl<S> UnitView<S> {
    /// The unit holds one value of the declared kind for each channel.
    pub open spec fn well_formed(self) -> bool {
        &&& shaped(kinds(self.input_spec), self.inputs)
        &&& shaped(kinds(self.output_spec), self.outputs)
    }
}

/// The sample of input `c` at index `i`: `None` where the channel is not
/// connected, or holds no value there.
pub open spec fn sample_at(ins: Seq<Option<ChannelView>>, c: int, i: int) -> Option<SignalValue> {
    if 0 <= c < ins.len() {
        match ins[c] {
            Some(channel) => if channel.present(i) {
                channel.samples[i]
            } else {
                None
            },
            None => None,
        }
    } else {
        None
    }
}

/// The held inputs after index `i` was read: each takes the sample that is
/// present there and keeps its value where none is.
pub open spec fn latch(held: Seq<SignalValue>, ins: Seq<Option<ChannelView>>, i: int) -> Seq<
    SignalValue,
> {
    Seq::new(
        held.len(),
        |c: int|
            match sample_at(ins, c, i) {
                Some(v) => v,
                None => held[c],
            },
    )
}

/// The held inputs after the first `n` indices of a block were read.
pub open spec fn held_after(held: Seq<SignalValue>, ins: Seq<Option<ChannelView>>, n: nat) -> Seq<
    SignalValue,
>
    decreases n,
{
    if n == 0 {
        held
    } else {
        latch(held_after(held, ins, (n - 1) as nat), ins, n - 1)
    }
}

/// The kind fault of input channel `c`, if it has one: a connected channel
/// must have the kind expected of it, where one is expected.
pub open spec fn input_kind_fault(
    expected: Seq<Option<SignalKind>>,
    ins: Seq<Option<ChannelView>>,
    c: int,
) -> Option<IoError> {
    match (ins[c], expected[c]) {
        (Some(channel), Some(kind)) => if channel.kind != kind {
            Some(IoError::InputKind { channel: c as usize, expected: kind, found: channel.kind })
        } else {
            None
        },
        _ => None,
    }
}

/// The kind fault of output channel `c`, if it has one.
pub open spec fn output_kind_fault(
    expected: Seq<Option<SignalKind>>,
    outs: Seq<ChannelView>,
    c: int,
) -> Option<IoError> {
    match expected[c] {
        Some(kind) => if outs[c].kind != kind {
            Some(IoError::OutputKind { channel: c as usize, expected: kind, found: outs[c].kind })
        } else {
            None
        },
        None => None,
    }
}

/// The length fault of input channel `c` in a block of `n` samples, if it
/// has one: a connected channel must have the block's length.
pub open spec fn input_length_fault(ins: Seq<Option<ChannelView>>, n: usize, c: int) -> Option<
    IoError,
> {
    match ins[c] {
        Some(channel) => if channel.samples.len() != n {
            Some(
                IoError::InputLength {
                    channel: c as usize,
                    expected: n,
                    found: channel.samples.len() as usize,
                },
            )
        } else {
            None
        },
        None => None,
    }
}

/// The length fault of output channel `c` in a block of `n` samples, if it
/// has one.
pub open spec fn output_length_fault(outs: Seq<ChannelView>, n: usize, c: int) -> Option<IoError> {
    if outs[c].samples.len() != n {
        Some(
            IoError::OutputLength {
                channel: c as usize,
                expected: n,
                found: outs[c].samples.len() as usize,
            },
        )
    } else {
        None
    }
}

/// The kind faults of the inputs, one place for each channel.
pub open spec fn input_kind_faults(
    expected: Seq<Option<SignalKind>>,
    ins: Seq<Option<ChannelView>>,
) -> Seq<Option<IoError>> {
    Seq::new(ins.len(), |c: int| input_kind_fault(expected, ins, c))
}

/// The kind faults of the outputs, one place for each channel.
pub open spec fn output_kind_faults(
    expected: Seq<Option<SignalKind>>,
    outs: Seq<ChannelView>,
) -> Seq<Option<IoError>> {
    Seq::new(outs.len(), |c: int| output_kind_fault(expected, outs, c))
}

/// The length faults of the inputs, one place for each channel.
pub open spec fn input_length_faults(ins: Seq<Option<ChannelView>>, n: usize) -> Seq<
    Option<IoError>,
> {
    Seq::new(ins.len(), |c: int| input_length_fault(ins, n, c))
}

/// The length faults of the outputs, one place for each channel.
pub open spec fn output_length_faults(outs: Seq<ChannelView>, n: usize) -> Seq<Option<IoError>> {
    Seq::new(outs.len(), |c: int| output_length_fault(outs, n, c))
}

/// What is wrong with the channels handed over for a block of `n` samples,
/// if anything. `expected_in` and `expected_out` give, for each channel, the
/// kind it must have, or `None` where any kind will do.
///
/// The checks run in this order, and the first fault found is the one
/// reported: the number of inputs, the number of outputs, the kinds of the
/// inputs in order, the kinds of the outputs in order, the lengths of the
/// inputs in order, the lengths of the outputs in order.
pub open spec fn io_fault(
    expected_in: Seq<Option<SignalKind>>,
    expected_out: Seq<Option<SignalKind>>,
    ins: Seq<Option<ChannelView>>,
    outs: Seq<ChannelView>,
    n: usize,
) -> Option<IoError> {
    if ins.len() != expected_in.len() {
        Some(IoError::InputCount { expected: expected_in.len() as usize, found: ins.len() as usize })
    } else if outs.len() != expected_out.len() {
        Some(
            IoError::OutputCount {
                expected: expected_out.len() as usize,
                found: outs.len() as usize,
            },
        )
    } else if first_some(input_kind_faults(expected_in, ins)) is Some {
        first_some(input_kind_faults(expected_in, ins))
    } else if first_some(output_kind_faults(expected_out, outs)) is Some {
        first_some(output_kind_faults(expected_out, outs))
    } else if first_some(input_length_faults(ins, n)) is Some {
        first_some(input_length_faults(ins, n))
    } else {
        first_some(output_length_faults(outs, n))
    }
}

/// A channel of another kind than expected is reported before any length:
/// where the numbers of the channels are right, the channels are refused
/// with a kind fault exactly where some channel that is checked has another
/// kind than expected, whatever the lengths are.
pub proof fn lemma_kind_faults_come_first(
    expected_in: Seq<Option<SignalKind>>,
    expected_out: Seq<Option<SignalKind>>,
    ins: Seq<Option<ChannelView>>,
    outs: Seq<ChannelView>,
    n: usize,
)
    requires
        ins.len() == expected_in.len(),
        outs.len() == expected_out.len(),
    ensures
        (io_fault(expected_in, expected_out, ins, outs, n) matches Some(fault) && (fault
            is InputKind || fault is OutputKind)) <==> ((exists|c: int|
            0 <= c < ins.len() && (#[trigger] input_kind_fault(expected_in, ins, c)) is Some) || (
        exists|c: int|
            0 <= c < outs.len() && (#[trigger] output_kind_fault(expected_out, outs, c)) is Some)),
{
    let in_kind = input_kind_faults(expected_in, ins);
    let out_kind = output_kind_faults(expected_out, outs);
    let in_length = input_length_faults(ins, n);
    let out_length = output_length_faults(outs, n);
    if first_some(in_kind) is Some {
        let at = lemma_first_some_found(in_kind);
        assert(input_kind_fault(expected_in, ins, at) is Some);
    } else {
        lemma_first_some_absent(in_kind);
        assert forall|c: int| 0 <= c < ins.len() implies (#[trigger] input_kind_fault(
            expected_in,
            ins,
            c,
        )) is None by {
            assert(in_kind[c] is None);
        }
        if first_some(out_kind) is Some {
            let at = lemma_first_some_found(out_kind);
            assert(output_kind_fault(expected_out, outs, at) is Some);
        } else {
            lemma_first_some_absent(out_kind);
            assert forall|c: int| 0 <= c < outs.len() implies (#[trigger] output_kind_fault(
                expected_out,
                outs,
                c,
            )) is None by {
                assert(out_kind[c] is None);
            }
            if first_some(in_length) is Some {
                let at = lemma_first_some_found(in_length);
            } else if first_some(out_length) is Some {
                let at = lemma_first_some_found(out_length);
            }
        }
    }
}

/// Every channel must have its declared kind.
pub open spec fn declared(kinds: Seq<SignalKind>) -> Seq<Option<SignalKind>> {
    kinds.map_values(|k: SignalKind| Some(k))
}

/// The channels handed over for a block of `n` samples are as the unit
/// declares them: as many as declared, each connected one of the declared
/// kind and of the block's length.
pub open spec fn io_ready(
    in_kinds: Seq<SignalKind>,
    out_kinds: Seq<SignalKind>,
    ins: Seq<Option<ChannelView>>,
    outs: Seq<ChannelView>,
    n: usize,
) -> bool {
    &&& ins.len() == in_kinds.len()
    &&& forall|c: int|
        0 <= c < ins.len() ==> ((#[trigger] ins[c]) matches Some(channel) ==> channel.kind
            == in_kinds[c] && channel.samples.len() == n)
    &&& outs_ready(out_kinds, outs, n)
}

/// The output channels are as many as declared, each of the declared kind
/// and of the block's length.
pub open spec fn outs_ready(out_kinds: Seq<SignalKind>, outs: Seq<ChannelView>, n: usize) -> bool {
    &&& outs.len() == out_kinds.len()
    &&& forall|c: int|
        0 <= c < outs.len() ==> (#[trigger] outs[c]).kind == out_kinds[c] && outs[c].samples.len()
            == n
}

/// Channels are without a fault exactly where they are ready.
pub proof fn lemma_io_ready(
    in_kinds: Seq<SignalKind>,
    out_kinds: Seq<SignalKind>,
    ins: Seq<Option<ChannelView>>,
    outs: Seq<ChannelView>,
    n: usize,
)
    ensures
        io_fault(declared(in_kinds), declared(out_kinds), ins, outs, n) is None <==> io_ready(
            in_kinds,
            out_kinds,
            ins,
            outs,
            n,
        ),
{
    let expected_in = declared(in_kinds);
    let expected_out = declared(out_kinds);
    let in_kind = input_kind_faults(expected_in, ins);
    let out_kind = output_kind_faults(expected_out, outs);
    let in_length = input_length_faults(ins, n);
    let out_length = output_length_faults(outs, n);
    if io_fault(expected_in, expected_out, ins, outs, n) is None {
        lemma_first_some_absent(in_kind);
        lemma_first_some_absent(out_kind);
        lemma_first_some_absent(in_length);
        lemma_first_some_absent(out_length);
        assert forall|c: int| 0 <= c < ins.len() implies ((#[trigger] ins[c]) matches Some(
            channel,
        ) ==> channel.kind == in_kinds[c] && channel.samples.len() == n) by {
            assert(in_kind[c] is None);
            assert(in_length[c] is None);
        }
        assert forall|c: int| 0 <= c < outs.len() implies (#[trigger] outs[c]).kind == out_kinds[c]
            && outs[c].samples.len() == n by {
            assert(out_kind[c] is None);
            assert(out_length[c] is None);
        }
    }
    if io_ready(in_kinds, out_kinds, ins, outs, n) {
        assert forall|c: int| 0 <= c < in_kind.len() implies (#[trigger] in_kind[c]) is None by {
            assert(ins[c] is Some ==> ins[c]->0.kind == in_kinds[c]);
        }
        lemma_first_some_none(in_kind);
        assert forall|c: int| 0 <= c < in_length.len() implies (#[trigger] in_length[c])
            is None by {
            assert(ins[c] is Some ==> ins[c]->0.samples.len() == n);
        }
        lemma_first_some_none(in_length);
        assert forall|c: int| 0 <= c < out_kind.len() implies (#[trigger] out_kind[c]) is None by {
            assert(outs[c].kind == out_kinds[c]);
        }
        lemma_first_some_none(out_kind);
        assert forall|c: int| 0 <= c < out_length.len() implies (#[trigger] out_length[c])
            is None by {
            assert(outs[c].samples.len() == n);
        }
        lemma_first_some_none(out_length);
    }
}

/// The kinds of a list of channel specs.
pub open spec fn spec_kinds_of(specs: Seq<SignalSpec>) -> Seq<SignalKind> {
    kinds(spec_views(specs))
}

/// The kinds a list of channel specs declares, each one required.
pub fn declared_kinds(specs: &Vec<SignalSpec>) -> (expected: Vec<Option<SignalKind>>)
    ensures
        expected@ == declared(spec_kinds_of(specs@)),
{
    let mut expected: Vec<Option<SignalKind>> = Vec::new();
    let mut c: usize = 0;
    while c < specs.len()
        invariant
            0 <= c <= specs.len(),
            expected.len() == c,
            forall|k: int| 0 <= k < c ==> (#[trigger] expected[k]) == Some(specs[k].kind),
        decreases specs.len() - c,
    {
        expected.push(Some(specs[c].kind));
        c += 1;
    }
    assert(expected@ =~= declared(spec_kinds_of(specs@)));
    expected
}

/// The first input channel of another kind than expected, if there is one.
fn check_input_kinds(expected: &Vec<Option<SignalKind>>, inputs: &Vec<Option<Channel>>) -> (fault:
    Option<IoError>)
    requires
        inputs.len() == expected.len(),
    ensures
        fault == first_some(input_kind_faults(expected@, input_views(inputs@))),
{
    let ghost ins = input_views(inputs@);
    let ghost faults = input_kind_faults(expected@, ins);
    let mut c: usize = 0;
    while c < inputs.len()
        invariant
            0 <= c <= inputs.len(),
            inputs.len() == expected.len(),
            ins == input_views(inputs@),
            faults == input_kind_faults(expected@, ins),
            forall|k: int| 0 <= k < c ==> (#[trigger] faults[k]) is None,
        decreases inputs.len() - c,
    {
        match (&inputs[c], expected[c]) {
            (Some(channel), Some(kind)) => {
                let found = channel.kind();
                if found != kind {
                    proof {
                        lemma_first_some_at(faults, c as int);
                    }
                    return Some(IoError::InputKind { channel: c, expected: kind, found });
                }
            },
            _ => {},
        }
        c += 1;
    }
    proof {
        lemma_first_some_none(faults);
    }
    None
}

/// The first output channel of another kind than expected, if there is one.
fn check_output_kinds(expected: &Vec<Option<SignalKind>>, outputs: &Vec<Channel>) -> (fault: Option<
    IoError,
>)
    requires
        outputs.len() == expected.len(),
    ensures
        fault == first_some(output_kind_faults(expected@, channel_views(outputs@))),
{
    let ghost outs = channel_views(outputs@);
    let ghost faults = output_kind_faults(expected@, outs);
    let mut c: usize = 0;
    while c < outputs.len()
        invariant
            0 <= c <= outputs.len(),
            outputs.len() == expected.len(),
            outs == channel_views(outputs@),
            faults == output_kind_faults(expected@, outs),
            forall|k: int| 0 <= k < c ==> (#[trigger] faults[k]) is None,
        decreases outputs.len() - c,
    {
        match expected[c] {
            Some(kind) => {
                let found = outputs[c].kind();
                if found != kind {
                    proof {
                        lemma_first_some_at(faults, c as int);
                    }
                    return Some(IoError::OutputKind { channel: c, expected: kind, found });
                }
            },
            None => {},
        }
        c += 1;
    }
    proof {
        lemma_first_some_none(faults);
    }
    None
}

/// The first connected input channel of another length than the block, if
/// there is one.
fn check_input_lengths(inputs: &Vec<Option<Channel>>, n: usize) -> (fault: Option<IoError>)
    ensures
        fault == first_some(input_length_faults(input_views(inputs@), n)),
{
    let ghost ins = input_views(inputs@);
    let ghost faults = input_length_faults(ins, n);
    let mut c: usize = 0;
    while c < inputs.len()
        invariant
            0 <= c <= inputs.len(),
            ins == input_views(inputs@),
            faults == input_length_faults(ins, n),
            forall|k: int| 0 <= k < c ==> (#[trigger] faults[k]) is None,
        decreases inputs.len() - c,
    {
        match &inputs[c] {
            Some(channel) => {
                if channel.len() != n {
                    proof {
                        lemma_first_some_at(faults, c as int);
                    }
                    return Some(
                        IoError::InputLength { channel: c, expected: n, found: channel.len() },
                    );
                }
            },
            None => {},
        }
        c += 1;
    }
    proof {
        lemma_first_some_none(faults);
    }
    None
}

/// The first output channel of another length than the block, if there is
/// one.
fn check_output_lengths(outputs: &Vec<Channel>, n: usize) -> (fault: Option<IoError>)
    ensures
        fault == first_some(output_length_faults(channel_views(outputs@), n)),
{
    let ghost outs = channel_views(outputs@);
    let ghost faults = output_length_faults(outs, n);
    let mut c: usize = 0;
    while c < outputs.len()
        invariant
            0 <= c <= outputs.len(),
            outs == channel_views(outputs@),
            faults == output_length_faults(outs, n),
            forall|k: int| 0 <= k < c ==> (#[trigger] faults[k]) is None,
        decreases outputs.len() - c,
    {
        if outputs[c].len() != n {
            proof {
                lemma_first_some_at(faults, c as int);
            }
            return Some(
                IoError::OutputLength { channel: c, expected: n, found: outputs[c].len() },
            );
        }
        c += 1;
    }
    proof {
        lemma_first_some_none(faults);
    }
    None
}

/// Checks the channels handed over for a block of `n` samples against the
/// kinds that are expected of them: first the number of inputs and of
/// outputs, then every kind, then every length.
pub fn check_channels(
    expected_in: &Vec<Option<SignalKind>>,
    expected_out: &Vec<Option<SignalKind>>,
    inputs: &Vec<Option<Channel>>,
    outputs: &Vec<Channel>,
    n: usize,
) -> (fault: Option<IoError>)
    ensures
        fault == io_fault(
            expected_in@,
            expected_out@,
            input_views(inputs@),
            channel_views(outputs@),
            n,
        ),
{
    if inputs.len() != expected_in.len() {
        return Some(IoError::InputCount { expected: expected_in.len(), found: inputs.len() });
    }
    if outputs.len() != expected_out.len() {
        return Some(IoError::OutputCount { expected: expected_out.len(), found: outputs.len() });
    }
    match check_input_kinds(expected_in, inputs) {
        Some(fault) => {
            return Some(fault);
        },
        None => {},
    }
    match check_output_kinds(expected_out, outputs) {
        Some(fault) => {
            return Some(fault);
        },
        None => {},
    }
    match check_input_lengths(inputs, n) {
        Some(fault) => {
            return Some(fault);
        },
        None => {},
    }
    check_output_lengths(outputs, n)
}

} // verus!

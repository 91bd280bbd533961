//! Walking the channels of a block in step: one row for each sample index,
//! holding what every input and output channel has at that index.

use crate::block::{
    check_channels, input_kind_faults, io_fault, output_kind_faults, sample_at, IoError,
};
use crate::first::lemma_first_some_absent;
use crate::channel::{channel_views, input_views, Channel, ChannelView};
use crate::decl::{Delimiter, Token};
use crate::error::DefinitionError;
use crate::signal::{signal_kind, spec_signal_kind, SignalKind, SignalValue};
use crate::syntax::{idents, is_name, read_type_list, reads_as_name, type_list};
use crate::text::same_text;
use vstd::prelude::*;

verus! {

/// A request to walk channels in step, written
/// `inputs as [T, ..], outputs as [T, ..]`: the names of the input and output
/// views, and one annotation for each channel. An annotation is a type:
/// `Any` for a channel of whatever kind, or the value type the channel must
/// carry. It is held by its identifier where it is a path of one identifier,
/// and as `None` where it is any other type.
pub struct IterProcIoAs {
    pub inputs: String,
    pub input_types: Vec<Option<String>>,
    pub outputs: String,
    pub output_types: Vec<Option<String>>,
}

/// Whether a token is a comma.
pub open spec fn is_comma(t: Token) -> bool {
    t matches Token::Punct(c) && c == ','
}

/// Whether token `k` of the first seven is what a request has in that place:
/// a name that is no keyword, `as`, a list of types in square brackets, a
/// comma, and the same three again.
pub open spec fn request_fits(tokens: Seq<Token>, k: int) -> bool {
    0 <= k < tokens.len() && (if k == 0 || k == 4 {
        tokens[k] matches Token::Ident(name) && is_name(name@)
    } else if k == 1 || k == 5 {
        tokens[k] matches Token::Ident(word) && word@ == "as"@
    } else if k == 3 {
        is_comma(tokens[k])
    } else if k == 2 || k == 6 {
        tokens[k] matches Token::Group { delimiter, text } && delimiter == Delimiter::Bracket
            && type_list(text@) is Some
    } else {
        false
    })
}

/// The tokens begin with a request.
pub open spec fn begins_with_request(tokens: Seq<Token>) -> bool {
    forall|k: int| 0 <= k < 7 ==> request_fits(tokens, k)
}

/// The name that a token is.
pub open spec fn name_of(t: Token) -> Seq<char> {
    match t {
        Token::Ident(name) => name@,
        _ => Seq::empty(),
    }
}

/// The types of the list that a token is, each by its identifier.
pub open spec fn types_in(t: Token) -> Seq<Option<Seq<char>>> {
    match t {
        Token::Group { delimiter, text } => match type_list(text@) {
            Some(types) => types,
            None => Seq::empty(),
        },
        _ => Seq::empty(),
    }
}

fn token_is_comma(t: &Token) -> (b: bool)
    ensures
        b == is_comma(*t),
{
    match t {
        Token::Punct(c) => *c == ',',
        _ => false,
    }
}

/// The name at place `k` of a request, where one stands there.
fn name_at(tokens: &Vec<Token>, k: usize) -> (name: Option<String>)
    requires
        k == 0 || k == 4,
    ensures
        name is Some == request_fits(tokens@, k as int),
        name matches Some(name) ==> name@ == name_of(tokens[k as int]),
{
    if k >= tokens.len() {
        return None;
    }
    match &tokens[k] {
        Token::Ident(name) => {
            if reads_as_name(name.as_str()) {
                Some(name.clone())
            } else {
                None
            }
        },
        _ => None,
    }
}

/// Whether `as` stands at place `k` of a request.
fn as_at(tokens: &Vec<Token>, k: usize) -> (found: bool)
    requires
        k == 1 || k == 5,
    ensures
        found == request_fits(tokens@, k as int),
{
    if k >= tokens.len() {
        return false;
    }
    match &tokens[k] {
        Token::Ident(word) => same_text(word.as_str(), "as"),
        _ => false,
    }
}

/// The types of the list at place `k` of a request, where a list of types
/// stands there.
fn list_at(tokens: &Vec<Token>, k: usize) -> (list: Option<Vec<Option<String>>>)
    requires
        k == 2 || k == 6,
    ensures
        list is Some == request_fits(tokens@, k as int),
        list matches Some(list) ==> idents(list@) == types_in(tokens[k as int]),
{
    if k >= tokens.len() {
        return None;
    }
    match &tokens[k] {
        Token::Group { delimiter, text } => {
            if *delimiter == Delimiter::Bracket {
                read_type_list(text.as_str())
            } else {
                None
            }
        },
        _ => None,
    }
}

impl IterProcIoAs {
    /// Reads a request from the front of the tokens
    /// `inputs as [T, ..], outputs as [T, ..]`.
    ///
    /// A request is seven tokens: a name that is no keyword, `as`, a list of
    /// types in square brackets, a comma, and again a name, `as` and a list.
    /// In a list, commas separate the types; the list may be empty, and a
    /// comma may follow the last type. The request is read where the tokens
    /// begin with one, whatever follows it. Otherwise the first of the seven
    /// that is missing, or is not what stands in its place, is the error; a
    /// list that holds something that is no type is the error at that list.
    pub fn parse(tokens: &Vec<Token>) -> (r: Result<IterProcIoAs, DefinitionError>)
        ensures
            match r {
                Ok(request) => {
                    &&& begins_with_request(tokens@)
                    &&& request.inputs@ == name_of(tokens[0])
                    &&& idents(request.input_types@) == types_in(tokens[2])
                    &&& request.outputs@ == name_of(tokens[4])
                    &&& idents(request.output_types@) == types_in(tokens[6])
                },
                Err(e) => exists|k: usize|
                    {
                        &&& k < 7
                        &&& e == (DefinitionError::Syntax { token: k })
                        &&& !request_fits(tokens@, k as int)
                        &&& forall|j: int| 0 <= j < k ==> request_fits(tokens@, j)
                    },
            },
    {
        let inputs = match name_at(tokens, 0) {
            Some(name) => name,
            None => {
                return Err(DefinitionError::Syntax { token: 0 });
            },
        };
        if !as_at(tokens, 1) {
            return Err(DefinitionError::Syntax { token: 1 });
        }
        let input_types = match list_at(tokens, 2) {
            Some(list) => list,
            None => {
                return Err(DefinitionError::Syntax { token: 2 });
            },
        };
        if tokens.len() <= 3 || !token_is_comma(&tokens[3]) {
            assert(!request_fits(tokens@, 3));
            return Err(DefinitionError::Syntax { token: 3 });
        }
        let outputs = match name_at(tokens, 4) {
            Some(name) => name,
            None => {
                return Err(DefinitionError::Syntax { token: 4 });
            },
        };
        if !as_at(tokens, 5) {
            return Err(DefinitionError::Syntax { token: 5 });
        }
        let output_types = match list_at(tokens, 6) {
            Some(list) => list,
            None => {
                return Err(DefinitionError::Syntax { token: 6 });
            },
        };
        assert(request_fits(tokens@, 3));
        Ok(IterProcIoAs { inputs, input_types, outputs, output_types })
    }
}

/// How the channels of a request are walked: for each channel the kind it
/// must have, or `None` where it is taken as it comes.
pub struct ZipPlan {
    pub inputs: String,
    pub input_kinds: Vec<Option<SignalKind>>,
    pub outputs: String,
    pub output_kinds: Vec<Option<SignalKind>>,
}

/// Whether an annotation is `Any`.
pub open spec fn is_any(annotation: Option<Seq<char>>) -> bool {
    annotation == Some("Any"@)
}

/// The kind of the type an annotation names.
pub open spec fn named_kind(annotation: Option<Seq<char>>) -> Option<SignalKind> {
    match annotation {
        Some(name) => spec_signal_kind(name),
        None => None,
    }
}

/// An annotation is `Any` or the name of a type with a signal kind.
pub open spec fn annotation_valid(annotation: Option<Seq<char>>) -> bool {
    is_any(annotation) || named_kind(annotation) is Some
}

/// The kind an annotation asks for: none for `Any`.
pub open spec fn annotation_kind(annotation: Option<Seq<char>>) -> Option<SignalKind> {
    if is_any(annotation) {
        None
    } else {
        named_kind(annotation)
    }
}

/// The kinds a list of annotations asks for.
pub open spec fn annotation_kinds(types: Seq<Option<Seq<char>>>) -> Seq<Option<SignalKind>> {
    types.map_values(|annotation: Option<Seq<char>>| annotation_kind(annotation))
}

/// `at` is the position of the first annotation that is not valid.
pub open spec fn first_invalid(types: Seq<Option<Seq<char>>>, at: int) -> bool {
    &&& 0 <= at < types.len()
    &&& !annotation_valid(types[at])
    &&& forall|j: int| 0 <= j < at ==> annotation_valid(#[trigger] types[j])
}

/// Every annotation is valid.
pub open spec fn all_valid(types: Seq<Option<Seq<char>>>) -> bool {
    forall|j: int| 0 <= j < types.len() ==> annotation_valid(#[trigger] types[j])
}

/// Reads a list of annotations, or gives the position of the first that is
/// not valid.
fn read_annotations(types: &Vec<Option<String>>) -> (r: Result<Vec<Option<SignalKind>>, usize>)
    ensures
        match r {
            Ok(kinds) => all_valid(idents(types@)) && kinds@ == annotation_kinds(idents(types@)),
            Err(at) => first_invalid(idents(types@), at as int),
        },
{
    let mut kinds: Vec<Option<SignalKind>> = Vec::new();
    let mut i: usize = 0;
    while i < types.len()
        invariant
            0 <= i <= types.len(),
            kinds.len() == i,
            forall|j: int| 0 <= j < i ==> annotation_valid(#[trigger] idents(types@)[j]),
            forall|j: int|
                0 <= j < i ==> (#[trigger] kinds[j]) == annotation_kind(idents(types@)[j]),
        decreases types.len() - i,
    {
        match &types[i] {
            Some(name) => {
                assert(idents(types@)[i as int] == Some(name@));
                if same_text(name.as_str(), "Any") {
                    kinds.push(None);
                } else {
                    match signal_kind(name.as_str()) {
                        Some(kind) => {
                            kinds.push(Some(kind));
                        },
                        None => {
                            return Err(i);
                        },
                    }
                }
            },
            None => {
                assert(idents(types@)[i as int] is None);
                return Err(i);
            },
        }
        i += 1;
    }
    assert(kinds@ =~= annotation_kinds(idents(types@)));
    Ok(kinds)
}

/// What planning the walk over a request's channels comes to: the plan, or
/// the first annotation that is neither `Any` nor a type with a signal
/// kind, the inputs before the outputs.
pub open spec fn request_planned(
    request: IterProcIoAs,
    r: Result<ZipPlan, DefinitionError>,
) -> bool {
    let input_types = idents(request.input_types@);
    let output_types = idents(request.output_types@);
    match r {
        Ok(plan) => {
            &&& all_valid(input_types)
            &&& all_valid(output_types)
            &&& plan.inputs@ == request.inputs@
            &&& plan.outputs@ == request.outputs@
            &&& plan.input_kinds@ == annotation_kinds(input_types)
            &&& plan.output_kinds@ == annotation_kinds(output_types)
        },
        Err(e) => {
            ||| exists|at: usize| #[trigger]
                first_invalid(input_types, at as int) && e
                    == (DefinitionError::UnmappedInput { channel: at })
            ||| all_valid(input_types) && exists|at: usize| #[trigger]
                first_invalid(output_types, at as int) && e
                    == (DefinitionError::UnmappedOutput { channel: at })
        },
    }
}

/// Plans the walk over the channels of a request.
///
/// Each annotation is read in order, the inputs before the outputs: `Any`
/// asks for no check, the name of a type with a signal kind asks for that
/// kind, and the first annotation that is neither refuses the request.
pub fn plan_request(request: &IterProcIoAs) -> (r: Result<ZipPlan, DefinitionError>)
    ensures
        request_planned(*request, r),
{
    let input_kinds = match read_annotations(&request.input_types) {
        Ok(kinds) => kinds,
        Err(at) => {
            return Err(DefinitionError::UnmappedInput { channel: at });
        },
    };
    let output_kinds = match read_annotations(&request.output_types) {
        Ok(kinds) => kinds,
        Err(at) => {
            return Err(DefinitionError::UnmappedOutput { channel: at });
        },
    };
    Ok(
        ZipPlan {
            inputs: request.inputs.clone(),
            input_kinds,
            outputs: request.outputs.clone(),
            output_kinds,
        },
    )
}

/// Plans the walk that a macro's whole input asks for.
///
/// The input must begin with a request; the first of its seven tokens that
/// is missing or out of place is the error. Nothing may follow the request:
/// an eighth token is the error then. The request that is read is planned as
/// `plan_request` plans it.
pub fn iter_proc_io_as(tokens: &Vec<Token>) -> (r: Result<ZipPlan, DefinitionError>)
    ensures
        !begins_with_request(tokens@) ==> exists|k: usize|
            {
                &&& k < 7
                &&& r matches Err(e) && e == (DefinitionError::Syntax { token: k })
                &&& !request_fits(tokens@, k as int)
                &&& forall|j: int| 0 <= j < k ==> request_fits(tokens@, j)
            },
        begins_with_request(tokens@) && tokens.len() > 7 ==> (r matches Err(e) && e
            == (DefinitionError::Syntax { token: 7 })),
        begins_with_request(tokens@) && tokens.len() == 7 ==> exists|request: IterProcIoAs|
            {
                &&& request.inputs@ == name_of(tokens[0])
                &&& idents(request.input_types@) == types_in(tokens[2])
                &&& request.outputs@ == name_of(tokens[4])
                &&& idents(request.output_types@) == types_in(tokens[6])
                &&& #[trigger] request_planned(request, r)
            },
{
    let request = match IterProcIoAs::parse(tokens) {
        Ok(request) => request,
        Err(e) => {
            return Err(e);
        },
    };
    assert(request_fits(tokens@, 6));
    if tokens.len() > 7 {
        return Err(DefinitionError::Syntax { token: 7 });
    }
    let r = plan_request(&request);
    assert(request_planned(request, r));
    r
}

/// What output channel `c` holds at index `i`: `None` where it has no such
/// channel or index, or no value there.
pub open spec fn slot_at(outs: Seq<ChannelView>, c: int, i: int) -> Option<SignalValue> {
    if 0 <= c < outs.len() && outs[c].present(i) {
        outs[c].samples[i]
    } else {
        None
    }
}

/// A checked channel hands out values of the kind asked for: where channels
/// pass the check for a block, every sample present on a connected input that
/// the plan checks has that input's kind, and so has every sample present on
/// an output that the plan checks.
pub proof fn lemma_checked_samples(
    expected_in: Seq<Option<SignalKind>>,
    expected_out: Seq<Option<SignalKind>>,
    ins: Seq<Option<ChannelView>>,
    outs: Seq<ChannelView>,
    n: usize,
)
    requires
        io_fault(expected_in, expected_out, ins, outs, n) is None,
        forall|c: int|
            0 <= c < ins.len() ==> ((#[trigger] ins[c]) matches Some(channel)
                ==> channel.well_formed()),
        forall|c: int| 0 <= c < outs.len() ==> (#[trigger] outs[c]).well_formed(),
    ensures
        forall|c: int, i: int|
            0 <= c < ins.len() && expected_in[c] is Some ==> ((#[trigger] sample_at(
                ins,
                c,
                i,
            )) matches Some(value) ==> Some(value.spec_kind()) == expected_in[c]),
        forall|c: int, i: int|
            0 <= c < outs.len() && expected_out[c] is Some ==> ((#[trigger] slot_at(
                outs,
                c,
                i,
            )) matches Some(value) ==> Some(value.spec_kind()) == expected_out[c]),
{
    let in_faults = input_kind_faults(expected_in, ins);
    let out_faults = output_kind_faults(expected_out, outs);
    lemma_first_some_absent(in_faults);
    lemma_first_some_absent(out_faults);
    assert forall|c: int, i: int|
        0 <= c < ins.len() && expected_in[c] is Some implies ((#[trigger] sample_at(
        ins,
        c,
        i,
    )) matches Some(value) ==> Some(value.spec_kind()) == expected_in[c]) by {
        assert(in_faults[c] is None);
    }
    assert forall|c: int, i: int|
        0 <= c < outs.len() && expected_out[c] is Some implies ((#[trigger] slot_at(
        outs,
        c,
        i,
    )) matches Some(value) ==> Some(value.spec_kind()) == expected_out[c]) by {
        assert(out_faults[c] is None);
    }
}

/// One step of the walk: the index, and what each input and each output
/// channel holds there.
#[derive(Debug, PartialEq, Eq)]
pub struct IoRow {
    pub index: usize,
    pub inputs: Vec<Option<SignalValue>>,
    pub outputs: Vec<Option<SignalValue>>,
}

/// The input samples at index `i`, one for each channel.
pub open spec fn input_row(ins: Seq<Option<ChannelView>>, i: int) -> Seq<Option<SignalValue>> {
    Seq::new(ins.len(), |c: int| sample_at(ins, c, i))
}

/// The output samples at index `i`, one for each channel.
pub open spec fn output_row(outs: Seq<ChannelView>, i: int) -> Seq<Option<SignalValue>> {
    Seq::new(outs.len(), |c: int| slot_at(outs, c, i))
}

/// A walk over the channels of one block, in step. It goes forward only: it
/// yields one row for each index from zero up to the block's size, and then
/// nothing.
pub struct ZippedIo<'a> {
    inputs: &'a Vec<Option<Channel>>,
    outputs: Vec<Channel>,
    block_size: usize,
    position: usize,
}

/// A walk as a value of specifications.
#[verifier::ext_equal]
pub struct ZipView {
    pub ins: Seq<Option<ChannelView>>,
    pub outs: Seq<ChannelView>,
    pub block_size: usize,
    /// How many rows were yielded.
    pub position: usize,
}

impl<'a> View for ZippedIo<'a> {
    type V = ZipView;

    closed spec fn view(&self) -> ZipView {
        ZipView {
            ins: input_views(self.inputs@),
            outs: channel_views(self.outputs@),
            block_size: self.block_size,
            position: self.position,
        }
    }
}

/// Channels that were refused for a walk: why, and the output channels,
/// handed back as they came.
#[derive(Debug, PartialEq, Eq)]
pub struct ZipRefused {
    pub fault: IoError,
    pub outputs: Vec<Channel>,
}

impl ZipPlan {
    /// Begins a walk over the channels of a block of `block_size` samples.
    ///
    /// The channels are refused where their number is not the plan's, where
    /// a channel that the plan checks has another kind than asked for, or
    /// where a channel has another length than the block, and nothing is
    /// walked then. The numbers are compared first, then the kinds, then the
    /// lengths, and the first fault found is reported. A channel taken as it
    /// comes is not checked for its kind.
    pub fn zip<'a>(
        &self,
        inputs: &'a Vec<Option<Channel>>,
        outputs: Vec<Channel>,
        block_size: usize,
    ) -> (r: Result<ZippedIo<'a>, ZipRefused>)
        ensures
            match r {
                Ok(walk) => {
                    &&& io_fault(
                        self.input_kinds@,
                        self.output_kinds@,
                        input_views(inputs@),
                        channel_views(outputs@),
                        block_size,
                    ) is None
                    &&& walk@ == (ZipView {
                        ins: input_views(inputs@),
                        outs: channel_views(outputs@),
                        block_size,
                        position: 0,
                    })
                },
                Err(refused) => {
                    &&& io_fault(
                        self.input_kinds@,
                        self.output_kinds@,
                        input_views(inputs@),
                        channel_views(outputs@),
                        block_size,
                    ) == Some(refused.fault)
                    &&& channel_views(refused.outputs@) == channel_views(outputs@)
                },
            },
    {
        match check_channels(&self.input_kinds, &self.output_kinds, inputs, &outputs, block_size) {
            Some(fault) => Err(ZipRefused { fault, outputs }),
            None => Ok(ZippedIo { inputs, outputs, block_size, position: 0 }),
        }
    }
}

impl<'a> ZippedIo<'a> {
    /// The next row: the one of the index that follows the last row yielded,
    /// as long as the block has such an index.
    pub fn next(&mut self) -> (row: Option<IoRow>)
        ensures
            old(self)@.position < old(self)@.block_size ==> {
                &&& row matches Some(row)
                &&& row.index == old(self)@.position
                &&& row.inputs@ == input_row(old(self)@.ins, row.index as int)
                &&& row.outputs@ == output_row(old(self)@.outs, row.index as int)
                &&& final(self)@ == (ZipView {
                    position: (old(self)@.position + 1) as usize,
                    ..old(self)@
                })
            },
            old(self)@.position >= old(self)@.block_size ==> row is None && final(self)@ == old(
                self,
            )@,
    {
        if self.position >= self.block_size {
            return None;
        }
        let index = self.position;
        let ghost ins = input_views(self.inputs@);
        let ghost outs = channel_views(self.outputs@);
        let mut inputs: Vec<Option<SignalValue>> = Vec::new();
        let mut c: usize = 0;
        while c < self.inputs.len()
            invariant
                0 <= c <= self.inputs.len(),
                ins == input_views(self.inputs@),
                inputs.len() == c,
                forall|k: int| 0 <= k < c ==> (#[trigger] inputs[k]) == sample_at(ins, k, index as int),
            decreases self.inputs.len() - c,
        {
            let sample = match &self.inputs[c] {
                Some(channel) => {
                    assert(ins[c as int] == Some(channel@));
                    if index < channel.len() {
                        channel.get(index)
                    } else {
                        None
                    }
                },
                None => {
                    assert(ins[c as int] is None);
                    None
                },
            };
            inputs.push(sample);
            c += 1;
        }
        assert(inputs@ =~= input_row(ins, index as int));
        let mut outputs: Vec<Option<SignalValue>> = Vec::new();
        let mut c: usize = 0;
        while c < self.outputs.len()
            invariant
                0 <= c <= self.outputs.len(),
                outs == channel_views(self.outputs@),
                outputs.len() == c,
                forall|k: int| 0 <= k < c ==> (#[trigger] outputs[k]) == slot_at(outs, k, index as int),
            decreases self.outputs.len() - c,
        {
            let channel = &self.outputs[c];
            assert(outs[c as int] == channel@);
            let sample = if index < channel.len() {
                channel.get(index)
            } else {
                None
            };
            outputs.push(sample);
            c += 1;
        }
        assert(outputs@ =~= output_row(outs, index as int));
        self.position = index + 1;
        Some(IoRow { index, inputs, outputs })
    }

    /// Writes `value` into output channel `channel` at the index of the row
    /// last yielded, and reports whether it did: there must be such a row,
    /// channel and index, and the value must have the channel's kind.
    pub fn write(&mut self, channel: usize, value: SignalValue) -> (written: bool)
        ensures
            written == {
                &&& old(self)@.position > 0
                &&& channel < old(self)@.outs.len()
                &&& old(self)@.position - 1 < old(self)@.outs[channel as int].samples.len()
                &&& value.spec_kind() == old(self)@.outs[channel as int].kind
            },
            written ==> final(self)@ == (ZipView {
                outs: old(self)@.outs.update(
                    channel as int,
                    ChannelView {
                        kind: old(self)@.outs[channel as int].kind,
                        samples: old(self)@.outs[channel as int].samples.update(
                            old(self)@.position - 1,
                            Some(value),
                        ),
                    },
                ),
                ..old(self)@
            }),
            !written ==> final(self)@ == old(self)@,
    {
        if self.position == 0 || channel >= self.outputs.len() {
            return false;
        }
        let index = self.position - 1;
        assert(channel_views(self.outputs@)[channel as int] == self.outputs[channel as int]@);
        if index >= self.outputs[channel].len() {
            return false;
        }
        let ghost before = self.outputs@;
        let written = self.outputs[channel].put(index, value);
        proof {
            assert(forall|k: int|
                0 <= k < before.len() && k != channel ==> self.outputs[k] == before[k]);
            if written {
                assert(channel_views(self.outputs@) =~~= channel_views(before).update(
                    channel as int,
                    ChannelView {
                        kind: before[channel as int]@.kind,
                        samples: before[channel as int]@.samples.update(
                            index as int,
                            Some(value),
                        ),
                    },
                ));
            } else {
                assert(channel_views(self.outputs@) =~~= channel_views(before));
            }
        }
        written
    }

    /// How many rows are still to come.
    pub fn remaining(&self) -> (n: usize)
        ensures
            n == if self@.position < self@.block_size {
                self@.block_size - self@.position
            } else {
                0
            },
    {
        if self.position < self.block_size {
            self.block_size - self.position
        } else {
            0
        }
    }

    /// Ends the walk and hands back the output channels.
    pub fn into_outputs(self) -> (outputs: Vec<Channel>)
        ensures
            channel_views(outputs@) == self@.outs,
    {
        self.outputs
    }
}

} // verus!

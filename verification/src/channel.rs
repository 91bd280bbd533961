//! Channels: the buffers of one block, one per input or output of a unit.

use crate::signal::{SignalKind, SignalValue};
use vstd::prelude::*;

verus! {

/// The samples of one channel over one block, stored by kind. A sample may be
/// absent.
#[derive(Debug, PartialEq, Eq)]
pub enum Channel {
    Bool(Vec<Option<bool>>),
    Float(Vec<Option<u64>>),
    Int(Vec<Option<i64>>),
    Midi(Vec<Option<(u8, u8, u8)>>),
}

/// A channel as a value of specifications: its kind and its samples.
#[verifier::ext_equal]
pub struct ChannelView {
    pub kind: SignalKind,
    pub samples: Seq<Option<SignalValue>>,
}

impl ChannelView {
    /// Every sample that is present has the channel's kind.
    pub open spec fn well_formed(self) -> bool {
        forall|i: int|
            0 <= i < self.samples.len() ==> ((#[trigger] self.samples[i]) matches Some(v)
                ==> v.spec_kind() == self.kind)
    }

    /// Whether the channel holds a value at index `i`.
    pub open spec fn present(self, i: int) -> bool {
        0 <= i < self.samples.len() && self.samples[i] is Some
    }
}

pub open spec fn lift_bool(sample: Option<bool>) -> Option<SignalValue> {
    match sample {
        Some(b) => Some(SignalValue::Bool(b)),
        None => None,
    }
}

pub open spec fn lift_float(sample: Option<u64>) -> Option<SignalValue> {
    match sample {
        Some(bits) => Some(SignalValue::Float(bits)),
        None => None,
    }
}

pub open spec fn lift_int(sample: Option<i64>) -> Option<SignalValue> {
    match sample {
        Some(n) => Some(SignalValue::Int(n)),
        None => None,
    }
}

pub open spec fn lift_midi(sample: Option<(u8, u8, u8)>) -> Option<SignalValue> {
    match sample {
        Some(m) => Some(SignalValue::Midi(m.0, m.1, m.2)),
        None => None,
    }
}

impl View for Channel {
    type V = ChannelView;

    open spec fn view(&self) -> ChannelView {
        match self {
            Channel::Bool(v) => ChannelView {
                kind: SignalKind::Bool,
                samples: v@.map_values(|s: Option<bool>| lift_bool(s)),
            },
            Channel::Float(v) => ChannelView {
                kind: SignalKind::Float,
                samples: v@.map_values(|s: Option<u64>| lift_float(s)),
            },
            Channel::Int(v) => ChannelView {
                kind: SignalKind::Int,
                samples: v@.map_values(|s: Option<i64>| lift_int(s)),
            },
            Channel::Midi(v) => ChannelView {
                kind: SignalKind::Midi,
                samples: v@.map_values(|s: Option<(u8, u8, u8)>| lift_midi(s)),
            },
        }
    }
}

/// The views of a list of channels.
pub open spec fn channel_views(channels: Seq<Channel>) -> Seq<ChannelView> {
    channels.map_values(|c: Channel| c@)
}

/// The views of a list of channels of which some may be unconnected.
pub open spec fn input_views(channels: Seq<Option<Channel>>) -> Seq<Option<ChannelView>> {
    channels.map_values(
        |c: Option<Channel>|
            match c {
                Some(c) => Some(c@),
                None => None,
            },
    )
}

impl Channel {
    /// A channel's samples all have its kind.
    pub proof fn lemma_well_formed(&self)
        ensures
            self@.well_formed(),
    {
    }

    /// The channel's kind.
    pub fn kind(&self) -> (kind: SignalKind)
        ensures
            kind == self@.kind,
    {
        match self {
            Channel::Bool(_) => SignalKind::Bool,
            Channel::Float(_) => SignalKind::Float,
            Channel::Int(_) => SignalKind::Int,
            Channel::Midi(_) => SignalKind::Midi,
        }
    }

    /// The number of samples the channel has room for.
    pub fn len(&self) -> (n: usize)
        ensures
            n == self@.samples.len(),
    {
        match self {
            Channel::Bool(v) => v.len(),
            Channel::Float(v) => v.len(),
            Channel::Int(v) => v.len(),
            Channel::Midi(v) => v.len(),
        }
    }

    /// The sample at index `i`, type-erased; `None` where it is absent.
    pub fn get(&self, i: usize) -> (sample: Option<SignalValue>)
        requires
            i < self@.samples.len(),
        ensures
            sample == self@.samples[i as int],
    {
        match self {
            Channel::Bool(v) => match v[i] {
                Some(b) => Some(SignalValue::Bool(b)),
                None => None,
            },
            Channel::Float(v) => match v[i] {
                Some(bits) => Some(SignalValue::Float(bits)),
                None => None,
            },
            Channel::Int(v) => match v[i] {
                Some(n) => Some(SignalValue::Int(n)),
                None => None,
            },
            Channel::Midi(v) => match v[i] {
                Some(m) => Some(SignalValue::Midi(m.0, m.1, m.2)),
                None => None,
            },
        }
    }

    /// Writes `value` at index `i` where it has the channel's kind, and
    /// reports whether it did.
    pub fn put(&mut self, i: usize, value: SignalValue) -> (written: bool)
        requires
            i < old(self)@.samples.len(),
        ensures
            written == (value.spec_kind() == old(self)@.kind),
            final(self)@.kind == old(self)@.kind,
            written ==> final(self)@.samples == old(self)@.samples.update(i as int, Some(value)),
            !written ==> final(self)@ == old(self)@,
    {
        match (self, value) {
            (Channel::Bool(v), SignalValue::Bool(b)) => {
                v[i] = Some(b);
                assert(v@.map_values(|s: Option<bool>| lift_bool(s)) =~= old(self)@.samples.update(
                    i as int,
                    Some(value),
                ));
                true
            },
            (Channel::Float(v), SignalValue::Float(bits)) => {
                v[i] = Some(bits);
                assert(v@.map_values(|s: Option<u64>| lift_float(s)) =~= old(
                    self,
                )@.samples.update(i as int, Some(value)));
                true
            },
            (Channel::Int(v), SignalValue::Int(n)) => {
                v[i] = Some(n);
                assert(v@.map_values(|s: Option<i64>| lift_int(s)) =~= old(self)@.samples.update(
                    i as int,
                    Some(value),
                ));
                true
            },
            (Channel::Midi(v), SignalValue::Midi(a, b, c)) => {
                v[i] = Some((a, b, c));
                assert(v@.map_values(|s: Option<(u8, u8, u8)>| lift_midi(s)) =~= old(
                    self,
                )@.samples.update(i as int, Some(value)));
                true
            },
            _ => false,
        }
    }

    /// A copy of the channel.
    pub fn duplicate(&self) -> (copy: Channel)
        ensures
            copy@ == self@,
    {
        match self {
            Channel::Bool(v) => Channel::Bool(copy_items(v)),
            Channel::Float(v) => Channel::Float(copy_items(v)),
            Channel::Int(v) => Channel::Int(copy_items(v)),
            Channel::Midi(v) => Channel::Midi(copy_items(v)),
        }
    }

    /// A channel of `size` samples, each the zero of `kind` where `present`
    /// is set, and absent otherwise.
    fn filled(kind: SignalKind, size: usize, present: bool) -> (channel: Channel)
        ensures
            channel@.kind == kind,
            channel@.samples == Seq::new(
                size as nat,
                |i: int|
                    if present {
                        Some(SignalValue::spec_zero(kind))
                    } else {
                        None
                    },
            ),
    {
        match kind {
            SignalKind::Bool => {
                let v = repeat(if present { Some(false) } else { None }, size);
                let channel = Channel::Bool(v);
                assert(channel@.samples =~= Seq::new(
                    size as nat,
                    |i: int|
                        if present {
                            Some(SignalValue::spec_zero(kind))
                        } else {
                            None
                        },
                ));
                channel
            },
            SignalKind::Float => {
                let v = repeat(if present { Some(0u64) } else { None }, size);
                let channel = Channel::Float(v);
                assert(channel@.samples =~= Seq::new(
                    size as nat,
                    |i: int|
                        if present {
                            Some(SignalValue::spec_zero(kind))
                        } else {
                            None
                        },
                ));
                channel
            },
            SignalKind::Int => {
                let v = repeat(if present { Some(0i64) } else { None }, size);
                let channel = Channel::Int(v);
                assert(channel@.samples =~= Seq::new(
                    size as nat,
                    |i: int|
                        if present {
                            Some(SignalValue::spec_zero(kind))
                        } else {
                            None
                        },
                ));
                channel
            },
            SignalKind::Midi => {
                let v = repeat(if present { Some((0u8, 0u8, 0u8)) } else { None }, size);
                let channel = Channel::Midi(v);
                assert(channel@.samples =~= Seq::new(
                    size as nat,
                    |i: int|
                        if present {
                            Some(SignalValue::spec_zero(kind))
                        } else {
                            None
                        },
                ));
                channel
            },
        }
    }

    /// A channel of `size` samples, each the zero of `kind`.
    pub fn zeros(kind: SignalKind, size: usize) -> (channel: Channel)
        ensures
            channel@.kind == kind,
            channel@.samples == Seq::new(
                size as nat,
                |i: int| Some(SignalValue::spec_zero(kind)),
            ),
    {
        let channel = Channel::filled(kind, size, true);
        assert(channel@.samples =~= Seq::new(
            size as nat,
            |i: int| Some(SignalValue::spec_zero(kind)),
        ));
        channel
    }

    /// A channel of `size` samples, each absent.
    pub fn absent(kind: SignalKind, size: usize) -> (channel: Channel)
        ensures
            channel@.kind == kind,
            channel@.samples == Seq::new(size as nat, |i: int| None::<SignalValue>),
    {
        let channel = Channel::filled(kind, size, false);
        assert(channel@.samples =~= Seq::new(size as nat, |i: int| None::<SignalValue>));
        channel
    }
}

/// A copy of a vector.
fn copy_items<T: Copy>(items: &Vec<T>) -> (copy: Vec<T>)
    ensures
        copy@ == items@,
{
    let mut copy: Vec<T> = Vec::new();
    let mut i: usize = 0;
    while i < items.len()
        invariant
            0 <= i <= items.len(),
            copy@ == items@.take(i as int),
        decreases items.len() - i,
    {
        copy.push(items[i]);
        assert(copy@ =~= items@.take(i + 1));
        i += 1;
    }
    assert(items@.take(i as int) =~= items@);
    copy
}

/// A vector of `size` copies of `item`.
fn repeat<T: Copy>(item: T, size: usize) -> (v: Vec<T>)
    ensures
        v@ == Seq::new(size as nat, |i: int| item),
{
    let mut v: Vec<T> = Vec::new();
    let mut i: usize = 0;
    while i < size
        invariant
            0 <= i <= size,
            v@ == Seq::new(i as nat, |k: int| item),
        decreases size - i,
    {
        v.push(item);
        assert(v@ =~= Seq::new((i + 1) as nat, |k: int| item));
        i += 1;
    }
    v
}

} // verus!

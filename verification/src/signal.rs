//! Signal kinds, the values that travel on channels, and the mapping from a
//! declared value type to its kind.

use crate::text::same_text;
use vstd::prelude::*;

verus! {

/// The closed set of value domains a channel can carry.
#[derive(Clone, Copy, Debug, PartialEq, Eq, Structural)]
pub enum SignalKind {
    Bool,
    Float,
    Int,
    Midi,
}

/// One value on a channel. A floating-point sample is carried as the bits of
/// its 64-bit representation; the library moves values and never computes
/// with them.
#[derive(Clone, Copy, Debug, PartialEq, Eq, Structural)]
pub enum SignalValue {
    Bool(bool),
    Float(u64),
    Int(i64),
    Midi(u8, u8, u8),
}

impl SignalValue {
    pub open spec fn spec_kind(self) -> SignalKind {
        match self {
            SignalValue::Bool(_) => SignalKind::Bool,
            SignalValue::Float(_) => SignalKind::Float,
            SignalValue::Int(_) => SignalKind::Int,
            SignalValue::Midi(_, _, _) => SignalKind::Midi,
        }
    }

    /// The kind this value belongs to.
    #[verifier::when_used_as_spec(spec_kind)]
    pub fn kind(self) -> (k: SignalKind)
        ensures
            k == self.spec_kind(),
    {
        match self {
            SignalValue::Bool(_) => SignalKind::Bool,
            SignalValue::Float(_) => SignalKind::Float,
            SignalValue::Int(_) => SignalKind::Int,
            SignalValue::Midi(_, _, _) => SignalKind::Midi,
        }
    }

    pub open spec fn spec_zero(kind: SignalKind) -> SignalValue {
        match kind {
            SignalKind::Bool => SignalValue::Bool(false),
            SignalKind::Float => SignalValue::Float(0),
            SignalKind::Int => SignalValue::Int(0),
            SignalKind::Midi => SignalValue::Midi(0, 0, 0),
        }
    }

    /// The zero of a kind: `false`, `0.0`, `0`, or the all-zero event.
    #[verifier::when_used_as_spec(spec_zero)]
    pub fn zero(kind: SignalKind) -> (v: SignalValue)
        ensures
            v == SignalValue::spec_zero(kind),
            v.spec_kind() == kind,
    {
        match kind {
            SignalKind::Bool => SignalValue::Bool(false),
            SignalKind::Float => SignalValue::Float(0),
            SignalKind::Int => SignalValue::Int(0),
            SignalKind::Midi => SignalValue::Midi(0, 0, 0),
        }
    }
}

/// The kind of a value type given by name: `f32` and `f64` are `Float`,
/// `bool` is `Bool`, `i64` is `Int`, `MidiMessage` is `Midi`. No other name
/// has a kind.
pub open spec fn spec_signal_kind(ty_name: Seq<char>) -> Option<SignalKind> {
    if ty_name == "f32"@ || ty_name == "f64"@ {
        Some(SignalKind::Float)
    } else if ty_name == "bool"@ {
        Some(SignalKind::Bool)
    } else if ty_name == "i64"@ {
        Some(SignalKind::Int)
    } else if ty_name == "MidiMessage"@ {
        Some(SignalKind::Midi)
    } else {
        None
    }
}

/// Maps the name of a value type to its signal kind, or to `None` where the
/// type has none. There is no default kind.
pub fn signal_kind(ty_name: &str) -> (kind: Option<SignalKind>)
    ensures
        kind == spec_signal_kind(ty_name@),
{
    if same_text(ty_name, "f32") || same_text(ty_name, "f64") {
        Some(SignalKind::Float)
    } else if same_text(ty_name, "bool") {
        Some(SignalKind::Bool)
    } else if same_text(ty_name, "i64") {
        Some(SignalKind::Int)
    } else if same_text(ty_name, "MidiMessage") {
        Some(SignalKind::Midi)
    } else {
        None
    }
}

/// The name and kind of one channel, as a unit reports it.
#[derive(Debug)]
pub struct SignalSpec {
    pub name: String,
    pub kind: SignalKind,
}

impl View for SignalSpec {
    type V = (Seq<char>, SignalKind);

    open spec fn view(&self) -> (Seq<char>, SignalKind) {
        (self.name@, self.kind)
    }
}

impl SignalSpec {
    pub fn new(name: &str, kind: SignalKind) -> (spec: SignalSpec)
        ensures
            spec@ == (name@, kind),
    {
        SignalSpec { name: String::from_str(name), kind }
    }

    /// A copy with the same name and kind.
    pub fn duplicate(&self) -> (spec: SignalSpec)
        ensures
            spec@ == self@,
    {
        SignalSpec { name: self.name.clone(), kind: self.kind }
    }
}

/// The names and kinds of a list of channel specs.
pub open spec fn spec_views(specs: Seq<SignalSpec>) -> Seq<(Seq<char>, SignalKind)> {
    specs.map_values(|s: SignalSpec| s@)
}

} // verus!

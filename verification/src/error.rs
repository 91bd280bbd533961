//! The errors of a definition, each with the place it points at.

use vstd::prelude::*;

verus! {

/// Why a definition is refused. `argument` counts the attribute's arguments
/// and `parameter` the function's parameters, both from zero.
#[derive(Clone, Copy, Debug, PartialEq, Eq, Structural)]
pub enum DefinitionError {
    /// Attribute arguments that cannot be read as a list of arguments.
    UnreadableAttribute,
    /// An argument that is a bare word.
    UnknownWordAttribute { argument: usize },
    /// A list argument other than `derive`.
    UnknownListAttribute { argument: usize },
    /// An item of `derive` that is not one bare identifier.
    MalformedDerive { argument: usize },
    /// `allocate = ...` whose value is not a path.
    AllocateNotPath { argument: usize },
    /// `resize_buffers = ...` whose value is not a path.
    ResizeBuffersNotPath { argument: usize },
    /// A named argument other than `allocate` and `resize_buffers`.
    UnknownNamedAttribute { argument: usize },
    /// A parameter without a role: a receiver, or no attribute at all.
    MissingRole { parameter: usize },
    /// A second environment parameter.
    DuplicateEnvironment { parameter: usize },
    /// A role attribute that is none of `state`, `input`, `output`.
    UnknownRole { parameter: usize },
    /// A state whose pattern is not an identifier.
    UnnamedState { parameter: usize },
    /// An input whose pattern is not an identifier.
    UnnamedInput { parameter: usize },
    /// An output whose pattern is not an identifier.
    UnnamedOutput { parameter: usize },
    /// An input declared `&mut`.
    InputMutable { parameter: usize },
    /// An input inside a wrapper that does not hold a reference.
    InputGroupNotReference { parameter: usize },
    /// An input that is no reference.
    InputNotReference { parameter: usize },
    /// An output declared `&` without `mut`.
    OutputImmutable { parameter: usize },
    /// An output inside a wrapper that does not hold a reference.
    OutputGroupNotReference { parameter: usize },
    /// An output that is no reference.
    OutputNotReference { parameter: usize },
    /// A state declared `&` without `mut`.
    StateImmutable { parameter: usize },
    /// A state that is no reference.
    StateNotReference { parameter: usize },
    /// An input or output whose value type has no signal kind.
    UnmappedType { parameter: usize },
    /// A state, input or output with the name of an earlier one of its role.
    DuplicateName { parameter: usize },
    /// An annotation of an input channel that is neither `Any` nor a type
    /// with a signal kind.
    UnmappedInput { channel: usize },
    /// An annotation of an output channel that is neither `Any` nor a type
    /// with a signal kind.
    UnmappedOutput { channel: usize },
    /// A token of a macro's input that is missing, or is not what stands in
    /// its place.
    Syntax { token: usize },
}

impl DefinitionError {
    /// The text of the diagnostic.
    pub open spec fn spec_message(self) -> Seq<char> {
        match self {
            DefinitionError::UnreadableAttribute => "Malformed attribute arguments"@,
            DefinitionError::UnknownWordAttribute { .. } =>
                "Unknown attribute. Only `derive`, `allocate` and `resize_buffers` are supported."@,
            DefinitionError::UnknownListAttribute { .. } =>
                "Unknown attribute. Only `derive` is supported."@,
            DefinitionError::MalformedDerive { .. } =>
                "Expected an identifier in `derive`"@,
            DefinitionError::AllocateNotPath { .. } => "Expected a path for `allocate`"@,
            DefinitionError::ResizeBuffersNotPath { .. } =>
                "Expected a path for `resize_buffers`"@,
            DefinitionError::UnknownNamedAttribute { .. } =>
                "Unknown attribute. Only `allocate` and `resize_buffers` are supported."@,
            DefinitionError::MissingRole { .. } => "Expected a function argument with attributes"@,
            DefinitionError::DuplicateEnvironment { .. } => "Only one ProcEnv argument is allowed"@,
            DefinitionError::UnknownRole { .. } =>
                "Unknown attribute. Only `state`, `input`, and `output` are supported."@,
            DefinitionError::UnnamedState { .. } => "State argument must be a named identifier"@,
            DefinitionError::UnnamedInput { .. } => "Input argument must be a named identifier"@,
            DefinitionError::UnnamedOutput { .. } => "Output argument must be a named identifier"@,
            DefinitionError::InputMutable { .. } => "Input argument must be immutable reference"@,
            DefinitionError::InputGroupNotReference { .. } =>
                "Input argument must be a reference inside a group"@,
            DefinitionError::InputNotReference { .. } => "Input argument must be a reference"@,
            DefinitionError::OutputImmutable { .. } => "Output argument must be mutable reference"@,
            DefinitionError::OutputGroupNotReference { .. } =>
                "Output argument must be a reference inside a group"@,
            DefinitionError::OutputNotReference { .. } => "Output argument must be a reference"@,
            DefinitionError::StateImmutable { .. } => "State argument must be mutable reference"@,
            DefinitionError::StateNotReference { .. } =>
                "State argument must be a mutable reference"@,
            DefinitionError::UnmappedType { .. } => "Unsupported signal type"@,
            DefinitionError::DuplicateName { .. } => "Argument names must be unique within a role"@,
            DefinitionError::UnmappedInput { .. } => "Unsupported signal type"@,
            DefinitionError::UnmappedOutput { .. } => "Unsupported signal type"@,
            DefinitionError::Syntax { token } => {
                if token == 0 || token == 4 {
                    "expected identifier"@
                } else if token == 1 || token == 5 {
                    "expected `as`"@
                } else if token == 2 || token == 6 {
                    "expected a list of types in square brackets"@
                } else if token == 3 {
                    "expected `,`"@
                } else {
                    "unexpected token"@
                }
            },
        }
    }

    /// The text of the diagnostic.
    pub fn message(&self) -> (text: String)
        ensures
            text@ == self.spec_message(),
    {
        let text = match self {
            DefinitionError::UnreadableAttribute => "Malformed attribute arguments",
            DefinitionError::UnknownWordAttribute { .. } =>
                "Unknown attribute. Only `derive`, `allocate` and `resize_buffers` are supported.",
            DefinitionError::UnknownListAttribute { .. } =>
                "Unknown attribute. Only `derive` is supported.",
            DefinitionError::MalformedDerive { .. } => "Expected an identifier in `derive`",
            DefinitionError::AllocateNotPath { .. } => "Expected a path for `allocate`",
            DefinitionError::ResizeBuffersNotPath { .. } =>
                "Expected a path for `resize_buffers`",
            DefinitionError::UnknownNamedAttribute { .. } =>
                "Unknown attribute. Only `allocate` and `resize_buffers` are supported.",
            DefinitionError::MissingRole { .. } => "Expected a function argument with attributes",
            DefinitionError::DuplicateEnvironment { .. } => "Only one ProcEnv argument is allowed",
            DefinitionError::UnknownRole { .. } =>
                "Unknown attribute. Only `state`, `input`, and `output` are supported.",
            DefinitionError::UnnamedState { .. } => "State argument must be a named identifier",
            DefinitionError::UnnamedInput { .. } => "Input argument must be a named identifier",
            DefinitionError::UnnamedOutput { .. } => "Output argument must be a named identifier",
            DefinitionError::InputMutable { .. } => "Input argument must be immutable reference",
            DefinitionError::InputGroupNotReference { .. } =>
                "Input argument must be a reference inside a group",
            DefinitionError::InputNotReference { .. } => "Input argument must be a reference",
            DefinitionError::OutputImmutable { .. } => "Output argument must be mutable reference",
            DefinitionError::OutputGroupNotReference { .. } =>
                "Output argument must be a reference inside a group",
            DefinitionError::OutputNotReference { .. } => "Output argument must be a reference",
            DefinitionError::StateImmutable { .. } => "State argument must be mutable reference",
            DefinitionError::StateNotReference { .. } =>
                "State argument must be a mutable reference",
            DefinitionError::UnmappedType { .. } => "Unsupported signal type",
            DefinitionError::DuplicateName { .. } => "Argument names must be unique within a role",
            DefinitionError::UnmappedInput { .. } => "Unsupported signal type",
            DefinitionError::UnmappedOutput { .. } => "Unsupported signal type",
            DefinitionError::Syntax { token } => {
                if *token == 0 || *token == 4 {
                    "expected identifier"
                } else if *token == 1 || *token == 5 {
                    "expected `as`"
                } else if *token == 2 || *token == 6 {
                    "expected a list of types in square brackets"
                } else if *token == 3 {
                    "expected `,`"
                } else {
                    "unexpected token"
                }
            },
        };
        String::from_str(text)
    }
}

} // verus!

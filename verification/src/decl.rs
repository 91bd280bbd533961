//! What a definition declares, as plain values: the parameters of the
//! function, their types and patterns, and the arguments of the attribute.

use vstd::prelude::*;

verus! {

/// The shape of a declared type, as far as the rules read it.
pub enum TypeForm {
    /// A path that is one bare identifier, such as `f32`.
    Ident,
    /// Any other path, such as `std::vec::Vec<f32>`.
    Path,
    /// `&T` or `&mut T`.
    Reference { mutable: bool, elem: Box<DeclaredType> },
    /// A type inside one transparent wrapper, as macro expansion makes it.
    Group { elem: Box<DeclaredType> },
    /// Anything else: a tuple, an array, a slice, a function type.
    Other,
}

/// A type as it is written in a declaration.
pub struct DeclaredType {
    /// The type's source text.
    pub text: String,
    pub form: TypeForm,
}

impl DeclaredType {
    /// Whether the type is the bare identifier `name`.
    pub open spec fn is_ident(&self, name: Seq<char>) -> bool {
        self.form is Ident && self.text@ == name
    }
}

/// The pattern that binds a parameter.
pub struct Pattern {
    /// The pattern's source text.
    pub text: String,
    /// The bound identifier, where the pattern is an identifier pattern.
    pub ident: Option<String>,
}

/// One parameter of the declared function.
pub enum ParamDecl {
    /// `self` in any form.
    Receiver,
    /// A parameter with a pattern and a type.
    Typed {
        /// The path of the parameter's first attribute, if it has one.
        attr: Option<String>,
        pattern: Pattern,
        ty: DeclaredType,
    },
}

/// One generic parameter of the declared function, by name.
pub enum GenericDecl {
    Type(String),
    Lifetime(String),
    Const(String),
}

/// What kind of item declares a unit.
#[derive(Clone, Copy, Debug, PartialEq, Eq, Structural)]
pub enum DeclarationForm {
    /// A function: its parameters are the unit's states and channels, and a
    /// state is declared by the `&mut` reference the function is handed.
    Function,
    /// A struct: its fields are the unit's states and channels, and a state
    /// is declared as the plain field that holds it.
    Fields,
}

/// The declaration a unit is made from: a function with its parameters, or
/// a struct with its fields.
pub struct Declaration {
    pub form: DeclarationForm,
    pub name: String,
    pub generics: Vec<GenericDecl>,
    /// The parameters of the function, or the fields of the struct.
    pub params: Vec<ParamDecl>,
}

/// One argument of the attribute that marks a definition.
pub enum MetaArg {
    /// A bare path, such as `foo`.
    Path { name: String },
    /// A list, such as `derive(Clone, Debug)`. Each item is its identifier,
    /// or `None` where the item is not one bare identifier.
    List { name: String, items: Vec<Option<String>> },
    /// A name with a value, such as `allocate = my_fn`. The value is its
    /// path, or `None` where the value is not a path.
    NameValue { name: String, value: Option<String> },
}

/// How a group of tokens is delimited.
#[derive(Clone, Copy, Debug, PartialEq, Eq, Structural)]
pub enum Delimiter {
    Parenthesis,
    Brace,
    Bracket,
    /// An invisible delimiter, as macro expansion makes it.
    Invisible,
}

/// One token of a macro's input. A group is one token, whatever it holds.
pub enum Token {
    /// An identifier or a keyword.
    Ident(String),
    /// One character of punctuation.
    Punct(char),
    /// A literal, by its source text.
    Literal(String),
    /// A delimited run of tokens, by the source text of what it holds.
    Group { delimiter: Delimiter, text: String },
}

} // verus!

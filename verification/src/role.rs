//! Roles: which part each parameter of a declaration plays in the unit, and
//! the checks on how it is declared.

use crate::decl::{
    Declaration, DeclarationForm, DeclaredType, GenericDecl, ParamDecl, TypeForm,
};
use crate::error::DefinitionError;
use crate::signal::{signal_kind, spec_signal_kind, SignalKind};
use crate::text::{same_text, texts};
use vstd::prelude::*;

verus! {

/// The part a parameter plays.
#[derive(Clone, Copy, Debug, PartialEq, Eq, Structural)]
pub enum ParameterRole {
    /// The handle of the engine's environment.
    Environment,
    /// A value the unit keeps between samples.
    State,
    /// A channel the unit reads.
    Input,
    /// A channel the unit writes.
    Output,
}

/// A parameter with its role.
pub struct TypedParameter {
    /// The bound identifier; for the environment, the whole pattern.
    pub name: String,
    /// The type of the value the unit holds for it: the referent of the
    /// declared reference; for the environment and for a state of a struct,
    /// the declared type.
    pub ty: String,
    pub role: ParameterRole,
    /// Where the parameter stands in the declaration, from zero.
    pub position: usize,
    /// The signal kind of an input or output; `None` for the other roles.
    pub kind: Option<SignalKind>,
}

/// A `TypedParameter` with its texts as sequences.
pub struct ParameterView {
    pub name: Seq<char>,
    pub ty: Seq<char>,
    pub role: ParameterRole,
    pub position: usize,
    pub kind: Option<SignalKind>,
}

impl View for TypedParameter {
    type V = ParameterView;

    open spec fn view(&self) -> ParameterView {
        ParameterView {
            name: self.name@,
            ty: self.ty@,
            role: self.role,
            position: self.position,
            kind: self.kind,
        }
    }
}

/// The views of a list of parameters.
pub open spec fn parameter_views(params: Seq<TypedParameter>) -> Seq<ParameterView> {
    params.map_values(|p: TypedParameter| p@)
}

/// The role an attribute path names.
pub open spec fn tag_role(tag: Seq<char>) -> Option<ParameterRole> {
    if tag == "state"@ {
        Some(ParameterRole::State)
    } else if tag == "input"@ {
        Some(ParameterRole::Input)
    } else if tag == "output"@ {
        Some(ParameterRole::Output)
    } else {
        None
    }
}

/// The role a parameter claims: the environment by its type `ProcEnv`, the
/// others by their first attribute. A receiver claims none.
pub open spec fn role_of(p: ParamDecl) -> Option<ParameterRole> {
    match p {
        ParamDecl::Receiver => None,
        ParamDecl::Typed { attr, pattern, ty } => {
            if ty.is_ident("ProcEnv"@) {
                Some(ParameterRole::Environment)
            } else {
                match attr {
                    None => None,
                    Some(tag) => tag_role(tag@),
                }
            }
        },
    }
}

/// What a reference type says: whether it is `mut`, and what it refers to.
pub struct Referent {
    pub mutable: bool,
    pub target: DeclaredType,
}

/// The reference that a type is, if it is one.
pub open spec fn referent(ty: DeclaredType) -> Option<Referent> {
    match ty.form {
        TypeForm::Reference { mutable, elem } => Some(Referent { mutable, target: *elem }),
        _ => None,
    }
}

/// The reference a channel is declared with, seen through at most one
/// transparent wrapper.
pub open spec fn channel_referent(ty: DeclaredType) -> Option<Referent> {
    match ty.form {
        TypeForm::Group { elem } => referent(*elem),
        _ => referent(ty),
    }
}

/// The signal kind of a value type: that of its name, where it is a bare
/// identifier, seen through any transparent wrappers.
pub open spec fn kind_of_type(ty: DeclaredType) -> Option<SignalKind>
    decreases ty,
{
    match ty.form {
        TypeForm::Ident => spec_signal_kind(ty.text@),
        TypeForm::Group { elem } => kind_of_type(*elem),
        _ => None,
    }
}

/// The error in how an input (`writes` false) or an output (`writes` true)
/// declares its type.
pub open spec fn channel_error(ty: DeclaredType, writes: bool, i: usize) -> Option<
    DefinitionError,
> {
    match channel_referent(ty) {
        Some(reference) => {
            if reference.mutable == writes {
                None
            } else if writes {
                Some(DefinitionError::OutputImmutable { parameter: i })
            } else {
                Some(DefinitionError::InputMutable { parameter: i })
            }
        },
        None => {
            if ty.form is Group {
                if writes {
                    Some(DefinitionError::OutputGroupNotReference { parameter: i })
                } else {
                    Some(DefinitionError::InputGroupNotReference { parameter: i })
                }
            } else if writes {
                Some(DefinitionError::OutputNotReference { parameter: i })
            } else {
                Some(DefinitionError::InputNotReference { parameter: i })
            }
        },
    }
}

/// The error of one parameter taken alone, in the first pass: its role, its
/// name, and for a channel the shape of its type.
pub open spec fn shape_error(p: ParamDecl, i: usize) -> Option<DefinitionError> {
    match p {
        ParamDecl::Receiver => Some(DefinitionError::MissingRole { parameter: i }),
        ParamDecl::Typed { attr, pattern, ty } => {
            match role_of(p) {
                Some(ParameterRole::Environment) => None,
                Some(ParameterRole::State) => {
                    if pattern.ident is None {
                        Some(DefinitionError::UnnamedState { parameter: i })
                    } else {
                        None
                    }
                },
                Some(ParameterRole::Input) => {
                    if pattern.ident is None {
                        Some(DefinitionError::UnnamedInput { parameter: i })
                    } else {
                        channel_error(ty, false, i)
                    }
                },
                Some(ParameterRole::Output) => {
                    if pattern.ident is None {
                        Some(DefinitionError::UnnamedOutput { parameter: i })
                    } else {
                        channel_error(ty, true, i)
                    }
                },
                None => {
                    if attr is None {
                        Some(DefinitionError::MissingRole { parameter: i })
                    } else {
                        Some(DefinitionError::UnknownRole { parameter: i })
                    }
                },
            }
        },
    }
}

/// Whether an environment parameter stands before position `i`.
pub open spec fn environment_before(params: Seq<ParamDecl>, i: int) -> bool {
    exists|j: int| 0 <= j < i && j < params.len() && role_of(#[trigger] params[j]) == Some(
        ParameterRole::Environment,
    )
}

/// The first pass, for each parameter: a second environment, or the
/// parameter's own shape error.
pub open spec fn role_errors(params: Seq<ParamDecl>) -> Seq<Option<DefinitionError>> {
    Seq::new(
        params.len(),
        |i: int|
            if role_of(params[i]) == Some(ParameterRole::Environment) && environment_before(
                params,
                i,
            ) {
                Some(DefinitionError::DuplicateEnvironment { parameter: i as usize })
            } else {
                shape_error(params[i], i as usize)
            },
    )
}

/// The second pass, for each parameter: a state of a function must be
/// declared `&mut`. A state of a struct is declared as it is held.
pub open spec fn state_errors(form: DeclarationForm, params: Seq<ParamDecl>) -> Seq<Option<DefinitionError>> {
    Seq::new(
        params.len(),
        |i: int|
            if form == DeclarationForm::Function && role_of(params[i]) == Some(
                ParameterRole::State,
            ) {
                match referent(params[i]->ty) {
                    Some(reference) => if reference.mutable {
                        None
                    } else {
                        Some(DefinitionError::StateImmutable { parameter: i as usize })
                    },
                    None => Some(DefinitionError::StateNotReference { parameter: i as usize }),
                }
            } else {
                None
            },
    )
}

/// The last pass, for each parameter with the channel role `role`: its value
/// type must have a signal kind.
pub open spec fn kind_errors(params: Seq<ParamDecl>, role: ParameterRole) -> Seq<
    Option<DefinitionError>,
> {
    Seq::new(
        params.len(),
        |i: int|
            if role_of(params[i]) == Some(role) && kind_of_type(
                channel_referent(params[i]->ty)->0.target,
            ) is None {
                Some(DefinitionError::UnmappedType { parameter: i as usize })
            } else {
                None
            },
    )
}

/// The identifier a parameter is bound to.
pub open spec fn bound_name(p: ParamDecl) -> Seq<char> {
    match p {
        ParamDecl::Typed { attr, pattern, ty } => match pattern.ident {
            Some(name) => name@,
            None => Seq::empty(),
        },
        ParamDecl::Receiver => Seq::empty(),
    }
}

/// Two parameters of one role, the environment apart, with one name.
pub open spec fn twins(a: ParamDecl, b: ParamDecl) -> bool {
    &&& role_of(a) is Some
    &&& role_of(a) != Some(ParameterRole::Environment)
    &&& role_of(a) == role_of(b)
    &&& bound_name(a) == bound_name(b)
}

/// The last pass, for each parameter: within a role, no name comes twice.
pub open spec fn name_errors(params: Seq<ParamDecl>) -> Seq<Option<DefinitionError>> {
    Seq::new(
        params.len(),
        |i: int|
            if exists|j: int| 0 <= j < i && #[trigger] twins(params[j], params[i]) {
                Some(DefinitionError::DuplicateName { parameter: i as usize })
            } else {
                None
            },
    )
}

/// No position holds an error.
pub open spec fn clean(errors: Seq<Option<DefinitionError>>) -> bool {
    forall|i: int| 0 <= i < errors.len() ==> #[trigger] errors[i] is None
}

/// `e` is the error at the first position that holds one.
pub open spec fn first_error(errors: Seq<Option<DefinitionError>>, e: DefinitionError) -> bool {
    exists|i: int|
        {
            &&& 0 <= i < errors.len()
            &&& #[trigger] errors[i] == Some(e)
            &&& forall|j: int| 0 <= j < i ==> #[trigger] errors[j] is None
        }
}

/// The declaration passes every check.
pub open spec fn accepted(form: DeclarationForm, params: Seq<ParamDecl>) -> bool {
    &&& clean(role_errors(params))
    &&& clean(state_errors(form, params))
    &&& clean(kind_errors(params, ParameterRole::Input))
    &&& clean(kind_errors(params, ParameterRole::Output))
    &&& clean(name_errors(params))
}

/// The declaration is refused with `e`: the first error of the first pass
/// that finds one. The passes run in this order: roles and shapes, states,
/// kinds of the inputs, kinds of the outputs, names.
pub open spec fn refused(form: DeclarationForm, params: Seq<ParamDecl>, e: DefinitionError) -> bool {
    ||| first_error(role_errors(params), e)
    ||| {
        &&& clean(role_errors(params))
        &&& first_error(state_errors(form, params), e)
    }
    ||| {
        &&& clean(role_errors(params))
        &&& clean(state_errors(form, params))
        &&& first_error(kind_errors(params, ParameterRole::Input), e)
    }
    ||| {
        &&& clean(role_errors(params))
        &&& clean(state_errors(form, params))
        &&& clean(kind_errors(params, ParameterRole::Input))
        &&& first_error(kind_errors(params, ParameterRole::Output), e)
    }
    ||| {
        &&& clean(role_errors(params))
        &&& clean(state_errors(form, params))
        &&& clean(kind_errors(params, ParameterRole::Input))
        &&& clean(kind_errors(params, ParameterRole::Output))
        &&& first_error(name_errors(params), e)
    }
}

/// What an accepted parameter becomes. `i` is its position.
pub open spec fn typed(form: DeclarationForm, p: ParamDecl, i: usize) -> ParameterView {
    let pattern = p->pattern;
    let ty = p->ty;
    match role_of(p) {
        Some(ParameterRole::State) => ParameterView {
            name: pattern.ident->0@,
            ty: if form == DeclarationForm::Function {
                referent(ty)->0.target.text@
            } else {
                ty.text@
            },
            role: ParameterRole::State,
            position: i,
            kind: None,
        },
        Some(ParameterRole::Input) => ParameterView {
            name: pattern.ident->0@,
            ty: channel_referent(ty)->0.target.text@,
            role: ParameterRole::Input,
            position: i,
            kind: kind_of_type(channel_referent(ty)->0.target),
        },
        Some(ParameterRole::Output) => ParameterView {
            name: pattern.ident->0@,
            ty: channel_referent(ty)->0.target.text@,
            role: ParameterRole::Output,
            position: i,
            kind: kind_of_type(channel_referent(ty)->0.target),
        },
        _ => ParameterView {
            name: pattern.text@,
            ty: ty.text@,
            role: ParameterRole::Environment,
            position: i,
            kind: None,
        },
    }
}

/// The parameters that claim `role`, in the order of the declaration.
pub open spec fn group(form: DeclarationForm, params: Seq<ParamDecl>, role: ParameterRole) -> Seq<ParameterView>
    decreases params.len(),
{
    if params.len() == 0 {
        Seq::empty()
    } else {
        let rest = group(form, params.drop_last(), role);
        if role_of(params.last()) == Some(role) {
            rest.push(typed(form, params.last(), (params.len() - 1) as usize))
        } else {
            rest
        }
    }
}

/// The names of the type parameters among the generics, in order.
pub open spec fn type_params_of(generics: Seq<GenericDecl>) -> Seq<Seq<char>>
    decreases generics.len(),
{
    if generics.len() == 0 {
        Seq::empty()
    } else {
        let rest = type_params_of(generics.drop_last());
        match generics.last() {
            GenericDecl::Type(name) => rest.push(name@),
            _ => rest,
        }
    }
}

/// A declaration that passed every check, its parameters sorted by role.
pub struct Definition {
    /// The declared name.
    pub name: String,
    /// The environment parameter, if the declaration has one.
    pub environment: Option<TypedParameter>,
    pub states: Vec<TypedParameter>,
    pub inputs: Vec<TypedParameter>,
    pub outputs: Vec<TypedParameter>,
    /// The names of the declaration's type parameters.
    pub type_params: Vec<String>,
}

/// No two parameters of the list have one name.
pub open spec fn distinct_names(params: Seq<ParameterView>) -> bool {
    forall|a: int, b: int|
        0 <= a < b < params.len() ==> (#[trigger] params[a]).name != (#[trigger] params[b]).name
}

/// The view of an optional parameter.
pub open spec fn optional_view(p: Option<TypedParameter>) -> Seq<ParameterView> {
    match p {
        Some(p) => seq![p@],
        None => Seq::empty(),
    }
}

impl Definition {
    /// The definition holds exactly what `decl` declares.
    pub open spec fn describes(&self, decl: Declaration) -> bool {
        &&& self.name@ == decl.name@
        &&& optional_view(self.environment) == group(decl.form, decl.params@, ParameterRole::Environment)
        &&& parameter_views(self.states@) == group(decl.form, decl.params@, ParameterRole::State)
        &&& parameter_views(self.inputs@) == group(decl.form, decl.params@, ParameterRole::Input)
        &&& parameter_views(self.outputs@) == group(decl.form, decl.params@, ParameterRole::Output)
        &&& texts(self.type_params@) == type_params_of(decl.generics@)
    }

    /// Every input and output has its kind, and no other parameter has one.
    pub open spec fn well_formed(&self) -> bool {
        &&& forall|i: int|
            0 <= i < self.inputs.len() ==> (#[trigger] self.inputs[i]).kind is Some
                && self.inputs[i].role == ParameterRole::Input
        &&& forall|i: int|
            0 <= i < self.outputs.len() ==> (#[trigger] self.outputs[i]).kind is Some
                && self.outputs[i].role == ParameterRole::Output
        &&& forall|i: int|
            0 <= i < self.states.len() ==> (#[trigger] self.states[i]).kind is None
                && self.states[i].role == ParameterRole::State
        &&& distinct_names(parameter_views(self.states@))
        &&& distinct_names(parameter_views(self.inputs@))
        &&& distinct_names(parameter_views(self.outputs@))
    }
}

/// The errors of the pass that fills the group of `role`: the second pass for
/// states, the last for the channels.
pub open spec fn group_errors(form: DeclarationForm, params: Seq<ParamDecl>, role: ParameterRole) -> Seq<
    Option<DefinitionError>,
> {
    if role == ParameterRole::State {
        state_errors(form, params)
    } else {
        kind_errors(params, role)
    }
}

/// The role a parameter claims.
pub fn claimed_role(p: &ParamDecl) -> (role: Option<ParameterRole>)
    ensures
        role == role_of(*p),
{
    match p {
        ParamDecl::Receiver => None,
        ParamDecl::Typed { attr, pattern, ty } => {
            if is_bare_ident(ty) && same_text(ty.text.as_str(), "ProcEnv") {
                Some(ParameterRole::Environment)
            } else {
                match attr {
                    None => None,
                    Some(tag) => {
                        if same_text(tag.as_str(), "state") {
                            Some(ParameterRole::State)
                        } else if same_text(tag.as_str(), "input") {
                            Some(ParameterRole::Input)
                        } else if same_text(tag.as_str(), "output") {
                            Some(ParameterRole::Output)
                        } else {
                            None
                        }
                    },
                }
            }
        },
    }
}

fn is_bare_ident(ty: &DeclaredType) -> (b: bool)
    ensures
        b == (ty.form is Ident),
{
    match &ty.form {
        TypeForm::Ident => true,
        _ => false,
    }
}

fn is_group(ty: &DeclaredType) -> (b: bool)
    ensures
        b == (ty.form is Group),
{
    match &ty.form {
        TypeForm::Group { .. } => true,
        _ => false,
    }
}

/// The reference that a type is: whether it is `mut`, and its referent.
fn reference_of(ty: &DeclaredType) -> (r: Option<(bool, &DeclaredType)>)
    ensures
        match r {
            Some(found) => referent(*ty) == Some(
                Referent { mutable: found.0, target: *found.1 },
            ),
            None => referent(*ty) is None,
        },
{
    match &ty.form {
        TypeForm::Reference { mutable, elem } => Some((*mutable, &**elem)),
        _ => None,
    }
}

/// The reference a channel is declared with, through at most one wrapper.
fn channel_reference_of(ty: &DeclaredType) -> (r: Option<(bool, &DeclaredType)>)
    ensures
        match r {
            Some(found) => channel_referent(*ty) == Some(
                Referent { mutable: found.0, target: *found.1 },
            ),
            None => channel_referent(*ty) is None,
        },
{
    match &ty.form {
        TypeForm::Group { elem } => reference_of(&**elem),
        _ => reference_of(ty),
    }
}

/// Maps a value type to its signal kind: the kind of its name where the type
/// is a bare identifier with a kind, seen through any transparent wrappers,
/// and `None` for every other type.
pub fn kind_of(ty: &DeclaredType) -> (kind: Option<SignalKind>)
    ensures
        kind == kind_of_type(*ty),
    decreases ty,
{
    match &ty.form {
        TypeForm::Ident => signal_kind(ty.text.as_str()),
        TypeForm::Group { elem } => kind_of(&**elem),
        _ => None,
    }
}

fn check_channel(ty: &DeclaredType, writes: bool, i: usize) -> (r: Option<DefinitionError>)
    ensures
        r == channel_error(*ty, writes, i),
{
    match channel_reference_of(ty) {
        Some(found) => {
            if found.0 == writes {
                None
            } else if writes {
                Some(DefinitionError::OutputImmutable { parameter: i })
            } else {
                Some(DefinitionError::InputMutable { parameter: i })
            }
        },
        None => {
            if is_group(ty) {
                if writes {
                    Some(DefinitionError::OutputGroupNotReference { parameter: i })
                } else {
                    Some(DefinitionError::InputGroupNotReference { parameter: i })
                }
            } else if writes {
                Some(DefinitionError::OutputNotReference { parameter: i })
            } else {
                Some(DefinitionError::InputNotReference { parameter: i })
            }
        },
    }
}

/// Checks one parameter taken alone: its role, its name and, for a channel,
/// the shape of its type.
pub fn check_shape(p: &ParamDecl, i: usize) -> (r: Option<DefinitionError>)
    ensures
        r == shape_error(*p, i),
{
    match p {
        ParamDecl::Receiver => Some(DefinitionError::MissingRole { parameter: i }),
        ParamDecl::Typed { attr, pattern, ty } => {
            match claimed_role(p) {
                Some(ParameterRole::Environment) => None,
                Some(ParameterRole::State) => {
                    if pattern.ident.is_none() {
                        Some(DefinitionError::UnnamedState { parameter: i })
                    } else {
                        None
                    }
                },
                Some(ParameterRole::Input) => {
                    if pattern.ident.is_none() {
                        Some(DefinitionError::UnnamedInput { parameter: i })
                    } else {
                        check_channel(ty, false, i)
                    }
                },
                Some(ParameterRole::Output) => {
                    if pattern.ident.is_none() {
                        Some(DefinitionError::UnnamedOutput { parameter: i })
                    } else {
                        check_channel(ty, true, i)
                    }
                },
                None => {
                    if attr.is_none() {
                        Some(DefinitionError::MissingRole { parameter: i })
                    } else {
                        Some(DefinitionError::UnknownRole { parameter: i })
                    }
                },
            }
        },
    }
}

/// Each member of a group is the parameter at its position, and that
/// parameter claims the group's role.
proof fn lemma_group_members(form: DeclarationForm, params: Seq<ParamDecl>, role: ParameterRole)
    requires
        params.len() <= usize::MAX,
    ensures
        group(form, params, role).len() <= params.len(),
        forall|k: int|
            0 <= k < group(form, params, role).len() ==> {
                let member = #[trigger] group(form, params, role)[k];
                &&& member.position < params.len()
                &&& role_of(params[member.position as int]) == Some(role)
                &&& member == typed(form, params[member.position as int], member.position)
            },
    decreases params.len(),
{
    if params.len() > 0 {
        let front = params.drop_last();
        let rest = group(form, front, role);
        let all = group(form, params, role);
        lemma_group_members(form, front, role);
        assert forall|k: int| 0 <= k < all.len() implies {
            let member = #[trigger] all[k];
            &&& member.position < params.len()
            &&& role_of(params[member.position as int]) == Some(role)
            &&& member == typed(form, params[member.position as int], member.position)
        } by {
            if k < rest.len() {
                assert(all[k] == rest[k]);
                assert(front[rest[k].position as int] == params[rest[k].position as int]);
            } else {
                assert(all[k] == typed(form, params.last(), (params.len() - 1) as usize));
                assert(typed(form, params.last(), (params.len() - 1) as usize).position == params.len()
                    - 1);
            }
        }
    }
}

/// The positions of a group's members rise.
proof fn lemma_group_rising(form: DeclarationForm, params: Seq<ParamDecl>, role: ParameterRole, a: int, b: int)
    requires
        params.len() <= usize::MAX,
        0 <= a < b < group(form, params, role).len(),
    ensures
        group(form, params, role)[a].position < group(form, params, role)[b].position,
    decreases params.len(),
{
    let front = params.drop_last();
    let rest = group(form, front, role);
    let all = group(form, params, role);
    lemma_group_members(form, front, role);
    if b < rest.len() {
        lemma_group_rising(form, front, role, a, b);
        assert(all[a] == rest[a]);
        assert(all[b] == rest[b]);
    } else {
        assert(all[a] == rest[a]);
        assert(rest[a].position < front.len());
        assert(all[b] == typed(form, params.last(), (params.len() - 1) as usize));
        assert(typed(form, params.last(), (params.len() - 1) as usize).position == params.len() - 1);
    }
}

/// How many parameters before position `i` claim `role`.
pub open spec fn rank(form: DeclarationForm, params: Seq<ParamDecl>, role: ParameterRole, i: int) -> int {
    group(form, params.take(i), role).len() as int
}

/// A parameter that claims a role is the member of the role's group that
/// its rank gives.
proof fn lemma_group_complete(form: DeclarationForm, params: Seq<ParamDecl>, role: ParameterRole, i: int)
    requires
        params.len() <= usize::MAX,
        0 <= i < params.len(),
        role_of(params[i]) == Some(role),
    ensures
        0 <= rank(form, params, role, i) < group(form, params, role).len(),
        group(form, params, role)[rank(form, params, role, i)].position == i,
    decreases params.len(),
{
    let front = params.drop_last();
    let rest = group(form, front, role);
    let all = group(form, params, role);
    if i < front.len() {
        assert(front[i] == params[i]);
        assert(front.take(i) =~= params.take(i));
        lemma_group_complete(form, front, role, i);
        assert(all[rank(form, params, role, i)] == rest[rank(form, params, role, i)]);
    } else {
        assert(params.take(i) =~= front);
        assert(all[all.len() - 1] == typed(form, params.last(), (params.len() - 1) as usize));
        assert(typed(form, params.last(), (params.len() - 1) as usize).position == params.len() - 1);
    }
}

/// The parameters of a role stand in the order of the declaration: each
/// member of the group is a parameter that claims the role, the members'
/// positions rise, and a parameter that claims the role is the member that
/// follows as many members as parameters of the role stand before it. So the
/// group has as many members as the declaration has parameters of the role.
pub proof fn lemma_group_in_declaration_order(form: DeclarationForm, params: Seq<ParamDecl>, role: ParameterRole)
    requires
        params.len() <= usize::MAX,
    ensures
        group(form, params, role).len() <= params.len(),
        forall|k: int|
            0 <= k < group(form, params, role).len() ==> {
                let member = #[trigger] group(form, params, role)[k];
                &&& member.position < params.len()
                &&& role_of(params[member.position as int]) == Some(role)
                &&& member == typed(form, params[member.position as int], member.position)
            },
        forall|a: int, b: int|
            0 <= a < b < group(form, params, role).len() ==> (#[trigger] group(form, params, role)[a]).position
                < (#[trigger] group(form, params, role)[b]).position,
        forall|i: int|
            0 <= i < params.len() && role_of(params[i]) == Some(role) ==> 0 <= #[trigger] rank(form, 
                params,
                role,
                i,
            ) < group(form, params, role).len() && group(form, params, role)[rank(form, params, role, i)].position
                == i,
{
    lemma_group_members(form, params, role);
    assert forall|a: int, b: int| 0 <= a < b < group(form, params, role).len() implies (#[trigger] group(form, 
        params,
        role,
    )[a]).position < (#[trigger] group(form, params, role)[b]).position by {
        lemma_group_rising(form, params, role, a, b);
    }
    assert forall|i: int|
        0 <= i < params.len() && role_of(params[i]) == Some(role) implies 0 <= #[trigger] rank(form, 
        params,
        role,
        i,
    ) < group(form, params, role).len() && group(form, params, role)[rank(form, params, role, i)].position
        == i by {
        lemma_group_complete(form, params, role, i);
    }
}

/// A group is empty where no parameter claims its role.
pub proof fn lemma_group_empty(form: DeclarationForm, params: Seq<ParamDecl>, role: ParameterRole)
    requires
        forall|j: int| 0 <= j < params.len() ==> role_of(#[trigger] params[j]) != Some(role),
    ensures
        group(form, params, role) == Seq::<ParameterView>::empty(),
    decreases params.len(),
{
    if params.len() > 0 {
        lemma_group_empty(form, params.drop_last(), role);
    }
}

/// The first pass: every parameter has a role and the shape its role asks
/// for, and at most one is the environment, which is returned.
fn check_roles(form: DeclarationForm, params: &Vec<ParamDecl>) -> (r: Result<
    Option<TypedParameter>,
    DefinitionError,
>)
    ensures
        match r {
            Ok(environment) => {
                &&& clean(role_errors(params@))
                &&& optional_view(environment) == group(form, params@, ParameterRole::Environment)
            },
            Err(e) => first_error(role_errors(params@), e),
        },
{
    let mut environment: Option<TypedParameter> = None;
    let mut i: usize = 0;
    while i < params.len()
        invariant
            0 <= i <= params.len(),
            forall|j: int| 0 <= j < i ==> (#[trigger] role_errors(params@)[j]) is None,
            environment is Some <==> environment_before(params@, i as int),
            optional_view(environment) == group(form, params@.take(i as int), ParameterRole::Environment),
        decreases params.len() - i,
    {
        let p = &params[i];
        proof {
            assert(params@.take(i + 1).drop_last() =~= params@.take(i as int));
            assert(params@.take(i + 1).last() == params[i as int]);
        }
        let role = claimed_role(p);
        match (role, p) {
            (Some(ParameterRole::Environment), ParamDecl::Typed { attr, pattern, ty }) => {
                if environment.is_some() {
                    assert(role_errors(params@)[i as int] == Some(
                        DefinitionError::DuplicateEnvironment { parameter: i },
                    ));
                    return Err(DefinitionError::DuplicateEnvironment { parameter: i });
                }
                proof {
                    assert forall|j: int| 0 <= j < params@.take(i as int).len() implies role_of(
                        #[trigger] params@.take(i as int)[j],
                    ) != Some(ParameterRole::Environment) by {
                        assert(params@.take(i as int)[j] == params[j]);
                    }
                    lemma_group_empty(form, params@.take(i as int), ParameterRole::Environment);
                }
                environment =
                Some(
                    TypedParameter {
                        name: pattern.text.clone(),
                        ty: ty.text.clone(),
                        role: ParameterRole::Environment,
                        position: i,
                        kind: None,
                    },
                );
                assert(optional_view(environment) =~= group(form, 
                    params@.take(i + 1),
                    ParameterRole::Environment,
                ));
            },
            _ => {
                match check_shape(p, i) {
                    Some(e) => {
                        assert(role_errors(params@)[i as int] == Some(e));
                        return Err(e);
                    },
                    None => {},
                }
            },
        }
        assert(role_errors(params@)[i as int] is None);
        i += 1;
    }
    assert(params@.take(i as int) =~= params@);
    Ok(environment)
}

/// One later pass: gathers the parameters of `role` in order, each checked
/// as its role asks.
fn collect(form: DeclarationForm, params: &Vec<ParamDecl>, role: ParameterRole) -> (r: Result<
    Vec<TypedParameter>,
    DefinitionError,
>)
    requires
        clean(role_errors(params@)),
        role != ParameterRole::Environment,
    ensures
        match r {
            Ok(found) => {
                &&& clean(group_errors(form, params@, role))
                &&& parameter_views(found@) == group(form, params@, role)
                &&& forall|k: int|
                    0 <= k < found.len() ==> (#[trigger] found[k]).role == role && (found[k].kind
                        is Some <==> role != ParameterRole::State)
            },
            Err(e) => first_error(group_errors(form, params@, role), e),
        },
{
    let mut found: Vec<TypedParameter> = Vec::new();
    let mut i: usize = 0;
    assert(parameter_views(found@) =~= group(form, params@.take(0), role));
    while i < params.len()
        invariant
            0 <= i <= params.len(),
            clean(role_errors(params@)),
            role != ParameterRole::Environment,
            forall|j: int| 0 <= j < i ==> (#[trigger] group_errors(form, params@, role)[j]) is None,
            parameter_views(found@) == group(form, params@.take(i as int), role),
            forall|k: int|
                0 <= k < found.len() ==> (#[trigger] found[k]).role == role && (found[k].kind
                    is Some <==> role != ParameterRole::State),
        decreases params.len() - i,
    {
        let p = &params[i];
        proof {
            assert(params@.take(i + 1).drop_last() =~= params@.take(i as int));
            assert(params@.take(i + 1).last() == params[i as int]);
            assert(role_errors(params@)[i as int] is None);
        }
        let ghost before = found@;
        if claimed_role(p) == Some(role) {
            match p {
                ParamDecl::Typed { attr, pattern, ty } => {
                    assert(shape_error(*p, i) is None);
                    let name = pattern.ident.as_ref().unwrap().clone();
                    match role {
                        ParameterRole::State => {
                            let held = match form {
                                DeclarationForm::Fields => ty,
                                DeclarationForm::Function => match reference_of(ty) {
                                    Some(reference) => {
                                        if !reference.0 {
                                            assert(group_errors(form, params@, role)[i as int]
                                                == Some(
                                                DefinitionError::StateImmutable { parameter: i },
                                            ));
                                            return Err(
                                                DefinitionError::StateImmutable { parameter: i },
                                            );
                                        }
                                        reference.1
                                    },
                                    None => {
                                        assert(group_errors(form, params@, role)[i as int] == Some(
                                            DefinitionError::StateNotReference { parameter: i },
                                        ));
                                        return Err(
                                            DefinitionError::StateNotReference { parameter: i },
                                        );
                                    },
                                },
                            };
                            found.push(
                                TypedParameter {
                                    name,
                                    ty: held.text.clone(),
                                    role,
                                    position: i,
                                    kind: None,
                                },
                            );
                        },
                        _ => {
                            let reference = channel_reference_of(ty).unwrap();
                            match kind_of(reference.1) {
                                Some(kind) => {
                                    found.push(
                                        TypedParameter {
                                            name,
                                            ty: reference.1.text.clone(),
                                            role,
                                            position: i,
                                            kind: Some(kind),
                                        },
                                    );
                                },
                                None => {
                                    assert(group_errors(form, params@, role)[i as int] == Some(
                                        DefinitionError::UnmappedType { parameter: i },
                                    ));
                                    return Err(DefinitionError::UnmappedType { parameter: i });
                                },
                            }
                        },
                    }
                    assert(found@.last()@ == typed(form, *p, i));
                    assert(parameter_views(found@) =~= parameter_views(before).push(
                        typed(form, *p, i),
                    ));
                },
                ParamDecl::Receiver => {},
            }
        }
        assert(group_errors(form, params@, role)[i as int] is None);
        i += 1;
    }
    assert(params@.take(i as int) =~= params@);
    Ok(found)
}

/// The names of the type parameters among the generics.
fn collect_type_params(generics: &Vec<GenericDecl>) -> (names: Vec<String>)
    ensures
        texts(names@) == type_params_of(generics@),
{
    let mut names: Vec<String> = Vec::new();
    let mut i: usize = 0;
    assert(texts(names@) =~= type_params_of(generics@.take(0)));
    while i < generics.len()
        invariant
            0 <= i <= generics.len(),
            texts(names@) == type_params_of(generics@.take(i as int)),
        decreases generics.len() - i,
    {
        proof {
            assert(generics@.take(i + 1).drop_last() =~= generics@.take(i as int));
            assert(generics@.take(i + 1).last() == generics[i as int]);
        }
        let ghost before = names@;
        match &generics[i] {
            GenericDecl::Type(name) => {
                names.push(name.clone());
                assert(texts(names@) =~= texts(before).push(name@));
            },
            _ => {},
        }
        i += 1;
    }
    assert(generics@.take(i as int) =~= generics@);
    names
}

/// The identifier a parameter is bound to, where it has one.
fn bound_ident(p: &ParamDecl) -> (name: Option<&String>)
    ensures
        match name {
            Some(name) => name@ == bound_name(*p) && p is Typed && p->pattern.ident is Some,
            None => !(p is Typed && p->pattern.ident is Some),
        },
{
    match p {
        ParamDecl::Typed { attr, pattern, ty } => pattern.ident.as_ref(),
        ParamDecl::Receiver => None,
    }
}

/// Whether a parameter before position `i` has the role and the name of the
/// one at `i`.
fn has_twin_before(params: &Vec<ParamDecl>, i: usize) -> (found: bool)
    requires
        i < params.len(),
        clean(role_errors(params@)),
    ensures
        found == (exists|j: int| 0 <= j < i && #[trigger] twins(params[j], params[i as int])),
{
    let role = claimed_role(&params[i]);
    match role {
        None | Some(ParameterRole::Environment) => {
            return false;
        },
        _ => {},
    }
    assert(role_errors(params@)[i as int] is None);
    let name = bound_ident(&params[i]).unwrap();
    let mut j: usize = 0;
    while j < i
        invariant
            0 <= j <= i < params.len(),
            clean(role_errors(params@)),
            role == role_of(params[i as int]),
            role is Some,
            role != Some(ParameterRole::Environment),
            name@ == bound_name(params[i as int]),
            forall|k: int| 0 <= k < j ==> !twins(#[trigger] params[k], params[i as int]),
        decreases i - j,
    {
        if claimed_role(&params[j]) == role {
            assert(role_errors(params@)[j as int] is None);
            let other = bound_ident(&params[j]).unwrap();
            if same_text(other.as_str(), name.as_str()) {
                assert(twins(params[j as int], params[i as int]));
                return true;
            }
        }
        j += 1;
    }
    false
}

/// The last pass: within a role, no name comes twice.
fn check_names(params: &Vec<ParamDecl>) -> (r: Option<DefinitionError>)
    requires
        clean(role_errors(params@)),
    ensures
        match r {
            Some(e) => first_error(name_errors(params@), e),
            None => clean(name_errors(params@)),
        },
{
    let mut i: usize = 0;
    while i < params.len()
        invariant
            0 <= i <= params.len(),
            clean(role_errors(params@)),
            forall|k: int| 0 <= k < i ==> (#[trigger] name_errors(params@)[k]) is None,
        decreases params.len() - i,
    {
        if has_twin_before(params, i) {
            assert(name_errors(params@)[i as int] == Some(
                DefinitionError::DuplicateName { parameter: i },
            ));
            return Some(DefinitionError::DuplicateName { parameter: i });
        }
        assert(name_errors(params@)[i as int] is None);
        i += 1;
    }
    None
}

/// Where no name comes twice within a role, the members of a group have
/// names of their own.
proof fn lemma_group_names_differ(
    form: DeclarationForm,
    params: Seq<ParamDecl>,
    role: ParameterRole,
)
    requires
        params.len() <= usize::MAX,
        clean(role_errors(params)),
        clean(name_errors(params)),
        role != ParameterRole::Environment,
    ensures
        distinct_names(group(form, params, role)),
{
    let members = group(form, params, role);
    lemma_group_members(form, params, role);
    assert forall|a: int, b: int| 0 <= a < b < members.len() implies (#[trigger] members[a]).name
        != (#[trigger] members[b]).name by {
        lemma_group_rising(form, params, role, a, b);
        let pa = members[a].position as int;
        let pb = members[b].position as int;
        assert(role_errors(params)[pa] is None);
        assert(role_errors(params)[pb] is None);
        assert(name_errors(params)[pb] is None);
        assert(members[a].name == bound_name(params[pa]));
        assert(members[b].name == bound_name(params[pb]));
        if members[a].name == members[b].name {
            assert(twins(params[pa], params[pb]));
        }
    }
}

/// Sorts the parameters of a declaration by role and checks each one.
///
/// The declaration is accepted where no pass finds an error, and the
/// definition then holds its parameters by role in the order declared.
/// Otherwise the error is the first one of the first pass that finds any:
/// roles and shapes, then states, then the kinds of the inputs, then the
/// kinds of the outputs, then the names.
pub fn parse_definition(decl: &Declaration) -> (r: Result<Definition, DefinitionError>)
    ensures
        match r {
            Ok(definition) => {
                &&& accepted(decl.form, decl.params@)
                &&& definition.describes(*decl)
                &&& definition.well_formed()
            },
            Err(e) => refused(decl.form, decl.params@, e),
        },
{
    let environment = match check_roles(decl.form, &decl.params) {
        Ok(environment) => environment,
        Err(e) => {
            return Err(e);
        },
    };
    let states = match collect(decl.form, &decl.params, ParameterRole::State) {
        Ok(states) => states,
        Err(e) => {
            return Err(e);
        },
    };
    let inputs = match collect(decl.form, &decl.params, ParameterRole::Input) {
        Ok(inputs) => inputs,
        Err(e) => {
            return Err(e);
        },
    };
    let outputs = match collect(decl.form, &decl.params, ParameterRole::Output) {
        Ok(outputs) => outputs,
        Err(e) => {
            return Err(e);
        },
    };
    match check_names(&decl.params) {
        Some(e) => {
            return Err(e);
        },
        None => {},
    }
    proof {
        assert(decl.params@.len() == decl.params.len());
        lemma_group_names_differ(decl.form, decl.params@, ParameterRole::State);
        lemma_group_names_differ(decl.form, decl.params@, ParameterRole::Input);
        lemma_group_names_differ(decl.form, decl.params@, ParameterRole::Output);
    }
    let type_params = collect_type_params(&decl.generics);
    Ok(Definition { name: decl.name.clone(), environment, states, inputs, outputs, type_params })
}

} // verus!

//! From a declaration to the plan of its processing unit: the unit's name,
//! what it holds, what it reports to the engine, and what its per-sample
//! transform is handed.

use crate::decl::{Declaration, MetaArg, ParamDecl};
use crate::error::DefinitionError;
use crate::options::{args_clean, attribute_read, options_read, parse_options, UnitOptions};
use crate::role::{
    accepted, group, parameter_views, parse_definition, refused, Definition, ParameterRole,
    ParameterView, TypedParameter,
};
use crate::signal::{spec_views, SignalKind, SignalSpec};
use crate::text::{lowercase, pascal_case, texts, to_lowercase, to_pascal_case};
use vstd::prelude::*;

verus! {

/// One value the unit holds: a name and the type of the value.
pub struct FieldPlan {
    pub name: String,
    pub ty: String,
}

/// A zero-size field that keeps a type parameter in use.
pub struct PlaceholderPlan {
    pub name: String,
    pub type_param: String,
}

/// One thing the per-sample transform is handed, after the environment.
pub struct ArgumentPlan {
    pub name: String,
    pub ty: String,
    /// Whether the transform may write through it: true for states and
    /// outputs, false for inputs.
    pub exclusive: bool,
}

/// Everything that is decided about a unit before any code is written.
pub struct UnitPlan {
    /// The unit's name: the declared name in Pascal case.
    pub name: String,
    pub options: UnitOptions,
    pub definition: Definition,
    /// The values the unit holds: states, then inputs, then outputs.
    pub fields: Vec<FieldPlan>,
    /// One placeholder for each type parameter.
    pub placeholders: Vec<PlaceholderPlan>,
    pub input_spec: Vec<SignalSpec>,
    pub output_spec: Vec<SignalSpec>,
    /// What the transform is handed: states, then inputs, then outputs.
    pub arguments: Vec<ArgumentPlan>,
}

/// The name of the placeholder for a type parameter: an underscore and the
/// parameter's name in lower case.
pub open spec fn placeholder_name(type_param: Seq<char>) -> Seq<char> {
    seq!['_'] + lowercase(type_param)
}

/// The channel specs of a group of parameters: each name with its kind.
pub open spec fn specs_of(params: Seq<ParameterView>) -> Seq<(Seq<char>, SignalKind)> {
    params.map_values(|p: ParameterView| (p.name, p.kind->0))
}

/// The fields for a group of parameters: each name with its type.
pub open spec fn fields_of(params: Seq<ParameterView>) -> Seq<(Seq<char>, Seq<char>)> {
    params.map_values(|p: ParameterView| (p.name, p.ty))
}

/// What the transform is handed for a group of parameters.
pub open spec fn arguments_of(params: Seq<ParameterView>) -> Seq<(Seq<char>, Seq<char>, bool)> {
    params.map_values(|p: ParameterView| (p.name, p.ty, p.role != ParameterRole::Input))
}

/// The placeholders for a list of type parameters.
pub open spec fn placeholders_of(type_params: Seq<Seq<char>>) -> Seq<(Seq<char>, Seq<char>)> {
    type_params.map_values(|t: Seq<char>| (placeholder_name(t), t))
}

pub open spec fn field_views(fields: Seq<FieldPlan>) -> Seq<(Seq<char>, Seq<char>)> {
    fields.map_values(|f: FieldPlan| (f.name@, f.ty@))
}

pub open spec fn placeholder_views(fields: Seq<PlaceholderPlan>) -> Seq<(Seq<char>, Seq<char>)> {
    fields.map_values(|f: PlaceholderPlan| (f.name@, f.type_param@))
}

pub open spec fn argument_views(arguments: Seq<ArgumentPlan>) -> Seq<
    (Seq<char>, Seq<char>, bool),
> {
    arguments.map_values(|a: ArgumentPlan| (a.name@, a.ty@, a.exclusive))
}

/// The attribute's arguments were read, none is in error, and `options` is
/// what they give.
pub open spec fn options_given(attr: Option<Vec<MetaArg>>, options: UnitOptions) -> bool {
    attr matches Some(args) && options_read(args@, Ok(options))
}

/// The attribute's arguments were read and none is in error.
pub open spec fn options_clean(attr: Option<Vec<MetaArg>>) -> bool {
    attr matches Some(args) && args_clean(args@)
}

/// The attribute's arguments are refused with `e`: they could not be read,
/// or `e` is the error of the first argument that has one.
pub open spec fn options_refused(attr: Option<Vec<MetaArg>>, e: DefinitionError) -> bool {
    attribute_read(attr, Err(e))
}

impl UnitPlan {
    /// The plan is the one that `attr` and `item` determine.
    pub open spec fn plans(&self, attr: Option<Vec<MetaArg>>, item: Declaration) -> bool {
        let params = item.params@;
        let states = group(item.form, params, ParameterRole::State);
        let inputs = group(item.form, params, ParameterRole::Input);
        let outputs = group(item.form, params, ParameterRole::Output);
        &&& self.name@ == pascal_case(item.name@)
        &&& options_given(attr, self.options)
        &&& self.definition.describes(item)
        &&& self.definition.well_formed()
        &&& field_views(self.fields@) == fields_of(states) + fields_of(inputs) + fields_of(outputs)
        &&& placeholder_views(self.placeholders@) == placeholders_of(
            texts(self.definition.type_params@),
        )
        &&& spec_views(self.input_spec@) == specs_of(inputs)
        &&& spec_views(self.output_spec@) == specs_of(outputs)
        &&& argument_views(self.arguments@) == arguments_of(states) + arguments_of(inputs)
            + arguments_of(outputs)
    }

    /// The channels the unit reads, in declaration order. Every call returns
    /// the same list.
    pub fn input_spec(&self) -> (specs: Vec<SignalSpec>)
        ensures
            spec_views(specs@) == spec_views(self.input_spec@),
    {
        copy_specs(&self.input_spec)
    }

    /// The channels the unit writes, in declaration order. Every call returns
    /// the same list.
    pub fn output_spec(&self) -> (specs: Vec<SignalSpec>)
        ensures
            spec_views(specs@) == spec_views(self.output_spec@),
    {
        copy_specs(&self.output_spec)
    }
}

/// A copy of a list of channel specs.
pub fn copy_specs(specs: &Vec<SignalSpec>) -> (copy: Vec<SignalSpec>)
    ensures
        spec_views(copy@) == spec_views(specs@),
        copy.len() == specs.len(),
{
    let mut copy: Vec<SignalSpec> = Vec::new();
    let mut i: usize = 0;
    while i < specs.len()
        invariant
            0 <= i <= specs.len(),
            copy.len() == i,
            forall|k: int| 0 <= k < i ==> (#[trigger] copy[k])@ == specs[k]@,
        decreases specs.len() - i,
    {
        copy.push(specs[i].duplicate());
        i += 1;
    }
    assert(spec_views(copy@) =~= spec_views(specs@));
    copy
}

/// The channel specs of a group of inputs or outputs, in order.
pub fn emit_specs(params: &Vec<TypedParameter>) -> (specs: Vec<SignalSpec>)
    requires
        forall|i: int| 0 <= i < params.len() ==> (#[trigger] params[i]).kind is Some,
    ensures
        spec_views(specs@) == specs_of(parameter_views(params@)),
        specs.len() == params.len(),
{
    let mut specs: Vec<SignalSpec> = Vec::new();
    let mut i: usize = 0;
    while i < params.len()
        invariant
            0 <= i <= params.len(),
            specs.len() == i,
            forall|i: int| 0 <= i < params.len() ==> (#[trigger] params[i]).kind is Some,
            forall|k: int|
                0 <= k < i ==> (#[trigger] specs[k])@ == (params[k].name@, params[k].kind->0),
        decreases params.len() - i,
    {
        let p = &params[i];
        specs.push(SignalSpec { name: p.name.clone(), kind: p.kind.unwrap() });
        i += 1;
    }
    assert(spec_views(specs@) =~= specs_of(parameter_views(params@)));
    specs
}

/// Appends the fields and the transform's arguments for one group.
fn plan_group(
    params: &Vec<TypedParameter>,
    fields: &mut Vec<FieldPlan>,
    arguments: &mut Vec<ArgumentPlan>,
)
    ensures
        field_views(final(fields)@) == field_views(old(fields)@) + fields_of(
            parameter_views(params@),
        ),
        argument_views(final(arguments)@) == argument_views(old(arguments)@) + arguments_of(
            parameter_views(params@),
        ),
{
    let ghost fields_before = field_views(fields@);
    let ghost arguments_before = argument_views(arguments@);
    let ghost views = parameter_views(params@);
    let mut i: usize = 0;
    assert(field_views(fields@) =~= fields_before + fields_of(views).take(0));
    assert(argument_views(arguments@) =~= arguments_before + arguments_of(views).take(0));
    while i < params.len()
        invariant
            0 <= i <= params.len(),
            views == parameter_views(params@),
            field_views(fields@) == fields_before + fields_of(views).take(i as int),
            argument_views(arguments@) == arguments_before + arguments_of(views).take(i as int),
        decreases params.len() - i,
    {
        let p = &params[i];
        let ghost f0 = fields@;
        let ghost a0 = arguments@;
        fields.push(FieldPlan { name: p.name.clone(), ty: p.ty.clone() });
        arguments.push(
            ArgumentPlan {
                name: p.name.clone(),
                ty: p.ty.clone(),
                exclusive: p.role != ParameterRole::Input,
            },
        );
        proof {
            assert(field_views(fields@) =~= field_views(f0).push((p.name@, p.ty@)));
            assert(fields_of(views).take(i + 1) =~= fields_of(views).take(i as int).push(
                (p.name@, p.ty@),
            ));
            assert(field_views(fields@) =~= fields_before + fields_of(views).take(i + 1));
            assert(argument_views(arguments@) =~= argument_views(a0).push(
                (p.name@, p.ty@, p.role != ParameterRole::Input),
            ));
            assert(arguments_of(views).take(i + 1) =~= arguments_of(views).take(i as int).push(
                (p.name@, p.ty@, p.role != ParameterRole::Input),
            ));
            assert(argument_views(arguments@) =~= arguments_before + arguments_of(views).take(
                i + 1,
            ));
        }
        i += 1;
    }
    assert(fields_of(views).take(i as int) =~= fields_of(views));
    assert(arguments_of(views).take(i as int) =~= arguments_of(views));
}

/// The name of the placeholder for a type parameter, from the parameter's
/// name in lower case: an underscore before it.
pub fn placeholder_field(lowered: &str) -> (name: String)
    ensures
        name@ == seq!['_'] + lowered@,
{
    proof {
        reveal_strlit("_");
        assert("_"@ =~= seq!['_']);
    }
    String::from_str("_").concat(lowered)
}

/// One placeholder for each type parameter.
fn plan_placeholders(type_params: &Vec<String>) -> (placeholders: Vec<PlaceholderPlan>)
    ensures
        placeholder_views(placeholders@) == placeholders_of(texts(type_params@)),
{
    let mut placeholders: Vec<PlaceholderPlan> = Vec::new();
    let mut i: usize = 0;
    while i < type_params.len()
        invariant
            0 <= i <= type_params.len(),
            placeholders.len() == i,
            forall|k: int|
                0 <= k < i ==> (#[trigger] placeholders[k]).name@ == placeholder_name(
                    type_params[k]@,
                ) && placeholders[k].type_param@ == type_params[k]@,
        decreases type_params.len() - i,
    {
        let lower = to_lowercase(type_params[i].as_str());
        let name = placeholder_field(lower.as_str());
        placeholders.push(PlaceholderPlan { name, type_param: type_params[i].clone() });
        i += 1;
    }
    assert(placeholder_views(placeholders@) =~= placeholders_of(texts(type_params@)));
    placeholders
}

/// Plans the processing unit that a declaration and its attribute describe.
///
/// The attribute's arguments are read first and the declaration second, and
/// the first error found refuses the definition; nothing is planned for a
/// definition with an error, nor for one whose attribute could not be read.
/// An attribute without arguments is the empty list. Otherwise the plan names the unit in Pascal
/// case, holds a field for every state, input and output and a placeholder
/// for every type parameter, and lists the input and output channels in the
/// order declared.
pub fn processor_attribute(attr: &Option<Vec<MetaArg>>, item: &Declaration) -> (r: Result<
    UnitPlan,
    DefinitionError,
>)
    ensures
        match r {
            Ok(plan) => accepted(item.form, item.params@) && plan.plans(*attr, *item),
            Err(e) => options_refused(*attr, e) || (options_clean(*attr) && refused(item.form, item.params@, e)),
        },
{
    let options = match parse_options(attr) {
        Ok(options) => options,
        Err(e) => {
            return Err(e);
        },
    };
    let definition = match parse_definition(item) {
        Ok(definition) => definition,
        Err(e) => {
            return Err(e);
        },
    };
    let name = to_pascal_case(item.name.as_str());
    let mut fields: Vec<FieldPlan> = Vec::new();
    let mut arguments: Vec<ArgumentPlan> = Vec::new();
    plan_group(&definition.states, &mut fields, &mut arguments);
    plan_group(&definition.inputs, &mut fields, &mut arguments);
    plan_group(&definition.outputs, &mut fields, &mut arguments);
    let placeholders = plan_placeholders(&definition.type_params);
    let input_spec = emit_specs(&definition.inputs);
    let output_spec = emit_specs(&definition.outputs);
    Ok(
        UnitPlan {
            name,
            options,
            definition,
            fields,
            placeholders,
            input_spec,
            output_spec,
            arguments,
        },
    )
}

/// Plans the processing unit of a definition: `processor_attribute` under the
/// name the attribute is used by.
pub fn processor(attr: &Option<Vec<MetaArg>>, item: &Declaration) -> (r: Result<
    UnitPlan,
    DefinitionError,
>)
    ensures
        match r {
            Ok(plan) => accepted(item.form, item.params@) && plan.plans(*attr, *item),
            Err(e) => options_refused(*attr, e) || (options_clean(*attr) && refused(item.form, item.params@, e)),
        },
{
    processor_attribute(attr, item)
}

} // verus!

use raug_macros::decl::{
    Declaration, DeclarationForm, DeclaredType, GenericDecl, MetaArg, ParamDecl, Pattern, TypeForm,
};
use raug_macros::emit::{placeholder_field, processor, processor_attribute};
use raug_macros::error::DefinitionError;
use raug_macros::options::parse_options;
use raug_macros::role::{check_shape, claimed_role, kind_of, parse_definition, ParameterRole};
use raug_macros::signal::SignalKind;

fn ident(name: &str) -> DeclaredType {
    DeclaredType { text: name.to_string(), form: TypeForm::Ident }
}

fn path(text: &str) -> DeclaredType {
    DeclaredType { text: text.to_string(), form: TypeForm::Path }
}

fn other(text: &str) -> DeclaredType {
    DeclaredType { text: text.to_string(), form: TypeForm::Other }
}

fn reference(mutable: bool, elem: DeclaredType) -> DeclaredType {
    let text = format!("&{}{}", if mutable { "mut " } else { "" }, elem.text);
    DeclaredType { text, form: TypeForm::Reference { mutable, elem: Box::new(elem) } }
}

fn grouped(elem: DeclaredType) -> DeclaredType {
    DeclaredType { text: elem.text.clone(), form: TypeForm::Group { elem: Box::new(elem) } }
}

fn named(name: &str) -> Pattern {
    Pattern { text: name.to_string(), ident: Some(name.to_string()) }
}

fn tuple_pattern(text: &str) -> Pattern {
    Pattern { text: text.to_string(), ident: None }
}

fn param(attr: Option<&str>, name: &str, ty: DeclaredType) -> ParamDecl {
    ParamDecl::Typed { attr: attr.map(|a| a.to_string()), pattern: named(name), ty }
}

fn function(name: &str, params: Vec<ParamDecl>) -> Declaration {
    Declaration {
        form: DeclarationForm::Function,
        name: name.to_string(),
        generics: Vec::new(),
        params,
    }
}

fn add_to_counter() -> Declaration {
    function(
        "add_to_counter",
        vec![
            param(Some("state"), "counter", reference(true, ident("f32"))),
            param(Some("input"), "a", reference(false, ident("f32"))),
            param(Some("input"), "b", reference(false, ident("f32"))),
            param(Some("output"), "out", reference(true, ident("f32"))),
        ],
    )
}

fn derive(items: &[&str]) -> MetaArg {
    MetaArg::List {
        name: "derive".to_string(),
        items: items.iter().map(|i| Some(i.to_string())).collect(),
    }
}

fn name_value(name: &str, value: Option<&str>) -> MetaArg {
    MetaArg::NameValue { name: name.to_string(), value: value.map(|v| v.to_string()) }
}

/// An attribute without arguments.
fn no_arguments() -> Option<Vec<MetaArg>> {
    Some(Vec::new())
}

fn plan_error(attr: Option<Vec<MetaArg>>, item: Declaration) -> DefinitionError {
    match processor_attribute(&attr, &item) {
        Ok(_) => panic!("the definition was accepted"),
        Err(e) => e,
    }
}

fn one_param_error(p: ParamDecl) -> DefinitionError {
    plan_error(no_arguments(), function("f", vec![p]))
}

#[test]
fn plans_the_counter_unit() {
    let attr = Some(vec![derive(&["Clone", "Copy", "Debug", "Default"])]);
    let plan = processor_attribute(&attr, &add_to_counter()).unwrap();
    assert_eq!(plan.name, "AddToCounter");
    assert_eq!(plan.options.extra_derives, vec!["Clone", "Copy", "Debug", "Default"]);
    assert_eq!(plan.options.allocate_fn, None);
    assert_eq!(plan.options.resize_buffers_fn, None);
    let fields: Vec<(&str, &str)> =
        plan.fields.iter().map(|f| (f.name.as_str(), f.ty.as_str())).collect();
    assert_eq!(fields, vec![("counter", "f32"), ("a", "f32"), ("b", "f32"), ("out", "f32")]);
    let arguments: Vec<(&str, &str, bool)> =
        plan.arguments.iter().map(|a| (a.name.as_str(), a.ty.as_str(), a.exclusive)).collect();
    assert_eq!(
        arguments,
        vec![("counter", "f32", true), ("a", "f32", false), ("b", "f32", false), ("out", "f32", true)]
    );
    assert!(plan.placeholders.is_empty());
    assert!(plan.definition.environment.is_none());
}

#[test]
fn specs_follow_declaration_order() {
    let item = function(
        "mix",
        vec![
            param(Some("output"), "left", reference(true, ident("f64"))),
            param(Some("input"), "gate", reference(false, ident("bool"))),
            param(Some("state"), "gain", reference(true, ident("f32"))),
            param(Some("input"), "count", reference(false, ident("i64"))),
            param(Some("output"), "event", reference(true, ident("MidiMessage"))),
            param(Some("input"), "level", reference(false, ident("f32"))),
        ],
    );
    let plan = processor_attribute(&no_arguments(), &item).unwrap();
    let inputs: Vec<(&str, SignalKind)> =
        plan.input_spec.iter().map(|s| (s.name.as_str(), s.kind)).collect();
    assert_eq!(
        inputs,
        vec![("gate", SignalKind::Bool), ("count", SignalKind::Int), ("level", SignalKind::Float)]
    );
    let outputs: Vec<(&str, SignalKind)> =
        plan.output_spec.iter().map(|s| (s.name.as_str(), s.kind)).collect();
    assert_eq!(outputs, vec![("left", SignalKind::Float), ("event", SignalKind::Midi)]);
    let positions: Vec<usize> = plan.definition.inputs.iter().map(|p| p.position).collect();
    assert_eq!(positions, vec![1, 3, 5]);
    let positions: Vec<usize> = plan.definition.outputs.iter().map(|p| p.position).collect();
    assert_eq!(positions, vec![0, 4]);
    assert_eq!(plan.definition.states.len(), 1);
    assert_eq!(plan.definition.states[0].name, "gain");
    assert_eq!(plan.definition.states[0].ty, "f32");
    assert_eq!(plan.definition.states[0].role, ParameterRole::State);
    assert_eq!(plan.definition.states[0].kind, None);
}

#[test]
fn spec_lists_are_the_same_on_every_call() {
    let plan = processor_attribute(&no_arguments(), &add_to_counter()).unwrap();
    let first: Vec<(String, SignalKind)> =
        plan.input_spec().into_iter().map(|s| (s.name, s.kind)).collect();
    let second: Vec<(String, SignalKind)> =
        plan.input_spec().into_iter().map(|s| (s.name, s.kind)).collect();
    let third: Vec<(String, SignalKind)> =
        plan.input_spec().into_iter().map(|s| (s.name, s.kind)).collect();
    assert_eq!(first, second);
    assert_eq!(second, third);
    assert_eq!(first.len(), 2);
    let first: Vec<(String, SignalKind)> =
        plan.output_spec().into_iter().map(|s| (s.name, s.kind)).collect();
    let second: Vec<(String, SignalKind)> =
        plan.output_spec().into_iter().map(|s| (s.name, s.kind)).collect();
    assert_eq!(first, second);
    assert_eq!(first, vec![("out".to_string(), SignalKind::Float)]);
}

#[test]
fn a_definition_without_channels_is_valid() {
    let plan = processor_attribute(&no_arguments(), &function("tick", Vec::new())).unwrap();
    assert_eq!(plan.name, "Tick");
    assert!(plan.input_spec.is_empty());
    assert!(plan.output_spec.is_empty());
    assert!(plan.fields.is_empty());
    assert!(plan.arguments.is_empty());
    let stateful = function("tick", vec![param(Some("state"), "n", reference(true, ident("u32")))]);
    let plan = processor_attribute(&no_arguments(), &stateful).unwrap();
    assert!(plan.input_spec().is_empty());
    assert!(plan.output_spec().is_empty());
    assert_eq!(plan.fields.len(), 1);
}

#[test]
fn processor_is_processor_attribute() {
    let attr = Some(vec![derive(&["Debug"])]);
    let a = processor(&attr, &add_to_counter()).unwrap();
    let b = processor_attribute(&attr, &add_to_counter()).unwrap();
    assert_eq!(a.name, b.name);
    assert_eq!(a.options.extra_derives, b.options.extra_derives);
    assert_eq!(a.fields.len(), b.fields.len());
    let bad = function("f", vec![ParamDecl::Receiver]);
    assert_eq!(processor(&no_arguments(), &bad).err(), processor_attribute(&no_arguments(), &bad).err());
    assert_eq!(processor(&no_arguments(), &bad).err(), Some(DefinitionError::MissingRole { parameter: 0 }));
}

#[test]
fn the_unit_name_is_in_pascal_case() {
    for (declared, expected) in [
        ("add_to_counter", "AddToCounter"),
        ("gain", "Gain"),
        ("low_pass_filter", "LowPassFilter"),
        ("midi2freq", "Midi2Freq"),
    ] {
        let plan = processor_attribute(&no_arguments(), &function(declared, Vec::new())).unwrap();
        assert_eq!(plan.name, expected);
    }
}

#[test]
fn type_parameters_get_placeholders() {
    let mut item = function(
        "hold",
        vec![param(Some("state"), "last", reference(true, ident("T")))],
    );
    item.generics = vec![
        GenericDecl::Lifetime("'a".to_string()),
        GenericDecl::Type("T".to_string()),
        GenericDecl::Const("N".to_string()),
        GenericDecl::Type("Sample".to_string()),
    ];
    let plan = processor_attribute(&no_arguments(), &item).unwrap();
    let placeholders: Vec<(&str, &str)> =
        plan.placeholders.iter().map(|p| (p.name.as_str(), p.type_param.as_str())).collect();
    assert_eq!(placeholders, vec![("_t", "T"), ("_sample", "Sample")]);
    assert_eq!(plan.definition.type_params, vec!["T", "Sample"]);
    assert_eq!(plan.fields.len(), 1);
    assert_eq!(plan.fields[0].ty, "T");
}

#[test]
fn a_placeholder_begins_with_an_underscore() {
    assert_eq!(placeholder_field("t"), "_t");
    assert_eq!(placeholder_field("sample"), "_sample");
    assert_eq!(placeholder_field(""), "_");
}

#[test]
fn the_environment_is_found_by_its_type() {
    let item = function(
        "f",
        vec![
            param(Some("input"), "a", reference(false, ident("f32"))),
            ParamDecl::Typed { attr: None, pattern: named("env"), ty: ident("ProcEnv") },
        ],
    );
    let definition = parse_definition(&item).unwrap();
    let env = definition.environment.unwrap();
    assert_eq!(env.name, "env");
    assert_eq!(env.ty, "ProcEnv");
    assert_eq!(env.role, ParameterRole::Environment);
    assert_eq!(env.position, 1);
    assert_eq!(env.kind, None);
    assert_eq!(definition.inputs.len(), 1);
    // an attribute does not change what the type says
    let tagged = param(Some("input"), "env", ident("ProcEnv"));
    assert_eq!(claimed_role(&tagged), Some(ParameterRole::Environment));
    // a longer path to the type is not the environment
    let qualified = ParamDecl::Typed {
        attr: None,
        pattern: named("env"),
        ty: path("raug :: processor :: io :: ProcEnv"),
    };
    assert_eq!(claimed_role(&qualified), None);
    assert_eq!(one_param_error(qualified), DefinitionError::MissingRole { parameter: 0 });
    // any pattern will do for the environment
    let item = function(
        "f",
        vec![ParamDecl::Typed { attr: None, pattern: tuple_pattern("mut e"), ty: ident("ProcEnv") }],
    );
    assert_eq!(parse_definition(&item).unwrap().environment.unwrap().name, "mut e");
}

#[test]
fn a_second_environment_is_refused() {
    let env = |name: &str| ParamDecl::Typed {
        attr: None,
        pattern: named(name),
        ty: ident("ProcEnv"),
    };
    let item = function(
        "f",
        vec![env("e1"), param(Some("input"), "a", reference(false, ident("f32"))), env("e2")],
    );
    assert_eq!(plan_error(no_arguments(), item), DefinitionError::DuplicateEnvironment { parameter: 2 });
}

#[test]
fn parameters_without_a_role_are_refused() {
    assert_eq!(
        one_param_error(ParamDecl::Receiver),
        DefinitionError::MissingRole { parameter: 0 }
    );
    assert_eq!(
        one_param_error(param(None, "x", reference(false, ident("f32")))),
        DefinitionError::MissingRole { parameter: 0 }
    );
    assert_eq!(
        one_param_error(param(Some("inputs"), "x", reference(false, ident("f32")))),
        DefinitionError::UnknownRole { parameter: 0 }
    );
    assert_eq!(
        one_param_error(param(Some("raug :: input"), "x", reference(false, ident("f32")))),
        DefinitionError::UnknownRole { parameter: 0 }
    );
}

#[test]
fn unnamed_parameters_are_refused() {
    let unnamed = |attr: &str, ty: DeclaredType| ParamDecl::Typed {
        attr: Some(attr.to_string()),
        pattern: tuple_pattern("(a, b)"),
        ty,
    };
    assert_eq!(
        one_param_error(unnamed("state", reference(true, ident("f32")))),
        DefinitionError::UnnamedState { parameter: 0 }
    );
    assert_eq!(
        one_param_error(unnamed("input", reference(false, ident("f32")))),
        DefinitionError::UnnamedInput { parameter: 0 }
    );
    assert_eq!(
        one_param_error(unnamed("output", reference(true, ident("f32")))),
        DefinitionError::UnnamedOutput { parameter: 0 }
    );
}

#[test]
fn inputs_must_be_shared_references() {
    assert_eq!(
        one_param_error(param(Some("input"), "a", reference(true, ident("f32")))),
        DefinitionError::InputMutable { parameter: 0 }
    );
    assert_eq!(
        one_param_error(param(Some("input"), "a", ident("f32"))),
        DefinitionError::InputNotReference { parameter: 0 }
    );
    assert_eq!(
        one_param_error(param(Some("input"), "a", grouped(ident("f32")))),
        DefinitionError::InputGroupNotReference { parameter: 0 }
    );
    assert_eq!(
        one_param_error(param(Some("input"), "a", grouped(reference(true, ident("f32"))))),
        DefinitionError::InputMutable { parameter: 0 }
    );
    // one wrapper is looked through, a second is not
    assert_eq!(
        one_param_error(param(Some("input"), "a", grouped(grouped(reference(false, ident("f32")))))),
        DefinitionError::InputGroupNotReference { parameter: 0 }
    );
    let item = function("f", vec![param(Some("input"), "a", grouped(reference(false, ident("f32"))))]);
    let plan = processor_attribute(&no_arguments(), &item).unwrap();
    assert_eq!(plan.fields[0].ty, "f32");
    assert_eq!(plan.input_spec[0].kind, SignalKind::Float);
}

#[test]
fn outputs_must_be_exclusive_references() {
    assert_eq!(
        one_param_error(param(Some("output"), "o", reference(false, ident("f32")))),
        DefinitionError::OutputImmutable { parameter: 0 }
    );
    assert_eq!(
        one_param_error(param(Some("output"), "o", other("[f32; 2]"))),
        DefinitionError::OutputNotReference { parameter: 0 }
    );
    assert_eq!(
        one_param_error(param(Some("output"), "o", grouped(other("(f32, f32)")))),
        DefinitionError::OutputGroupNotReference { parameter: 0 }
    );
    assert_eq!(
        one_param_error(param(Some("output"), "o", grouped(reference(false, ident("f32"))))),
        DefinitionError::OutputImmutable { parameter: 0 }
    );
    let item = function("f", vec![param(Some("output"), "o", grouped(reference(true, ident("bool"))))]);
    let plan = processor_attribute(&no_arguments(), &item).unwrap();
    assert_eq!(plan.output_spec[0].kind, SignalKind::Bool);
}

#[test]
fn states_must_be_exclusive_references() {
    assert_eq!(
        one_param_error(param(Some("state"), "s", reference(false, ident("f32")))),
        DefinitionError::StateImmutable { parameter: 0 }
    );
    assert_eq!(
        one_param_error(param(Some("state"), "s", ident("f32"))),
        DefinitionError::StateNotReference { parameter: 0 }
    );
    // a state is not looked for inside a wrapper
    assert_eq!(
        one_param_error(param(Some("state"), "s", grouped(reference(true, ident("f32"))))),
        DefinitionError::StateNotReference { parameter: 0 }
    );
    // the type of a state needs no signal kind
    let item = function("f", vec![param(Some("state"), "s", reference(true, path("Vec < String >")))]);
    let plan = processor_attribute(&no_arguments(), &item).unwrap();
    assert_eq!(plan.fields[0].ty, "Vec < String >");
}

#[test]
fn the_fields_of_a_struct_declare_a_unit() {
    let mut item = function(
        "Envelope",
        vec![
            param(Some("state"), "level", ident("f32")),
            param(Some("state"), "history", path("Vec < f32 >")),
            param(Some("state"), "borrowed", reference(false, ident("f32"))),
            param(Some("input"), "gate", reference(false, ident("bool"))),
            param(Some("output"), "out", reference(true, ident("f32"))),
        ],
    );
    // as the parameters of a function, the states must be `&mut`
    assert_eq!(
        parse_definition(&item).err(),
        Some(DefinitionError::StateNotReference { parameter: 0 })
    );
    // as the fields of a struct, they are held as they are declared
    item.form = DeclarationForm::Fields;
    let definition = parse_definition(&item).unwrap();
    let states: Vec<(&str, &str)> =
        definition.states.iter().map(|s| (s.name.as_str(), s.ty.as_str())).collect();
    assert_eq!(states, vec![("level", "f32"), ("history", "Vec < f32 >"), ("borrowed", "&f32")]);
    assert_eq!(definition.inputs[0].ty, "bool");
    assert_eq!(definition.outputs[0].ty, "f32");
    // the channels are declared as in a function
    item.params[3] = param(Some("input"), "gate", ident("bool"));
    assert_eq!(
        parse_definition(&item).err(),
        Some(DefinitionError::InputNotReference { parameter: 3 })
    );
}

#[test]
fn names_are_unique_within_a_role() {
    let item = function(
        "f",
        vec![
            param(Some("input"), "a", reference(false, ident("f32"))),
            param(Some("output"), "a", reference(true, ident("f32"))),
            param(Some("state"), "a", reference(true, ident("f32"))),
            param(Some("input"), "b", reference(false, ident("f32"))),
        ],
    );
    assert!(parse_definition(&item).is_ok());
    let item = function(
        "f",
        vec![
            param(Some("input"), "a", reference(false, ident("f32"))),
            param(Some("output"), "x", reference(true, ident("f32"))),
            param(Some("input"), "b", reference(false, ident("f32"))),
            param(Some("output"), "x", reference(true, ident("f32"))),
            param(Some("input"), "a", reference(false, ident("f32"))),
        ],
    );
    assert_eq!(plan_error(no_arguments(), item), DefinitionError::DuplicateName { parameter: 3 });
    let item = function(
        "f",
        vec![
            param(Some("state"), "s", reference(true, ident("f32"))),
            param(Some("state"), "s", reference(true, ident("i64"))),
        ],
    );
    assert_eq!(plan_error(no_arguments(), item), DefinitionError::DuplicateName { parameter: 1 });
    // the kinds are looked at before the names
    let item = function(
        "f",
        vec![
            param(Some("input"), "a", reference(false, ident("f32"))),
            param(Some("input"), "a", reference(false, ident("u8"))),
        ],
    );
    assert_eq!(plan_error(no_arguments(), item), DefinitionError::UnmappedType { parameter: 1 });
}

#[test]
fn channel_types_without_a_kind_are_refused() {
    assert_eq!(
        one_param_error(param(Some("input"), "a", reference(false, ident("u8")))),
        DefinitionError::UnmappedType { parameter: 0 }
    );
    assert_eq!(
        one_param_error(param(Some("output"), "o", reference(true, path("std :: primitive :: f32")))),
        DefinitionError::UnmappedType { parameter: 0 }
    );
    assert_eq!(
        one_param_error(param(Some("input"), "a", reference(false, other("[f32; 4]")))),
        DefinitionError::UnmappedType { parameter: 0 }
    );
    assert_eq!(kind_of(&ident("f32")), Some(SignalKind::Float));
    assert_eq!(kind_of(&grouped(ident("i64"))), Some(SignalKind::Int));
    assert_eq!(kind_of(&grouped(grouped(ident("bool")))), Some(SignalKind::Bool));
    assert_eq!(kind_of(&grouped(ident("u8"))), None);
    assert_eq!(kind_of(&path("f32")), None);
    assert_eq!(kind_of(&reference(false, ident("f32"))), None);
}

#[test]
fn the_passes_run_in_order() {
    // a shape error further down comes before a state error further up
    let item = function(
        "f",
        vec![
            param(Some("state"), "s", ident("f32")),
            param(Some("input"), "a", reference(false, ident("u8"))),
            param(Some("output"), "o", reference(true, ident("u8"))),
            param(Some("input"), "b", ident("f32")),
        ],
    );
    assert_eq!(plan_error(no_arguments(), item), DefinitionError::InputNotReference { parameter: 3 });
    // a state error comes before an unmapped type further up
    let item = function(
        "f",
        vec![
            param(Some("input"), "a", reference(false, ident("u8"))),
            param(Some("state"), "s", ident("f32")),
        ],
    );
    assert_eq!(plan_error(no_arguments(), item), DefinitionError::StateNotReference { parameter: 1 });
    // the inputs are mapped before the outputs
    let item = function(
        "f",
        vec![
            param(Some("output"), "o", reference(true, ident("u8"))),
            param(Some("input"), "a", reference(false, ident("u16"))),
        ],
    );
    assert_eq!(plan_error(no_arguments(), item), DefinitionError::UnmappedType { parameter: 1 });
    // within a pass the first parameter in error decides
    let item = function(
        "f",
        vec![
            param(Some("input"), "a", reference(false, ident("f32"))),
            param(Some("output"), "o", reference(false, ident("f32"))),
            param(None, "x", ident("f32")),
        ],
    );
    assert_eq!(plan_error(no_arguments(), item), DefinitionError::OutputImmutable { parameter: 1 });
    // the attribute is read before the declaration
    let item = function("f", vec![ParamDecl::Receiver]);
    assert_eq!(
        plan_error(Some(vec![MetaArg::List { name: "allow".to_string(), items: Vec::new() }]), item),
        DefinitionError::UnknownListAttribute { argument: 0 }
    );
}

#[test]
fn check_shape_looks_at_one_parameter() {
    assert_eq!(check_shape(&param(Some("input"), "a", reference(false, ident("f32"))), 4), None);
    assert_eq!(check_shape(&param(Some("state"), "s", ident("f32")), 4), None);
    assert_eq!(
        check_shape(&param(Some("output"), "o", ident("f32")), 4),
        Some(DefinitionError::OutputNotReference { parameter: 4 })
    );
    assert_eq!(check_shape(&ParamDecl::Receiver, 2), Some(DefinitionError::MissingRole { parameter: 2 }));
}

#[test]
fn options_are_read_in_order() {
    let options = parse_options(&no_arguments()).unwrap();
    assert!(options.extra_derives.is_empty());
    assert_eq!(options.allocate_fn, None);
    assert_eq!(options.resize_buffers_fn, None);

    let args = vec![
        derive(&["Clone"]),
        name_value("allocate", Some("first")),
        derive(&[]),
        name_value("resize_buffers", Some("my :: resize")),
        derive(&["Debug", "Default"]),
        name_value("allocate", Some("second")),
    ];
    let options = parse_options(&Some(args)).unwrap();
    assert_eq!(options.extra_derives, vec!["Clone", "Debug", "Default"]);
    assert_eq!(options.allocate_fn.as_deref(), Some("second"));
    assert_eq!(options.resize_buffers_fn.as_deref(), Some("my :: resize"));
}

#[test]
fn an_attribute_that_cannot_be_read_is_refused() {
    assert_eq!(parse_options(&None).err(), Some(DefinitionError::UnreadableAttribute));
    // whatever the declaration is
    assert_eq!(
        processor_attribute(&None, &add_to_counter()).err(),
        Some(DefinitionError::UnreadableAttribute)
    );
    assert_eq!(
        processor(&None, &function("tick", Vec::new())).err(),
        Some(DefinitionError::UnreadableAttribute)
    );
    assert_eq!(
        processor_attribute(&None, &function("f", vec![ParamDecl::Receiver])).err(),
        Some(DefinitionError::UnreadableAttribute)
    );
    // an attribute without arguments can be read
    assert!(processor_attribute(&no_arguments(), &add_to_counter()).is_ok());
}

#[test]
fn a_bare_word_is_no_argument() {
    let word = |name: &str| MetaArg::Path { name: name.to_string() };
    for name in ["anything", "derive", "allocate", "resize_buffers"] {
        assert_eq!(
            parse_options(&Some(vec![word(name)])).err(),
            Some(DefinitionError::UnknownWordAttribute { argument: 0 })
        );
    }
    assert_eq!(
        parse_options(&Some(vec![derive(&["Clone"]), word("fast"), name_value("allocate", None)]))
            .err(),
        Some(DefinitionError::UnknownWordAttribute { argument: 1 })
    );
    assert_eq!(
        plan_error(Some(vec![word("fast")]), add_to_counter()),
        DefinitionError::UnknownWordAttribute { argument: 0 }
    );
}

#[test]
fn malformed_options_are_refused() {
    let refuse = |args: Vec<MetaArg>| parse_options(&Some(args)).err().unwrap();
    assert_eq!(
        refuse(vec![derive(&["Clone"]), MetaArg::List { name: "cfg".to_string(), items: Vec::new() }]),
        DefinitionError::UnknownListAttribute { argument: 1 }
    );
    assert_eq!(
        refuse(vec![MetaArg::List {
            name: "derive".to_string(),
            items: vec![Some("Clone".to_string()), None],
        }]),
        DefinitionError::MalformedDerive { argument: 0 }
    );
    assert_eq!(
        refuse(vec![name_value("allocate", None)]),
        DefinitionError::AllocateNotPath { argument: 0 }
    );
    assert_eq!(
        refuse(vec![name_value("resize_buffers", None)]),
        DefinitionError::ResizeBuffersNotPath { argument: 0 }
    );
    assert_eq!(
        refuse(vec![name_value("allocate", Some("a")), name_value("allocate_fn", Some("a"))]),
        DefinitionError::UnknownNamedAttribute { argument: 1 }
    );
    // the first argument in error decides
    assert_eq!(
        refuse(vec![name_value("resize_buffers", None), name_value("allocate", None)]),
        DefinitionError::ResizeBuffersNotPath { argument: 0 }
    );
}

#[test]
fn every_error_has_its_message() {
    let cases = [
        (DefinitionError::UnreadableAttribute, "Malformed attribute arguments"),
        (
            DefinitionError::UnknownWordAttribute { argument: 0 },
            "Unknown attribute. Only `derive`, `allocate` and `resize_buffers` are supported.",
        ),
        (DefinitionError::UnknownListAttribute { argument: 0 }, "Unknown attribute. Only `derive` is supported."),
        (DefinitionError::MalformedDerive { argument: 0 }, "Expected an identifier in `derive`"),
        (DefinitionError::AllocateNotPath { argument: 0 }, "Expected a path for `allocate`"),
        (DefinitionError::ResizeBuffersNotPath { argument: 0 }, "Expected a path for `resize_buffers`"),
        (
            DefinitionError::UnknownNamedAttribute { argument: 0 },
            "Unknown attribute. Only `allocate` and `resize_buffers` are supported.",
        ),
        (DefinitionError::MissingRole { parameter: 0 }, "Expected a function argument with attributes"),
        (DefinitionError::DuplicateEnvironment { parameter: 0 }, "Only one ProcEnv argument is allowed"),
        (
            DefinitionError::UnknownRole { parameter: 0 },
            "Unknown attribute. Only `state`, `input`, and `output` are supported.",
        ),
        (DefinitionError::UnnamedState { parameter: 0 }, "State argument must be a named identifier"),
        (DefinitionError::UnnamedInput { parameter: 0 }, "Input argument must be a named identifier"),
        (DefinitionError::UnnamedOutput { parameter: 0 }, "Output argument must be a named identifier"),
        (DefinitionError::InputMutable { parameter: 0 }, "Input argument must be immutable reference"),
        (
            DefinitionError::InputGroupNotReference { parameter: 0 },
            "Input argument must be a reference inside a group",
        ),
        (DefinitionError::InputNotReference { parameter: 0 }, "Input argument must be a reference"),
        (DefinitionError::OutputImmutable { parameter: 0 }, "Output argument must be mutable reference"),
        (
            DefinitionError::OutputGroupNotReference { parameter: 0 },
            "Output argument must be a reference inside a group",
        ),
        (DefinitionError::OutputNotReference { parameter: 0 }, "Output argument must be a reference"),
        (DefinitionError::StateImmutable { parameter: 0 }, "State argument must be mutable reference"),
        (DefinitionError::StateNotReference { parameter: 0 }, "State argument must be a mutable reference"),
        (DefinitionError::UnmappedType { parameter: 0 }, "Unsupported signal type"),
        (DefinitionError::DuplicateName { parameter: 0 }, "Argument names must be unique within a role"),
        (DefinitionError::UnmappedInput { channel: 0 }, "Unsupported signal type"),
        (DefinitionError::UnmappedOutput { channel: 0 }, "Unsupported signal type"),
        (DefinitionError::Syntax { token: 9 }, "unexpected token"),
    ];
    for (error, message) in cases {
        assert_eq!(error.message(), message);
    }
}

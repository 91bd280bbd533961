use raug_macros::block::{IoError, ProcEnv, ProcessorError, SampleOutcome};
use raug_macros::channel::Channel;
use raug_macros::decl::{Declaration, DeclarationForm, DeclaredType, ParamDecl, Pattern, TypeForm};
use raug_macros::emit::processor_attribute;
use raug_macros::signal::{SignalKind, SignalSpec, SignalValue};
use raug_macros::unit::{ProcessingUnit, Strategy};

const STRATEGIES: [Strategy; 2] = [Strategy::Accumulate, Strategy::PerSample];

fn env(block_size: usize) -> ProcEnv {
    ProcEnv { sample_rate: 48_000, block_size }
}

fn specs(list: &[(&str, SignalKind)]) -> Vec<SignalSpec> {
    list.iter().map(|(name, kind)| SignalSpec::new(name, *kind)).collect()
}

fn ints(values: &[i64]) -> Channel {
    Channel::Int(values.iter().map(|v| Some(*v)).collect())
}

fn int_of(value: SignalValue) -> i64 {
    match value {
        SignalValue::Int(n) => n,
        other => panic!("not an integer: {other:?}"),
    }
}

fn accumulator(initial: i64) -> ProcessingUnit<i64> {
    ProcessingUnit::new(
        "Accumulator",
        specs(&[("a", SignalKind::Int), ("b", SignalKind::Int)]),
        specs(&[("out", SignalKind::Int)]),
        initial,
    )
}

fn accumulate(
    _env: &ProcEnv,
    state: &i64,
    inputs: &Vec<SignalValue>,
    _outputs: &Vec<SignalValue>,
) -> SampleOutcome<i64, String> {
    let state = *state + int_of(inputs[0]) + int_of(inputs[1]);
    SampleOutcome { state, outputs: vec![SignalValue::Int(state)], result: Ok(()) }
}

/// Copies input 0 to output 0 and counts the calls.
fn follow(
    _env: &ProcEnv,
    calls: &u32,
    inputs: &Vec<SignalValue>,
    _outputs: &Vec<SignalValue>,
) -> SampleOutcome<u32, String> {
    SampleOutcome { state: *calls + 1, outputs: vec![inputs[0]], result: Ok(()) }
}

fn follower(kind: SignalKind) -> ProcessingUnit<u32> {
    ProcessingUnit::new("Follow", specs(&[("x", kind)]), specs(&[("y", kind)]), 0)
}

#[test]
fn the_accumulator_sums_its_inputs() {
    for strategy in STRATEGIES {
        let mut unit = accumulator(0);
        let inputs = vec![Some(ints(&[1, 2, 3])), Some(ints(&[10, 20, 30]))];
        let mut outputs = unit.create_output_buffers(3);
        let result = unit.process(strategy, &env(3), &inputs, &mut outputs, accumulate);
        assert_eq!(result, Ok(()));
        assert_eq!(outputs, vec![ints(&[11, 33, 66])]);
        assert_eq!(*unit.state(), 66);
        assert_eq!(unit.held_inputs(), vec![SignalValue::Int(3), SignalValue::Int(30)]);
        assert_eq!(unit.held_outputs(), vec![SignalValue::Int(66)]);
    }
}

#[test]
fn the_state_lasts_from_block_to_block() {
    for strategy in STRATEGIES {
        let mut unit = accumulator(100);
        let inputs = vec![Some(ints(&[1, 2, 3])), Some(ints(&[10, 20, 30]))];
        let mut outputs = unit.create_output_buffers(3);
        assert_eq!(unit.process(strategy, &env(3), &inputs, &mut outputs, accumulate), Ok(()));
        assert_eq!(outputs, vec![ints(&[111, 133, 166])]);
        assert_eq!(unit.process(strategy, &env(3), &inputs, &mut outputs, accumulate), Ok(()));
        assert_eq!(outputs, vec![ints(&[177, 199, 232])]);
    }
}

#[test]
fn an_absent_sample_holds_the_value_before() {
    for strategy in STRATEGIES {
        let mut unit = follower(SignalKind::Int);
        assert!(unit.set_input(0, SignalValue::Int(-7)));
        let inputs = vec![Some(Channel::Int(vec![None, Some(1), None, None, Some(5), None]))];
        let mut outputs = unit.create_output_buffers(6);
        assert_eq!(unit.process(strategy, &env(6), &inputs, &mut outputs, follow), Ok(()));
        // the first index falls back to the value held before the block
        assert_eq!(outputs, vec![ints(&[-7, 1, 1, 1, 5, 5])]);
        assert_eq!(unit.held_inputs(), vec![SignalValue::Int(5)]);
        // and the next block begins with the value held at the end of this one
        let inputs = vec![Some(Channel::Int(vec![None; 6]))];
        assert_eq!(unit.process(strategy, &env(6), &inputs, &mut outputs, follow), Ok(()));
        assert_eq!(outputs, vec![ints(&[5, 5, 5, 5, 5, 5])]);
    }
}

#[test]
fn a_fresh_unit_holds_zeros() {
    let unit: ProcessingUnit<()> = ProcessingUnit::new(
        "Fresh",
        specs(&[
            ("a", SignalKind::Bool),
            ("b", SignalKind::Float),
            ("c", SignalKind::Int),
            ("d", SignalKind::Midi),
        ]),
        specs(&[("e", SignalKind::Float)]),
        (),
    );
    assert_eq!(
        unit.held_inputs(),
        vec![
            SignalValue::Bool(false),
            SignalValue::Float(0),
            SignalValue::Int(0),
            SignalValue::Midi(0, 0, 0)
        ]
    );
    assert_eq!(unit.held_outputs(), vec![SignalValue::Float(0f64.to_bits())]);
    for strategy in STRATEGIES {
        let mut unit = follower(SignalKind::Float);
        let inputs = vec![None];
        let mut outputs = vec![Channel::Float(vec![Some(9), Some(9)])];
        assert_eq!(unit.process(strategy, &env(2), &inputs, &mut outputs, follow), Ok(()));
        assert_eq!(outputs, vec![Channel::Float(vec![Some(0), Some(0)])]);
    }
}

#[test]
fn both_strategies_leave_the_same() {
    fn run(strategy: Strategy, fail_at: i64, misshape_at: i64) -> (ProcessingUnit<i64>, Vec<Channel>, Vec<Result<(), ProcessorError<String>>>) {
        let transform = move |_env: &ProcEnv, state: &i64, inputs: &Vec<SignalValue>, outputs: &Vec<SignalValue>| {
            let a = int_of(inputs[0]);
            let next = *state * 3 + a + int_of(outputs[0]);
            if a == misshape_at {
                SampleOutcome { state: next, outputs: vec![], result: Ok(()) }
            } else {
                SampleOutcome {
                    state: next,
                    outputs: vec![SignalValue::Int(next), SignalValue::Bool(a % 2 == 0)],
                    result: if a == fail_at { Err(format!("failed on {a}")) } else { Ok(()) },
                }
            }
        };
        let mut unit = ProcessingUnit::new(
            "Both",
            specs(&[("a", SignalKind::Int), ("unused", SignalKind::Midi)]),
            specs(&[("n", SignalKind::Int), ("even", SignalKind::Bool)]),
            1i64,
        );
        let mut outputs = unit.create_output_buffers(5);
        let mut results = Vec::new();
        let blocks = [
            vec![Some(1), None, Some(3), Some(4), None],
            vec![None, Some(6), Some(7), None, Some(9)],
            vec![Some(10), Some(11), None, Some(13), Some(14)],
        ];
        for block in blocks {
            let inputs = vec![Some(Channel::Int(block)), None];
            results.push(unit.process(strategy, &env(5), &inputs, &mut outputs, &transform));
        }
        (unit, outputs, results)
    }
    for (fail_at, misshape_at) in [(-1, -1), (7, -1), (-1, 7), (1, -1), (-1, 1), (14, 13), (9, 10)] {
        let (unit_a, outputs_a, results_a) = run(Strategy::Accumulate, fail_at, misshape_at);
        let (unit_b, outputs_b, results_b) = run(Strategy::PerSample, fail_at, misshape_at);
        assert_eq!(outputs_a, outputs_b);
        assert_eq!(results_a, results_b);
        assert_eq!(unit_a.state(), unit_b.state());
        assert_eq!(unit_a.held_inputs(), unit_b.held_inputs());
        assert_eq!(unit_a.held_outputs(), unit_b.held_outputs());
        if fail_at == -1 && misshape_at == -1 {
            assert_eq!(results_a, vec![Ok(()), Ok(()), Ok(())]);
        }
    }
}

#[test]
fn a_unit_without_channels_still_runs_every_index() {
    let count = |_env: &ProcEnv, calls: &u64, _inputs: &Vec<SignalValue>, _outputs: &Vec<SignalValue>| {
        SampleOutcome { state: *calls + 1, outputs: Vec::new(), result: Ok::<(), String>(()) }
    };
    for strategy in STRATEGIES {
        let mut unit = ProcessingUnit::new("Tick", Vec::new(), Vec::new(), 0u64);
        assert!(unit.input_spec().is_empty());
        assert!(unit.output_spec().is_empty());
        let mut outputs = unit.create_output_buffers(64);
        assert!(outputs.is_empty());
        assert_eq!(unit.process(strategy, &env(64), &Vec::new(), &mut outputs, &count), Ok(()));
        assert_eq!(*unit.state(), 64);
        assert_eq!(unit.process(strategy, &env(7), &Vec::new(), &mut outputs, &count), Ok(()));
        assert_eq!(*unit.state(), 71);
        assert_eq!(unit.process(strategy, &env(0), &Vec::new(), &mut outputs, &count), Ok(()));
        assert_eq!(*unit.state(), 71);
        assert!(outputs.is_empty());
    }
}

#[test]
fn a_failing_transform_stops_the_block() {
    let transform = |_env: &ProcEnv, calls: &u32, inputs: &Vec<SignalValue>, _outputs: &Vec<SignalValue>| {
        let x = int_of(inputs[0]);
        SampleOutcome {
            state: *calls + 1,
            outputs: vec![SignalValue::Int(x * 2)],
            result: if x < 0 { Err(format!("negative: {x}")) } else { Ok(()) },
        }
    };
    for strategy in STRATEGIES {
        let mut unit = follower(SignalKind::Int);
        let inputs = vec![Some(ints(&[1, 2, -3, 4, -5]))];
        let mut outputs = vec![ints(&[70, 71, 72, 73, 74])];
        let result = unit.process(strategy, &env(5), &inputs, &mut outputs, &transform);
        assert_eq!(
            result,
            Err(ProcessorError::Transform { index: 2, error: "negative: -3".to_string() })
        );
        // what the failing call wrote stays; no index after it was touched
        assert_eq!(outputs, vec![ints(&[2, 4, -6, 73, 74])]);
        assert_eq!(*unit.state(), 3);
        assert_eq!(unit.held_inputs(), vec![SignalValue::Int(-3)]);
        assert_eq!(unit.held_outputs(), vec![SignalValue::Int(-6)]);
    }
}

#[test]
fn outputs_of_another_shape_are_not_kept() {
    for (bad, _why) in [
        (vec![], "too few"),
        (vec![SignalValue::Int(1), SignalValue::Int(2)], "too many"),
        (vec![SignalValue::Bool(true)], "another kind"),
    ] {
        let transform = move |_env: &ProcEnv, calls: &u32, inputs: &Vec<SignalValue>, _outputs: &Vec<SignalValue>| {
            let x = int_of(inputs[0]);
            SampleOutcome {
                state: *calls + 1,
                outputs: if x == 30 { bad.clone() } else { vec![SignalValue::Int(x)] },
                result: Ok::<(), String>(()),
            }
        };
        for strategy in STRATEGIES {
            let mut unit = follower(SignalKind::Int);
            let inputs = vec![Some(ints(&[10, 20, 30, 40]))];
            let mut outputs = unit.create_output_buffers(4);
            let result = unit.process(strategy, &env(4), &inputs, &mut outputs, &transform);
            assert_eq!(result, Err(ProcessorError::OutputShape { index: 2 }));
            assert_eq!(outputs, vec![ints(&[10, 20, 0, 0])]);
            assert_eq!(*unit.state(), 2);
            assert_eq!(unit.held_inputs(), vec![SignalValue::Int(30)]);
            assert_eq!(unit.held_outputs(), vec![SignalValue::Int(20)]);
        }
    }
}

#[test]
fn channels_that_are_not_as_declared_are_refused() {
    let cases: Vec<(Vec<Option<Channel>>, Vec<Channel>, IoError)> = vec![
        (vec![], vec![ints(&[0, 0])], IoError::InputCount { expected: 1, found: 0 }),
        (
            vec![Some(ints(&[1, 2])), None],
            vec![ints(&[0, 0])],
            IoError::InputCount { expected: 1, found: 2 },
        ),
        (
            vec![Some(Channel::Bool(vec![None, None]))],
            vec![ints(&[0, 0])],
            IoError::InputKind { channel: 0, expected: SignalKind::Int, found: SignalKind::Bool },
        ),
        (
            vec![Some(ints(&[1, 2, 3]))],
            vec![ints(&[0, 0])],
            IoError::InputLength { channel: 0, expected: 2, found: 3 },
        ),
        (vec![None], vec![], IoError::OutputCount { expected: 1, found: 0 }),
        (
            vec![None],
            vec![Channel::Float(vec![None, None])],
            IoError::OutputKind { channel: 0, expected: SignalKind::Int, found: SignalKind::Float },
        ),
        (
            vec![None],
            vec![ints(&[0])],
            IoError::OutputLength { channel: 0, expected: 2, found: 1 },
        ),
        // of one channel the kind is reported, not the length
        (
            vec![Some(Channel::Midi(vec![]))],
            vec![Channel::Bool(vec![])],
            IoError::InputKind { channel: 0, expected: SignalKind::Int, found: SignalKind::Midi },
        ),
        // every kind is checked before any length
        (
            vec![Some(ints(&[]))],
            vec![Channel::Bool(vec![])],
            IoError::OutputKind { channel: 0, expected: SignalKind::Int, found: SignalKind::Bool },
        ),
        // and both numbers before any kind
        (
            vec![Some(Channel::Bool(vec![None, None]))],
            vec![],
            IoError::OutputCount { expected: 1, found: 0 },
        ),
        (
            vec![],
            vec![],
            IoError::InputCount { expected: 1, found: 0 },
        ),
    ];
    for (inputs, outputs, fault) in cases {
        for strategy in STRATEGIES {
            let mut unit = follower(SignalKind::Int);
            unit.set_input(0, SignalValue::Int(4));
            let mut handed: Vec<Channel> = outputs.iter().map(Channel::duplicate).collect();
            let result = unit.process(strategy, &env(2), &inputs, &mut handed, follow);
            assert_eq!(result, Err(ProcessorError::Io(fault)));
            assert_eq!(handed, outputs);
            assert_eq!(*unit.state(), 0);
            assert_eq!(unit.held_inputs(), vec![SignalValue::Int(4)]);
        }
    }
}

#[test]
fn the_first_channel_in_fault_is_reported() {
    let mut unit: ProcessingUnit<()> = ProcessingUnit::new(
        "Wide",
        specs(&[("a", SignalKind::Int), ("b", SignalKind::Int), ("c", SignalKind::Int)]),
        specs(&[("x", SignalKind::Int), ("y", SignalKind::Int)]),
        (),
    );
    let nothing = |_env: &ProcEnv, _s: &(), _i: &Vec<SignalValue>, outputs: &Vec<SignalValue>| {
        SampleOutcome { state: (), outputs: outputs.clone(), result: Ok::<(), ()>(()) }
    };
    let inputs = vec![None, Some(ints(&[1])), Some(Channel::Bool(vec![None]))];
    let mut outputs = vec![ints(&[1, 2]), Channel::Bool(vec![None])];
    assert_eq!(
        unit.process(Strategy::PerSample, &env(1), &inputs, &mut outputs, &nothing),
        Err(ProcessorError::Io(IoError::InputKind {
            channel: 2,
            expected: SignalKind::Int,
            found: SignalKind::Bool
        }))
    );
    let inputs = vec![None, Some(ints(&[1])), None];
    assert_eq!(
        unit.process(Strategy::Accumulate, &env(1), &inputs, &mut outputs, &nothing),
        Err(ProcessorError::Io(IoError::OutputKind {
            channel: 1,
            expected: SignalKind::Int,
            found: SignalKind::Bool
        }))
    );
    let mut outputs = vec![ints(&[1, 2]), ints(&[3])];
    let inputs = vec![Some(ints(&[])), Some(ints(&[1])), Some(ints(&[1, 2]))];
    assert_eq!(
        unit.process(Strategy::Accumulate, &env(1), &inputs, &mut outputs, &nothing),
        Err(ProcessorError::Io(IoError::InputLength { channel: 0, expected: 1, found: 0 }))
    );
    let inputs = vec![None, Some(ints(&[1])), None];
    assert_eq!(
        unit.process(Strategy::PerSample, &env(1), &inputs, &mut outputs, &nothing),
        Err(ProcessorError::Io(IoError::OutputLength { channel: 0, expected: 1, found: 2 }))
    );
}

#[test]
fn output_buffers_are_zeroed() {
    let unit: ProcessingUnit<()> = ProcessingUnit::new(
        "Buffers",
        Vec::new(),
        specs(&[
            ("a", SignalKind::Float),
            ("b", SignalKind::Int),
            ("c", SignalKind::Bool),
            ("d", SignalKind::Midi),
        ]),
        (),
    );
    assert_eq!(
        unit.create_output_buffers(3),
        vec![
            Channel::Float(vec![Some(0.0f64.to_bits()); 3]),
            Channel::Int(vec![Some(0); 3]),
            Channel::Bool(vec![Some(false); 3]),
            Channel::Midi(vec![Some((0, 0, 0)); 3]),
        ]
    );
    assert_eq!(
        unit.create_output_buffers(0),
        vec![
            Channel::Float(vec![]),
            Channel::Int(vec![]),
            Channel::Bool(vec![]),
            Channel::Midi(vec![])
        ]
    );
}

#[test]
fn a_unit_reports_what_it_declares() {
    let unit = accumulator(0);
    assert_eq!(unit.name(), "Accumulator");
    for _ in 0..3 {
        let inputs: Vec<(String, SignalKind)> =
            unit.input_spec().into_iter().map(|s| (s.name, s.kind)).collect();
        assert_eq!(
            inputs,
            vec![("a".to_string(), SignalKind::Int), ("b".to_string(), SignalKind::Int)]
        );
        let outputs: Vec<(String, SignalKind)> =
            unit.output_spec().into_iter().map(|s| (s.name, s.kind)).collect();
        assert_eq!(outputs, vec![("out".to_string(), SignalKind::Int)]);
    }
}

#[test]
fn held_inputs_can_be_set() {
    let mut unit = accumulator(0);
    assert!(unit.set_input(1, SignalValue::Int(9)));
    assert_eq!(unit.held_inputs(), vec![SignalValue::Int(0), SignalValue::Int(9)]);
    assert!(!unit.set_input(1, SignalValue::Bool(true)));
    assert!(!unit.set_input(2, SignalValue::Int(1)));
    assert_eq!(unit.held_inputs(), vec![SignalValue::Int(0), SignalValue::Int(9)]);
}

#[test]
fn the_hooks_change_nothing() {
    let mut unit = accumulator(5);
    unit.set_input(0, SignalValue::Int(2));
    unit.allocate(44_100, 128);
    unit.resize_buffers(44_100, 256);
    unit.allocate(48_000, 1);
    assert_eq!(*unit.state(), 5);
    assert_eq!(unit.held_inputs(), vec![SignalValue::Int(2), SignalValue::Int(0)]);
    assert_eq!(unit.name(), "Accumulator");
}

#[test]
fn a_block_can_be_worked_through_step_by_step() {
    let mut unit = accumulator(0);
    let inputs = vec![Some(ints(&[1, 2, 3])), Some(Channel::Int(vec![Some(10), None, Some(30)]))];
    let mut outputs = unit.create_output_buffers(3);
    for index in 0..3 {
        unit.read_inputs(&inputs, index);
        let outcome =
            accumulate(&env(3), unit.state(), &unit.held_inputs(), &unit.held_outputs());
        assert_eq!(unit.apply(&mut outputs, index, outcome), Ok(()));
    }
    assert_eq!(outputs, vec![ints(&[11, 23, 56])]);
    assert_eq!(*unit.state(), 56);
}

#[test]
fn an_outcome_is_taken_in_as_it_came() {
    let mut unit = accumulator(1);
    let mut outputs = vec![ints(&[7, 7, 7])];
    // a call that failed is kept, and reported
    let failed =
        SampleOutcome { state: 2, outputs: vec![SignalValue::Int(20)], result: Err("late") };
    assert_eq!(
        unit.apply(&mut outputs, 1, failed),
        Err(ProcessorError::Transform { index: 1, error: "late" })
    );
    assert_eq!(outputs, vec![ints(&[7, 20, 7])]);
    assert_eq!(*unit.state(), 2);
    assert_eq!(unit.held_outputs(), vec![SignalValue::Int(20)]);
    // of outputs that do not fit, nothing is kept, whatever the call said
    for (bad, result) in [
        (vec![], Ok(())),
        (vec![SignalValue::Float(0)], Ok(())),
        (vec![SignalValue::Int(1), SignalValue::Int(2)], Err("twice")),
    ] {
        let outcome = SampleOutcome { state: 3, outputs: bad, result };
        assert_eq!(unit.apply(&mut outputs, 2, outcome), Err(ProcessorError::OutputShape { index: 2 }));
        assert_eq!(outputs, vec![ints(&[7, 20, 7])]);
        assert_eq!(*unit.state(), 2);
        assert_eq!(unit.held_outputs(), vec![SignalValue::Int(20)]);
    }
    let fine = SampleOutcome { state: 4, outputs: vec![SignalValue::Int(40)], result: Ok::<(), &str>(()) };
    assert_eq!(unit.apply(&mut outputs, 0, fine), Ok(()));
    assert_eq!(outputs, vec![ints(&[40, 20, 7])]);
    assert_eq!(*unit.state(), 4);
}

#[test]
fn a_hook_of_the_unit_is_called_as_it_is() {
    let mut unit = accumulator(5);
    unit.set_input(0, SignalValue::Int(2));
    // the hook is handed the whole unit
    let unit = unit.allocate_with(
        |mut unit: ProcessingUnit<i64>, rate: u32, size: usize| {
            unit.set_input(1, SignalValue::Int(rate as i64 + size as i64));
            unit
        },
        100,
        10,
    );
    assert_eq!(*unit.state(), 5);
    assert_eq!(unit.held_inputs(), vec![SignalValue::Int(2), SignalValue::Int(110)]);
    // and what it returns is the unit from then on
    let unit = unit.resize_buffers_with(
        |unit: ProcessingUnit<i64>, _rate: u32, size: usize| {
            ProcessingUnit::new(unit.name(), unit.input_spec(), unit.output_spec(), size as i64)
        },
        100,
        7,
    );
    assert_eq!(*unit.state(), 7);
    assert_eq!(unit.held_inputs(), vec![SignalValue::Int(0), SignalValue::Int(0)]);
    assert_eq!(unit.name(), "Accumulator");
    let unit = unit.allocate_with(|unit: ProcessingUnit<i64>, _rate: u32, _size: usize| unit, 1, 1);
    assert_eq!(*unit.state(), 7);
}

#[test]
fn a_unit_is_made_from_its_plan() {
    let ident = |name: &str| DeclaredType { text: name.to_string(), form: TypeForm::Ident };
    let reference = |mutable: bool, elem: DeclaredType| DeclaredType {
        text: String::new(),
        form: TypeForm::Reference { mutable, elem: Box::new(elem) },
    };
    let param = |attr: &str, name: &str, ty: DeclaredType| ParamDecl::Typed {
        attr: Some(attr.to_string()),
        pattern: Pattern { text: name.to_string(), ident: Some(name.to_string()) },
        ty,
    };
    let item = Declaration {
        form: DeclarationForm::Function,
        name: "add_to_counter".to_string(),
        generics: Vec::new(),
        params: vec![
            param("state", "counter", reference(true, ident("i64"))),
            param("input", "a", reference(false, ident("i64"))),
            param("input", "b", reference(false, ident("i64"))),
            param("output", "out", reference(true, ident("i64"))),
        ],
    };
    let plan = processor_attribute(&Some(Vec::new()), &item).unwrap();
    let mut unit = ProcessingUnit::from_plan(&plan, 0i64);
    assert_eq!(unit.name(), "AddToCounter");
    assert_eq!(unit.input_spec().len(), 2);
    assert_eq!(unit.output_spec().len(), 1);
    let inputs = vec![Some(ints(&[1, 2, 3])), Some(ints(&[10, 20, 30]))];
    let mut outputs = unit.create_output_buffers(3);
    assert_eq!(unit.process(Strategy::PerSample, &env(3), &inputs, &mut outputs, accumulate), Ok(()));
    assert_eq!(outputs, vec![ints(&[11, 33, 66])]);
}

#[test]
fn the_transform_is_handed_the_environment() {
    let transform = |env: &ProcEnv, _s: &(), _i: &Vec<SignalValue>, _o: &Vec<SignalValue>| {
        SampleOutcome {
            state: (),
            outputs: vec![SignalValue::Int(env.sample_rate as i64 + env.block_size as i64)],
            result: Ok::<(), ()>(()),
        }
    };
    for strategy in STRATEGIES {
        let mut unit = ProcessingUnit::new("Rate", Vec::new(), specs(&[("r", SignalKind::Int)]), ());
        let mut outputs = unit.create_output_buffers(2);
        assert_eq!(unit.process(strategy, &env(2), &Vec::new(), &mut outputs, &transform), Ok(()));
        assert_eq!(outputs, vec![ints(&[48_002, 48_002])]);
    }
}

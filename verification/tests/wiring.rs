use raug_macros::block::{ProcEnv, SampleOutcome};
use raug_macros::channel::Channel;
use raug_macros::signal::{SignalKind, SignalSpec, SignalValue};
use raug_macros::unit::{ProcessingUnit, Strategy};
use raug_macros::wiring::{connect_inputs, Connection, WiringError};

#[test]
fn each_producer_feeds_the_input_of_its_slot() {
    let made = connect_inputs(4, vec![Some("osc"), None, Some("lfo"), Some("osc")]).unwrap();
    assert_eq!(
        made,
        vec![
            Connection { input: 0, producer: "osc" },
            Connection { input: 2, producer: "lfo" },
            Connection { input: 3, producer: "osc" },
        ]
    );
}

#[test]
fn empty_slots_make_no_connection() {
    assert_eq!(connect_inputs::<u8>(3, vec![None, None, None]), Ok(vec![]));
    assert_eq!(connect_inputs::<u8>(0, vec![]), Ok(vec![]));
}

#[test]
fn the_slots_must_match_the_inputs() {
    assert_eq!(
        connect_inputs(2, vec![Some(1)]),
        Err(WiringError::ProducerCount { expected: 2, found: 1 })
    );
    assert_eq!(
        connect_inputs(0, vec![Some(1)]),
        Err(WiringError::ProducerCount { expected: 0, found: 1 })
    );
    assert_eq!(
        connect_inputs::<u8>(1, vec![]),
        Err(WiringError::ProducerCount { expected: 1, found: 0 })
    );
}

#[test]
fn an_unconnected_input_holds_its_value_on_every_block() {
    let add = |_env: &ProcEnv, _s: &(), inputs: &Vec<SignalValue>, _o: &Vec<SignalValue>| {
        let (SignalValue::Int(a), SignalValue::Int(b)) = (inputs[0], inputs[1]) else {
            panic!("not integers")
        };
        SampleOutcome { state: (), outputs: vec![SignalValue::Int(a + b)], result: Ok::<(), ()>(()) }
    };
    for strategy in [Strategy::Accumulate, Strategy::PerSample] {
        let mut unit = ProcessingUnit::new(
            "Add",
            vec![SignalSpec::new("a", SignalKind::Int), SignalSpec::new("b", SignalKind::Int)],
            vec![SignalSpec::new("sum", SignalKind::Int)],
            (),
        );
        assert!(unit.set_input(1, SignalValue::Int(1000)));
        // one producer is given for `a`, none for `b`
        let made = unit.node(vec![Some("ramp"), None]).unwrap();
        assert_eq!(made, vec![Connection { input: 0, producer: "ramp" }]);
        let env = ProcEnv { sample_rate: 48_000, block_size: 3 };
        let mut outputs = unit.create_output_buffers(3);
        let ramp = [[1, 2, 3], [4, 5, 6], [7, 8, 9]];
        for (block, expected) in ramp.iter().zip([[1001, 1002, 1003], [1004, 1005, 1006], [1007, 1008, 1009]]) {
            // the engine hands over a channel for each connection, and none elsewhere
            let mut inputs: Vec<Option<Channel>> = vec![None, None];
            for connection in &made {
                inputs[connection.input] =
                    Some(Channel::Int(block.iter().map(|v| Some(*v)).collect()));
            }
            assert!(inputs[1].is_none());
            assert_eq!(unit.process(strategy, &env, &inputs, &mut outputs, &add), Ok(()));
            assert_eq!(outputs, vec![Channel::Int(expected.iter().map(|v| Some(*v)).collect())]);
            assert_eq!(unit.held_inputs()[1], SignalValue::Int(1000));
        }
    }
}

#[test]
fn a_unit_asks_for_one_slot_for_each_input() {
    let unit = ProcessingUnit::new(
        "One",
        vec![SignalSpec::new("a", SignalKind::Bool)],
        Vec::new(),
        (),
    );
    assert_eq!(unit.node(vec![Some(7)]), Ok(vec![Connection { input: 0, producer: 7 }]));
    assert_eq!(
        unit.node(vec![Some(7), Some(8)]),
        Err(WiringError::ProducerCount { expected: 1, found: 2 })
    );
    assert_eq!(
        unit.node::<u8>(vec![]),
        Err(WiringError::ProducerCount { expected: 1, found: 0 })
    );
}

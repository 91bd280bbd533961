//! Wiring a unit into a graph: which producer feeds which input.

use vstd::prelude::*;

verus! {

/// One connection to make: the producer that feeds the unit's input of the
/// given index.
#[derive(Debug, PartialEq, Eq)]
pub struct Connection<P> {
    pub input: usize,
    pub producer: P,
}

/// Why a unit cannot be wired.
#[derive(Clone, Copy, Debug, PartialEq, Eq, Structural)]
pub enum WiringError {
    /// Another number of producer slots than the unit has inputs.
    ProducerCount { expected: usize, found: usize },
}

/// The connections that a list of producer slots asks for: one for each slot
/// that holds a producer, to the input of the slot's index, in order.
pub open spec fn connections<P>(producers: Seq<Option<P>>) -> Seq<Connection<P>>
    decreases producers.len(),
{
    if producers.len() == 0 {
        Seq::empty()
    } else {
        let rest = connections(producers.drop_last());
        match producers.last() {
            Some(producer) => rest.push(
                Connection { input: (producers.len() - 1) as usize, producer },
            ),
            None => rest,
        }
    }
}

/// How many slots before slot `i` hold a producer.
pub open spec fn slot_rank<P>(producers: Seq<Option<P>>, i: int) -> int {
    connections(producers.take(i)).len() as int
}

/// Each connection feeds an input from the producer in that input's slot.
proof fn lemma_connections_made<P>(producers: Seq<Option<P>>)
    requires
        producers.len() <= usize::MAX,
    ensures
        connections(producers).len() <= producers.len(),
        forall|k: int|
            0 <= k < connections(producers).len() ==> {
                let made = #[trigger] connections(producers)[k];
                made.input < producers.len() && producers[made.input as int] == Some(made.producer)
            },
    decreases producers.len(),
{
    if producers.len() > 0 {
        let front = producers.drop_last();
        let rest = connections(front);
        let all = connections(producers);
        lemma_connections_made(front);
        assert forall|k: int| 0 <= k < all.len() implies {
            let made = #[trigger] all[k];
            made.input < producers.len() && producers[made.input as int] == Some(made.producer)
        } by {
            if k < rest.len() {
                assert(all[k] == rest[k]);
                assert(front[rest[k].input as int] == producers[rest[k].input as int]);
            }
        }
    }
}

/// The connections go by rising input.
proof fn lemma_connections_rising<P>(producers: Seq<Option<P>>, a: int, b: int)
    requires
        producers.len() <= usize::MAX,
        0 <= a < b < connections(producers).len(),
    ensures
        connections(producers)[a].input < connections(producers)[b].input,
    decreases producers.len(),
{
    let front = producers.drop_last();
    let rest = connections(front);
    let all = connections(producers);
    lemma_connections_made(front);
    assert(all[a] == rest[a]);
    if b < rest.len() {
        lemma_connections_rising(front, a, b);
        assert(all[b] == rest[b]);
    }
}

/// A slot that holds a producer has the connection that its rank gives.
proof fn lemma_connections_complete<P>(producers: Seq<Option<P>>, i: int)
    requires
        producers.len() <= usize::MAX,
        0 <= i < producers.len(),
        producers[i] is Some,
    ensures
        0 <= slot_rank(producers, i) < connections(producers).len(),
        connections(producers)[slot_rank(producers, i)].input == i,
    decreases producers.len(),
{
    let front = producers.drop_last();
    let rest = connections(front);
    let all = connections(producers);
    if i < front.len() {
        assert(front[i] == producers[i]);
        assert(front.take(i) =~= producers.take(i));
        lemma_connections_complete(front, i);
        assert(all[slot_rank(producers, i)] == rest[slot_rank(producers, i)]);
    } else {
        assert(producers.take(i) =~= front);
    }
}

/// Every connection feeds an input from the producer in that input's slot,
/// the connections go by rising input, and a slot that holds a producer has
/// the connection that follows as many connections as slots before it hold a
/// producer. So an input whose slot is empty gets no connection.
pub proof fn lemma_connections<P>(producers: Seq<Option<P>>)
    requires
        producers.len() <= usize::MAX,
    ensures
        connections(producers).len() <= producers.len(),
        forall|k: int|
            0 <= k < connections(producers).len() ==> {
                let made = #[trigger] connections(producers)[k];
                made.input < producers.len() && producers[made.input as int] == Some(made.producer)
            },
        forall|a: int, b: int|
            0 <= a < b < connections(producers).len() ==> (#[trigger] connections(
                producers,
            )[a]).input < (#[trigger] connections(producers)[b]).input,
        forall|i: int|
            0 <= i < producers.len() && producers[i] is Some ==> 0 <= #[trigger] slot_rank(
                producers,
                i,
            ) < connections(producers).len() && connections(producers)[slot_rank(
                producers,
                i,
            )].input == i,
{
    lemma_connections_made(producers);
    assert forall|a: int, b: int| 0 <= a < b < connections(producers).len() implies (
    #[trigger] connections(producers)[a]).input < (#[trigger] connections(producers)[b]).input by {
        lemma_connections_rising(producers, a, b);
    }
    assert forall|i: int|
        0 <= i < producers.len() && producers[i] is Some implies 0 <= #[trigger] slot_rank(
        producers,
        i,
    ) < connections(producers).len() && connections(producers)[slot_rank(producers, i)].input
        == i by {
        lemma_connections_complete(producers, i);
    }
}

/// Lists the connections to make for a unit with `inputs` inputs, given one
/// producer slot for each input in declaration order. A slot that is empty
/// leaves its input unconnected. Nothing is connected where the number of
/// slots is not the number of inputs.
pub fn connect_inputs<P>(inputs: usize, producers: Vec<Option<P>>) -> (r: Result<
    Vec<Connection<P>>,
    WiringError,
>)
    ensures
        match r {
            Ok(made) => producers.len() == inputs && made@ == connections(producers@),
            Err(e) => producers.len() != inputs && e == (WiringError::ProducerCount {
                expected: inputs,
                found: producers.len(),
            }),
        },
{
    if producers.len() != inputs {
        return Err(WiringError::ProducerCount { expected: inputs, found: producers.len() });
    }
    let ghost slots = producers@;
    let mut producers = producers;
    let mut made: Vec<Connection<P>> = Vec::new();
    let mut i: usize = 0;
    assert(slots.take(0) =~= Seq::<Option<P>>::empty());
    while i < producers.len()
        invariant
            0 <= i <= producers.len(),
            producers.len() == slots.len(),
            forall|k: int| i <= k < slots.len() ==> producers[k] == slots[k],
            made@ == connections(slots.take(i as int)),
        decreases producers.len() - i,
    {
        proof {
            assert(slots.take(i + 1).drop_last() =~= slots.take(i as int));
            assert(slots.take(i + 1).last() == slots[i as int]);
        }
        let slot = producers[i].take();
        match slot {
            Some(producer) => {
                made.push(Connection { input: i, producer });
            },
            None => {},
        }
        i += 1;
    }
    assert(slots.take(i as int) =~= slots);
    Ok(made)
}

} // verus!

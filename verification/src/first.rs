//! The first fault in a list of checks.

use vstd::prelude::*;

verus! {

/// The first value that is present, going from the front.
pub open spec fn first_some<T>(items: Seq<Option<T>>) -> Option<T>
    decreases items.len(),
{
    if items.len() == 0 {
        None
    } else if items[0] is Some {
        items[0]
    } else {
        first_some(items.drop_first())
    }
}

/// Where nothing is present, there is no first value.
pub proof fn lemma_first_some_none<T>(items: Seq<Option<T>>)
    requires
        forall|i: int| 0 <= i < items.len() ==> (#[trigger] items[i]) is None,
    ensures
        first_some(items) is None,
    decreases items.len(),
{
    if items.len() > 0 {
        let rest = items.drop_first();
        assert forall|i: int| 0 <= i < rest.len() implies (#[trigger] rest[i]) is None by {
            assert(rest[i] == items[i + 1]);
        }
        lemma_first_some_none(rest);
    }
}

/// Where there is no first value, nothing is present.
pub proof fn lemma_first_some_absent<T>(items: Seq<Option<T>>)
    requires
        first_some(items) is None,
    ensures
        forall|i: int| 0 <= i < items.len() ==> (#[trigger] items[i]) is None,
    decreases items.len(),
{
    if items.len() > 0 {
        let rest = items.drop_first();
        lemma_first_some_absent(rest);
        assert forall|i: int| 0 <= i < items.len() implies (#[trigger] items[i]) is None by {
            if i > 0 {
                assert(rest[i - 1] == items[i]);
            }
        }
    }
}

/// Where there is a first value, it stands at a position before which
/// nothing is present.
pub proof fn lemma_first_some_found<T>(items: Seq<Option<T>>) -> (at: int)
    requires
        first_some(items) is Some,
    ensures
        0 <= at < items.len(),
        items[at] == first_some(items),
        forall|i: int| 0 <= i < at ==> (#[trigger] items[i]) is None,
    decreases items.len(),
{
    if items[0] is Some {
        0
    } else {
        let rest = items.drop_first();
        let at = lemma_first_some_found(rest);
        assert(rest[at] == items[at + 1]);
        assert forall|i: int| 0 <= i < at + 1 implies (#[trigger] items[i]) is None by {
            if i > 0 {
                assert(rest[i - 1] == items[i]);
            }
        }
        at + 1
    }
}

/// The first value is the one at the first position that holds any.
pub proof fn lemma_first_some_at<T>(items: Seq<Option<T>>, at: int)
    requires
        0 <= at < items.len(),
        items[at] is Some,
        forall|i: int| 0 <= i < at ==> (#[trigger] items[i]) is None,
    ensures
        first_some(items) == items[at],
    decreases at,
{
    if at > 0 {
        let rest = items.drop_first();
        assert(items[0] is None);
        assert forall|i: int| 0 <= i < at - 1 implies (#[trigger] rest[i]) is None by {
            assert(rest[i] == items[i + 1]);
        }
        assert(rest[at - 1] == items[at]);
        lemma_first_some_at(rest, at - 1);
    }
}

} // verus!

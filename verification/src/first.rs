//! The first entry of a list of optional values.
use vstd::prelude::*;

verus! {

/// The first value that is there.
pub open spec fn first_some<T>(values: Seq<Option<T>>) -> Option<T>
    decreases values.len(),
{
    if values.len() == 0 {
        None
    } else if values[0] is Some {
        values[0]
    } else {
        first_some(values.drop_first())
    }
}

/// The first value stands where everything before it is missing.
pub proof fn lemma_first_some_at<T>(values: Seq<Option<T>>, at: int)
    requires
        0 <= at <= values.len(),
        forall|i: int| 0 <= i < at ==> (#[trigger] values[i]) is None,
        at < values.len() ==> values[at] is Some,
    ensures
        first_some(values) == if at < values.len() {
            values[at]
        } else {
            None
        },
    decreases at,
{
    if at > 0 {
        assert(values[0] is None);
        assert forall|i: int| 0 <= i < at - 1 implies (#[trigger] values.drop_first()[i]) is None by {
            assert(values.drop_first()[i] == values[i + 1]);
        }
        lemma_first_some_at(values.drop_first(), at - 1);
    }
}

/// Where no value is there, each is missing.
pub proof fn lemma_first_some_none<T>(values: Seq<Option<T>>, at: int)
    requires
        first_some(values) is None,
        0 <= at < values.len(),
    ensures
        values[at] is None,
    decreases values.len(),
{
    if at > 0 {
        lemma_first_some_none(values.drop_first(), at - 1);
        assert(values.drop_first()[at - 1] == values[at]);
    }
}

/// The first value that is there stands somewhere in the list.
pub proof fn lemma_first_some_place<T>(values: Seq<Option<T>>) -> (at: int)
    requires
        first_some(values) is Some,
    ensures
        0 <= at < values.len(),
        values[at] == first_some(values),
    decreases values.len(),
{
    if values[0] is Some {
        0
    } else {
        let rest = lemma_first_some_place(values.drop_first());
        assert(values.drop_first()[rest] == values[rest + 1]);
        rest + 1
    }
}

/// There is no first one exactly where there is none.
pub proof fn lemma_no_first<T>(values: Seq<Option<T>>)
    ensures
        first_some(values) is None <==> forall|i: int|
            0 <= i < values.len() ==> (#[trigger] values[i]) is None,
{
    if forall|i: int| 0 <= i < values.len() ==> (#[trigger] values[i]) is None {
        lemma_first_some_at(values, values.len() as int);
    }
    if first_some(values) is None {
        assert forall|i: int| 0 <= i < values.len() implies (#[trigger] values[i]) is None by {
            lemma_first_some_none(values, i);
        }
    }
}

} // verus!

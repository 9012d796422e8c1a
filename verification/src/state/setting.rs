//! A value that some calls set and every other call keeps.

use vstd::prelude::*;

verus! {

/// The value after a run of calls, starting from `init`: `Some(v)` stands for a call that
/// sets the value to `v`, `None` for a call that keeps it.
pub open spec fn value_after<T>(init: T, calls: Seq<Option<T>>) -> T
    decreases calls.len(),
{
    if calls.len() == 0 {
        init
    } else {
        match calls.last() {
            Some(v) => v,
            None => value_after(init, calls.drop_last()),
        }
    }
}

/// The states of a run of calls: each call took its state to the next one as
/// [`value_after`] says of a single call.
pub open spec fn run_of<T>(values: Seq<T>, calls: Seq<Option<T>>) -> bool {
    &&& values.len() == calls.len() + 1
    &&& forall|i: int|
        #![trigger calls[i]]
        0 <= i < calls.len() ==> values[i + 1] == match calls[i] {
            Some(v) => v,
            None => values[i],
        }
}

/// After a run of calls the value is the one the last setting call set, or the value it
/// started with where no call set it.
pub proof fn lemma_value_after<T>(values: Seq<T>, calls: Seq<Option<T>>)
    requires
        run_of(values, calls),
    ensures
        values.last() == value_after(values[0], calls),
        (forall|i: int| 0 <= i < calls.len() ==> #[trigger] calls[i] is None) ==> values.last()
            == values[0],
        forall|i: int|
            #![trigger calls[i]]
            0 <= i < calls.len() && calls[i] is Some && (forall|j: int|
                i < j < calls.len() ==> #[trigger] calls[j] is None) ==> values.last() == calls[i]->0,
    decreases calls.len(),
{
    if calls.len() > 0 {
        let n = calls.len() - 1;
        let vs = values.drop_last();
        let cs = calls.drop_last();
        assert forall|i: int| #![trigger cs[i]] 0 <= i < cs.len() implies vs[i + 1] == match cs[i] {
            Some(v) => v,
            None => vs[i],
        } by {
            assert(calls[i] == cs[i]);
        }
        lemma_value_after(vs, cs);
        assert(calls.drop_last() == cs);
        assert(values.last() == values[n + 1]);
        assert(calls[n] == calls.last());
        if calls.last() is None {
            assert forall|i: int|
                #![trigger calls[i]]
                0 <= i < calls.len() && calls[i] is Some && (forall|j: int|
                    i < j < calls.len() ==> #[trigger] calls[j] is None) implies values.last() == calls[i]->0 by {
                assert(i != n);
                assert(cs[i] == calls[i]);
                assert forall|j: int| i < j < cs.len() implies #[trigger] cs[j] is None by {
                    assert(cs[j] == calls[j]);
                }
            }
            if forall|i: int| 0 <= i < calls.len() ==> #[trigger] calls[i] is None {
                assert forall|i: int| 0 <= i < cs.len() implies #[trigger] cs[i] is None by {
                    assert(cs[i] == calls[i]);
                }
            }
        } else {
            assert forall|i: int|
                #![trigger calls[i]]
                0 <= i < calls.len() && calls[i] is Some && (forall|j: int|
                    i < j < calls.len() ==> #[trigger] calls[j] is None) implies values.last() == calls[i]->0 by {
                if i != n {
                    assert(calls[n] is None);
                }
            }
        }
    }
}

} // verus!

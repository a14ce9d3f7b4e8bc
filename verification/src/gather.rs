use vstd::prelude::*;

verus! {

/// What comes of a run of conversions that are made in order and given up at
/// the first failure: that failure, or else every result in order.
pub open spec fn gathered<T, E>(outcomes: Seq<Result<T, E>>) -> Result<Seq<T>, E>
    decreases outcomes.len(),
{
    if outcomes.len() == 0 {
        Ok(Seq::empty())
    } else {
        match gathered(outcomes.drop_last()) {
            Err(e) => Err(e),
            Ok(done) => match outcomes.last() {
                Err(e) => Err(e),
                Ok(value) => Ok(done.push(value)),
            },
        }
    }
}

/// A run succeeds exactly when each of its conversions does, and then holds
/// their results one for one, in order.
pub proof fn lemma_gathered_ok<T, E>(outcomes: Seq<Result<T, E>>)
    ensures
        gathered(outcomes) is Ok <==> forall|i: int|
            0 <= i < outcomes.len() ==> (#[trigger] outcomes[i]) is Ok,
        gathered(outcomes) matches Ok(values) ==> {
            &&& values.len() == outcomes.len()
            &&& forall|i: int|
                0 <= i < outcomes.len() ==> (#[trigger] outcomes[i]) == Ok::<T, E>(values[i])
        },
    decreases outcomes.len(),
{
    if outcomes.len() > 0 {
        let front = outcomes.drop_last();
        lemma_gathered_ok(front);
        if gathered(front) is Ok {
            assert forall|i: int| 0 <= i < front.len() implies (#[trigger] outcomes[i]) is Ok by {
                assert(front[i] is Ok);
            }
        } else {
            let k = choose|k: int| 0 <= k < front.len() && !(#[trigger] front[k] is Ok);
            assert(!(outcomes[k] is Ok));
        }
        if let Ok(values) = gathered(outcomes) {
            assert forall|i: int| 0 <= i < outcomes.len() implies (#[trigger] outcomes[i]) == Ok::<
                T,
                E,
            >(values[i]) by {
                if i < front.len() {
                    assert(front[i] == outcomes[i]);
                }
            }
        }
    }
}

/// A run that fails does so with the failure of the first of its conversions
/// that fails.
pub proof fn lemma_gathered_err<T, E>(outcomes: Seq<Result<T, E>>)
    ensures
        gathered(outcomes) matches Err(e) ==> exists|k: int|
            {
                &&& 0 <= k < outcomes.len()
                &&& #[trigger] outcomes[k] == Err::<T, E>(e)
                &&& forall|j: int| 0 <= j < k ==> (#[trigger] outcomes[j]) is Ok
            },
    decreases outcomes.len(),
{
    if outcomes.len() > 0 {
        let front = outcomes.drop_last();
        lemma_gathered_err(front);
        lemma_gathered_ok(front);
        match gathered(front) {
            Err(e) => {
                let k = choose|k: int|
                    {
                        &&& 0 <= k < front.len()
                        &&& #[trigger] front[k] == Err::<T, E>(e)
                        &&& forall|j: int| 0 <= j < k ==> (#[trigger] front[j]) is Ok
                    };
                assert(outcomes[k] == Err::<T, E>(e));
                assert forall|j: int| 0 <= j < k implies (#[trigger] outcomes[j]) is Ok by {
                    assert(front[j] is Ok);
                }
            },
            Ok(_) => {
                if let Err(e) = outcomes.last() {
                    let k = outcomes.len() - 1;
                    assert(outcomes[k] == Err::<T, E>(e));
                    assert forall|j: int| 0 <= j < k implies (#[trigger] outcomes[j]) is Ok by {
                        assert(front[j] is Ok);
                    }
                }
            },
        }
    }
}

/// The other way round: a failure with only successes before it is the
/// failure of the whole run.
pub proof fn lemma_first_failure_wins<T, E>(outcomes: Seq<Result<T, E>>, k: int, e: E)
    requires
        0 <= k < outcomes.len(),
        outcomes[k] == Err::<T, E>(e),
        forall|j: int| 0 <= j < k ==> (#[trigger] outcomes[j]) is Ok,
    ensures
        gathered(outcomes) == Err::<Seq<T>, E>(e),
    decreases outcomes.len(),
{
    let front = outcomes.drop_last();
    if k == outcomes.len() - 1 {
        lemma_gathered_ok(front);
        assert forall|i: int| 0 <= i < front.len() implies (#[trigger] front[i]) is Ok by {
            assert(outcomes[i] is Ok);
        }
    } else {
        assert(front[k] == outcomes[k]);
        assert forall|j: int| 0 <= j < k implies (#[trigger] front[j]) is Ok by {
            assert(outcomes[j] is Ok);
        }
        lemma_first_failure_wins(front, k, e);
    }
}

/// One more conversion at the end of a run: a run that has failed stays as it
/// is, and one that has not takes the new outcome.
pub proof fn lemma_gathered_next<T, E>(outcomes: Seq<Result<T, E>>, n: int)
    requires
        0 <= n < outcomes.len(),
    ensures
        gathered(outcomes.take(n + 1)) == match gathered(outcomes.take(n)) {
            Err(e) => Err(e),
            Ok(done) => match outcomes[n] {
                Err(e) => Err(e),
                Ok(value) => Ok(done.push(value)),
            },
        },
{
    assert(outcomes.take(n + 1).drop_last() =~= outcomes.take(n));
}

} // verus!

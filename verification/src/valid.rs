//! An error-accumulating validation outcome.
//!
//! A `Valid<T, E>` is either a success holding a `T` or a failure holding one
//! or more errors of type `E` — never zero. Combining outcomes concatenates
//! their error lists in order instead of stopping at the first failure, so a
//! single run surfaces every problem at once.

use vstd::prelude::*;

verus! {

/// A success holding a value, or a failure holding at least one error.
pub enum Valid<T, E> {
    Success(T),
    Failure(Vec<E>),
}

/// The errors of a sequence of outcomes, concatenated in order. Successes
/// contribute nothing.
pub open spec fn combined_errors<T, E>(s: Seq<Valid<T, E>>) -> Seq<E>
    decreases s.len(),
{
    if s.len() == 0 {
        Seq::empty()
    } else {
        combined_errors(s.drop_last()) + match s.last() {
            Valid::Success(_) => Seq::<E>::empty(),
            Valid::Failure(es) => es@,
        }
    }
}

/// The values of a sequence of outcomes that are all successes, in order.
pub open spec fn success_values<T, E>(s: Seq<Valid<T, E>>) -> Seq<T> {
    s.map_values(
        |o: Valid<T, E>|
            match o {
                Valid::Success(v) => v,
                Valid::Failure(_) => arbitrary(),
            },
    )
}

impl<T, E> Valid<T, E> {
    /// A failure holds at least one error.
    pub open spec fn wf(&self) -> bool {
        self matches Valid::Failure(es) ==> es@.len() > 0
    }

    /// A success holding `v`.
    pub fn succeed(v: T) -> (r: Self)
        ensures
            r == Valid::<T, E>::Success(v),
            r.wf(),
    {
        Valid::Success(v)
    }

    /// A failure holding exactly the one error `e`.
    pub fn fail(e: E) -> (r: Self)
        ensures
            r matches Valid::Failure(es) && es@.len() == 1 && es@[0] == e,
            r.wf(),
    {
        let mut errors: Vec<E> = Vec::new();
        errors.push(e);
        Valid::Failure(errors)
    }

    /// A failure holding all of `errors`, which must not be empty.
    pub fn fail_all(errors: Vec<E>) -> (r: Self)
        requires
            errors@.len() > 0,
        ensures
            r == Valid::<T, E>::Failure(errors),
            r.wf(),
    {
        Valid::Failure(errors)
    }

    /// Whether this outcome is a success.
    pub fn is_success(&self) -> (r: bool)
        ensures
            r == (self matches Valid::Success(_)),
    {
        match self {
            Valid::Success(_) => true,
            Valid::Failure(_) => false,
        }
    }

    /// Applies `f` to the held value of a success; a failure keeps its
    /// errors untouched.
    pub fn map<U, F: FnOnce(T) -> U>(self, f: F) -> (r: Valid<U, E>)
        requires
            self matches Valid::Success(v) ==> f.requires((v,)),
        ensures
            self matches Valid::Success(v) ==> (r matches Valid::Success(u) && f.ensures(
                (v,),
                u,
            )),
            self matches Valid::Failure(es) ==> (r matches Valid::Failure(es2) && es2@ == es@),
    {
        match self {
            Valid::Success(v) => Valid::Success(f(v)),
            Valid::Failure(es) => Valid::Failure(es),
        }
    }

    /// Pairs two outcomes. Both successes succeed together; otherwise the
    /// failure wins, and two failures concatenate their errors, the left
    /// side's errors before the right side's.
    pub fn combine<U>(self, other: Valid<U, E>) -> (r: Valid<(T, U), E>)
        ensures
            (match (self, other) {
                (Valid::Success(a), Valid::Success(b)) => r == Valid::<(T, U), E>::Success(
                    (a, b),
                ),
                (Valid::Failure(e1), Valid::Success(_)) => r matches Valid::Failure(es) && es@
                    == e1@,
                (Valid::Success(_), Valid::Failure(e2)) => r matches Valid::Failure(es) && es@
                    == e2@,
                (Valid::Failure(e1), Valid::Failure(e2)) => r matches Valid::Failure(es) && es@
                    == e1@ + e2@,
            }),
    {
        match (self, other) {
            (Valid::Success(a), Valid::Success(b)) => Valid::Success((a, b)),
            (Valid::Failure(e1), Valid::Success(_)) => Valid::Failure(e1),
            (Valid::Success(_), Valid::Failure(e2)) => Valid::Failure(e2),
            (Valid::Failure(mut e1), Valid::Failure(mut e2)) => {
                e1.append(&mut e2);
                Valid::Failure(e1)
            },
        }
    }

    /// Combines the outcomes of running a validation over every input of a
    /// sequence: all successes yield the collected values; any failure yields
    /// every error of every failed outcome, concatenated in input order.
    pub fn all_of(outcomes: Vec<Valid<T, E>>) -> (r: Valid<Vec<T>, E>)
        requires
            forall|j: int| 0 <= j < outcomes@.len() ==> (#[trigger] outcomes@[j]).wf(),
        ensures
            combined_errors(outcomes@).len() == 0 ==> (r matches Valid::Success(vs) && vs@
                == success_values(outcomes@)),
            combined_errors(outcomes@).len() > 0 ==> (r matches Valid::Failure(es) && es@
                == combined_errors(outcomes@)),
            r.wf(),
    {
        let ghost all = outcomes@;
        let mut outcomes = outcomes;
        let mut values: Vec<T> = Vec::new();
        let mut errors: Vec<E> = Vec::new();
        let n = outcomes.len();
        let mut i: usize = 0;
        while i < n
            invariant
                forall|j: int| 0 <= j < all.len() ==> (#[trigger] all[j]).wf(),
                n == all.len(),
                i <= n,
                outcomes@ == all.skip(i as int),
                errors@ == combined_errors(all.take(i as int)),
                errors@.len() == 0 ==> values@ == success_values(all.take(i as int)),
            decreases n - i,
        {
            proof {
                assert(all.take(i + 1).drop_last() =~= all.take(i as int));
                assert(all.take(i + 1).last() == all[i as int]);
                assert(outcomes@[0] == all[i as int]);
            }
            let o = outcomes.remove(0);
            match o {
                Valid::Success(v) => {
                    values.push(v);
                    proof {
                        if errors@.len() == 0 {
                            assert(values@ =~= success_values(all.take(i + 1)));
                        }
                    }
                },
                Valid::Failure(mut es) => {
                    proof {
                        assert(all[i as int].wf());
                        assert(es@.len() > 0);
                    }
                    errors.append(&mut es);
                },
            }
            i += 1;
        }
        proof {
            assert(all.take(n as int) =~= all);
        }
        if errors.len() == 0 {
            Valid::Success(values)
        } else {
            Valid::Failure(errors)
        }
    }

    /// The outcome as a plain `Result`: the success value, or the full
    /// error list.
    pub fn to_result(self) -> (r: Result<T, Vec<E>>)
        ensures
            (match self {
                Valid::Success(v) => r == Result::<T, Vec<E>>::Ok(v),
                Valid::Failure(es) => r matches Result::Err(es2) && es2@ == es@,
            }),
    {
        match self {
            Valid::Success(v) => Ok(v),
            Valid::Failure(es) => Err(es),
        }
    }
}

} // verus!

//! Scoped mutation of a value that was just produced.
//!
//! [`Applicable`] lets a caller hand a value to a mutation, which gets exclusive
//! access to it for the duration of one call, and take the mutated value back, so
//! that construction and configuration read as one expression.
//!
//! The contracts speak of a mutation through Verus's `call_requires` and
//! `call_ensures`. A mutation receives a `&mut` to the value: a call of `f` on a
//! reference `m` is allowed when `call_requires(f, (m,))` holds, and it may leave
//! the value as `*final(m)` whenever `call_ensures(f, (m,), out)` holds of some
//! `out`. Such an outcome is what a caller would see by binding the value to a
//! mutable local, calling the mutation on it, and reading the local back.
use vstd::prelude::*;

mod laws;

pub use laws::{
    lemma_chain_composes, lemma_param_is_bound_closure, lemma_params_pair_is_two_steps,
};

verus! {

/// Apply a mutation to a value and get the mutated value back.
///
/// The trait states what each method asks of the mutation. What each returns is
/// stated on the implementation below, which covers every type, so that every call
/// is held to it.
pub trait Applicable: Sized {
    /// Call `f` once on `self` and return `self` as `f` left it; what `f` returns
    /// is dropped.
    fn apply<F, R>(self, f: F) -> (r: Self)
        where
            F: FnOnce(&mut Self) -> R,
        requires
            forall|m: &mut Self| *m == self ==> #[trigger] call_requires(f, (m,)),
    ;

    /// Call `f` once on `self` with `p` as its second argument and return `self`
    /// as `f` left it; what `f` returns is dropped.
    fn apply_with_param<F, P, R>(self, f: F, p: P) -> (r: Self)
        where
            F: FnOnce(&mut Self, P) -> R,
        requires
            forall|m: &mut Self| *m == self ==> #[trigger] call_requires(f, (m, p)),
    ;

    /// Call `f` once for each element of `p`, in order, each call seeing the value
    /// as the calls before it left it, and return the value after the last call.
    ///
    /// A run is told in the contract by `calls`: the `k`-th call, with `p[k]`, got
    /// the reference `calls[k].0` and returned `calls[k].1`. The first call sees
    /// `self`, each later one what the one before it left, and the result is what
    /// the last one left (`self` when `p` is empty). Every call that such a run can
    /// reach must be allowed.
    fn apply_with_params<F, P, R>(self, f: F, p: Vec<P>) -> (r: Self)
        where
            F: Fn(&mut Self, P) -> R,
        requires
            forall|calls: Seq<(&mut Self, R)>, m: &mut Self|
                calls.len() < p@.len()
                    && (calls.len() == 0 ==> *m == self)
                    && (calls.len() > 0 ==> *calls[0].0 == self && *final(calls.last().0) == *m)
                    && (forall|k: int|
                    0 <= k < calls.len() ==> call_ensures(
                        f,
                        (#[trigger] calls[k].0, p@[k]),
                        calls[k].1,
                    ) && (k + 1 < calls.len() ==> *final(calls[k].0) == *calls[k + 1].0))
                    ==> #[trigger] call_requires(f, (m, p@[calls.len() as int])),
    ;
}

impl<T> Applicable for T {
    fn apply<F, R>(self, f: F) -> (r: Self)
        where
            F: FnOnce(&mut Self) -> R,
        ensures
            exists|m: &mut Self, out: R|
                *m == self && *final(m) == r && #[trigger] call_ensures(f, (m,), out),
    {
        let mut receiver = self;
        f(&mut receiver);
        receiver
    }

    fn apply_with_param<F, P, R>(self, f: F, p: P) -> (r: Self)
        where
            F: FnOnce(&mut Self, P) -> R,
        ensures
            exists|m: &mut Self, out: R|
                *m == self && *final(m) == r && #[trigger] call_ensures(f, (m, p), out),
    {
        let mut receiver = self;
        f(&mut receiver, p);
        receiver
    }

    #[verifier::loop_isolation(false)]
    fn apply_with_params<F, P, R>(self, f: F, p: Vec<P>) -> (r: Self)
        where
            F: Fn(&mut Self, P) -> R,
        ensures
            exists|calls: Seq<(&mut Self, R)>|
                calls.len() == p@.len()
                    && (calls.len() == 0 ==> r == self)
                    && (calls.len() > 0 ==> *calls[0].0 == self && *final(calls.last().0) == r)
                    && (forall|k: int|
                    0 <= k < calls.len() ==> call_ensures(
                        f,
                        (#[trigger] calls[k].0, p@[k]),
                        calls[k].1,
                    ) && (k + 1 < calls.len() ==> *final(calls[k].0) == *calls[k + 1].0)),
            p@.len() == 0 ==> r == self,
    {
        let ghost params = p@;
        let ghost start = self;
        let mut receiver = self;
        // `steps[k]` is the value before the `k`-th call. For each call made so far
        // the invariant keeps that some reference and result witness it; the record
        // of calls that the contract speaks of is chosen from those witnesses.
        let ghost mut steps: Seq<Self> = seq![start];
        for param in it: p
            invariant
                it.seq() == params,
                steps.len() == it.index() + 1,
                steps[0] == start,
                steps.last() == receiver,
                forall|k: int|
                    0 <= k < steps.len() - 1 ==> exists|c: (&mut Self, R)|
                        *c.0 == #[trigger] steps[k] && *final(c.0) == steps[k + 1]
                            && call_ensures(f, (c.0, params[k]), c.1),
        {
            assert forall|m: &mut Self| *m == receiver implies #[trigger] call_requires(
                f,
                (m, param),
            ) by {
                let calls = Seq::new(
                    (steps.len() - 1) as nat,
                    |k: int|
                        choose|c: (&mut Self, R)|
                            *c.0 == steps[k] && *final(c.0) == steps[k + 1]
                                && call_ensures(f, (c.0, params[k]), c.1),
                );
                assert forall|k: int| 0 <= k < calls.len() implies call_ensures(
                    f,
                    (#[trigger] calls[k].0, p@[k]),
                    calls[k].1,
                ) && (k + 1 < calls.len() ==> *final(calls[k].0) == *calls[k + 1].0) by {
                    assert(steps[k] == steps[k]);
                }
            }
            let ghost before = steps;
            let out = f(&mut receiver, param);
            let ghost last = choose|m: &mut Self|
                *m == before.last() && *final(m) == receiver
                    && #[trigger] call_ensures(f, (m, param), out);
            proof {
                steps = before.push(receiver);
                assert forall|k: int| 0 <= k < steps.len() - 1 implies exists|c: (&mut Self, R)|
                    *c.0 == #[trigger] steps[k] && *final(c.0) == steps[k + 1]
                        && call_ensures(f, (c.0, params[k]), c.1) by {
                    if k < before.len() - 1 {
                        let c = choose|c: (&mut Self, R)|
                            *c.0 == #[trigger] before[k] && *final(c.0) == before[k + 1]
                                && call_ensures(f, (c.0, params[k]), c.1);
                        assert(*c.0 == steps[k] && *final(c.0) == steps[k + 1]);
                    } else {
                        let c = (last, out);
                        assert(*c.0 == steps[k] && *final(c.0) == steps[k + 1]);
                    }
                }
            }
        }
        let ghost calls = Seq::new(
            (steps.len() - 1) as nat,
            |k: int|
                choose|c: (&mut Self, R)|
                    *c.0 == steps[k] && *final(c.0) == steps[k + 1]
                        && call_ensures(f, (c.0, params[k]), c.1),
        );
        assert forall|k: int| 0 <= k < calls.len() implies call_ensures(
            f,
            (#[trigger] calls[k].0, p@[k]),
            calls[k].1,
        ) && (k + 1 < calls.len() ==> *final(calls[k].0) == *calls[k + 1].0) by {
            assert(steps[k] == steps[k]);
        }
        receiver
    }
}

} // verus!

//! Laws that relate the operations of `Applicable` to one another, stated over the
//! contracts that those operations carry.
use vstd::prelude::*;

verus! {

/// Chaining two applications composes the mutations in the order of the chain.
///
/// Where `f1` leaves `g1(x)` and `f2` leaves `g2(x)` in a value that held `x`, a
/// value `v` that `apply` with `f1` turned into `a`, and that `apply` with `f2` then
/// turned into `b`, ends as `g2(g1(v))`: what `f1` and then `f2`, called in turn on
/// one mutable local, leave in it.
pub proof fn lemma_chain_composes<T, R1, R2, F1, F2>(
    f1: F1,
    g1: spec_fn(T) -> T,
    f2: F2,
    g2: spec_fn(T) -> T,
    v: T,
    a: T,
    b: T,
)
    where
        F1: FnOnce(&mut T) -> R1,
        F2: FnOnce(&mut T) -> R2,
    requires
        forall|m: &mut T, out: R1| #[trigger] call_ensures(f1, (m,), out) ==> *final(m) == g1(*m),
        forall|m: &mut T, out: R2| #[trigger] call_ensures(f2, (m,), out) ==> *final(m) == g2(*m),
        exists|m: &mut T, out: R1|
            *m == v && *final(m) == a && #[trigger] call_ensures(f1, (m,), out),
        exists|m: &mut T, out: R2|
            *m == a && *final(m) == b && #[trigger] call_ensures(f2, (m,), out),
    ensures
        b == g2(g1(v)),
{
}

/// `apply_with_param` with `p` is `apply` with a mutation `c` that calls `f` on its
/// target and `p`: both ask the same of the mutation, and `r` is a result that one
/// of them allows on `v` exactly when the other allows it.
pub proof fn lemma_param_is_bound_closure<T, P, R, F, C>(f: F, p: P, c: C, v: T, r: T)
    where
        F: FnOnce(&mut T, P) -> R,
        C: FnOnce(&mut T) -> R,
    requires
        forall|m: &mut T| #[trigger] call_requires(c, (m,)) <==> call_requires(f, (m, p)),
        forall|m: &mut T, out: R|
            #[trigger] call_ensures(c, (m,), out) <==> call_ensures(f, (m, p), out),
    ensures
        (forall|m: &mut T| *m == v ==> #[trigger] call_requires(c, (m,))) <==> (forall|m: &mut T|
            *m == v ==> #[trigger] call_requires(f, (m, p))),
        (exists|m: &mut T, out: R|
            *m == v && *final(m) == r && #[trigger] call_ensures(c, (m,), out)) <==> (exists|
            m: &mut T,
            out: R,
        |
            *m == v && *final(m) == r && #[trigger] call_ensures(f, (m, p), out)),
{
    if forall|m: &mut T| *m == v ==> #[trigger] call_requires(c, (m,)) {
        assert forall|m: &mut T| *m == v implies #[trigger] call_requires(f, (m, p)) by {
            assert(call_requires(c, (m,)));
        }
    }
    if forall|m: &mut T| *m == v ==> #[trigger] call_requires(f, (m, p)) {
        assert forall|m: &mut T| *m == v implies #[trigger] call_requires(c, (m,)) by {
            assert(call_requires(f, (m, p)));
        }
    }
    if exists|m: &mut T, out: R|
        *m == v && *final(m) == r && #[trigger] call_ensures(c, (m,), out) {
        let (m, out) = choose|m: &mut T, out: R|
            *m == v && *final(m) == r && #[trigger] call_ensures(c, (m,), out);
        assert(call_ensures(f, (m, p), out));
    }
    if exists|m: &mut T, out: R|
        *m == v && *final(m) == r && #[trigger] call_ensures(f, (m, p), out) {
        let (m, out) = choose|m: &mut T, out: R|
            *m == v && *final(m) == r && #[trigger] call_ensures(f, (m, p), out);
        assert(call_ensures(c, (m,), out));
    }
}

/// `apply_with_params` with the two parameters `ps` is `apply_with_param` with
/// `ps[0]` followed by `apply_with_param` with `ps[1]`.
///
/// The first two clauses say that `apply_with_params` asks of `f` what the two
/// calls in turn ask: that `f` may take `v` with `ps[0]`, and then, with `ps[1]`, any
/// value that this first call can leave. The last says that `r` is a result that
/// `apply_with_params` allows exactly when some first call with `ps[0]` (on `m1`)
/// and a second one with `ps[1]` (on `m2`), on what the first left, end in `r`.
pub proof fn lemma_params_pair_is_two_steps<T, P, R, F>(f: F, v: T, ps: Seq<P>, r: T)
    where
        F: Fn(&mut T, P) -> R,
    requires
        ps.len() == 2,
    ensures
        (forall|calls: Seq<(&mut T, R)>, m: &mut T|
            calls.len() < 2 && (calls.len() == 0 ==> *m == v) && (calls.len() > 0 ==> *calls[0].0
                == v && *final(calls.last().0) == *m) && (forall|k: int|
                0 <= k < calls.len() ==> call_ensures(
                    f,
                    (#[trigger] calls[k].0, ps[k]),
                    calls[k].1,
                ) && (k + 1 < calls.len() ==> *final(calls[k].0) == *calls[k + 1].0))
                ==> #[trigger] call_requires(f, (m, ps[calls.len() as int]))) ==> (
        forall|m: &mut T| *m == v ==> #[trigger] call_requires(f, (m, ps[0]))) && (forall|
            m1: &mut T,
            o1: R,
            m: &mut T,
        |
            #![trigger call_ensures(f, (m1, ps[0]), o1), call_requires(f, (m, ps[1]))]
            *m1 == v && call_ensures(f, (m1, ps[0]), o1) && *m == *final(m1) ==> call_requires(
                f,
                (m, ps[1]),
            )),
        (forall|m: &mut T| *m == v ==> #[trigger] call_requires(f, (m, ps[0]))) && (forall|
            m1: &mut T,
            o1: R,
            m: &mut T,
        |
            #![trigger call_ensures(f, (m1, ps[0]), o1), call_requires(f, (m, ps[1]))]
            *m1 == v && call_ensures(f, (m1, ps[0]), o1) && *m == *final(m1) ==> call_requires(
                f,
                (m, ps[1]),
            )) ==> (forall|calls: Seq<(&mut T, R)>, m: &mut T|
            calls.len() < 2 && (calls.len() == 0 ==> *m == v) && (calls.len() > 0 ==> *calls[0].0
                == v && *final(calls.last().0) == *m) && (forall|k: int|
                0 <= k < calls.len() ==> call_ensures(
                    f,
                    (#[trigger] calls[k].0, ps[k]),
                    calls[k].1,
                ) && (k + 1 < calls.len() ==> *final(calls[k].0) == *calls[k + 1].0))
                ==> #[trigger] call_requires(f, (m, ps[calls.len() as int]))),
        (exists|calls: Seq<(&mut T, R)>|
            calls.len() == 2 && (calls.len() == 0 ==> r == v) && (calls.len() > 0 ==> *calls[0].0
                == v && *final(calls.last().0) == r) && (forall|k: int|
                0 <= k < calls.len() ==> call_ensures(
                    f,
                    (#[trigger] calls[k].0, ps[k]),
                    calls[k].1,
                ) && (k + 1 < calls.len() ==> *final(calls[k].0) == *calls[k + 1].0))) <==> (exists|
            m1: &mut T,
            o1: R,
            m2: &mut T,
            o2: R,
        |
            #![trigger call_ensures(f, (m1, ps[0]), o1), call_ensures(f, (m2, ps[1]), o2)]
            *m1 == v && call_ensures(f, (m1, ps[0]), o1) && *m2 == *final(m1) && call_ensures(
                f,
                (m2, ps[1]),
                o2,
            ) && *final(m2) == r),
{
    if forall|calls: Seq<(&mut T, R)>, m: &mut T|
        calls.len() < 2 && (calls.len() == 0 ==> *m == v) && (calls.len() > 0 ==> *calls[0].0 == v
            && *final(calls.last().0) == *m) && (forall|k: int|
            0 <= k < calls.len() ==> call_ensures(
                f,
                (#[trigger] calls[k].0, ps[k]),
                calls[k].1,
            ) && (k + 1 < calls.len() ==> *final(calls[k].0) == *calls[k + 1].0))
            ==> #[trigger] call_requires(f, (m, ps[calls.len() as int])) {
        assert forall|m: &mut T| *m == v implies #[trigger] call_requires(f, (m, ps[0])) by {
            let calls = Seq::<(&mut T, R)>::empty();
            assert(call_requires(f, (m, ps[calls.len() as int])));
        }
        assert forall|m1: &mut T, o1: R, m: &mut T|
            *m1 == v && #[trigger] call_ensures(f, (m1, ps[0]), o1) && *m == *final(m1) implies
                #[trigger] call_requires(f, (m, ps[1])) by {
            let calls = seq![(m1, o1)];
            assert(calls[0] == (m1, o1));
            assert(call_requires(f, (m, ps[calls.len() as int])));
        }
    }
    if exists|calls: Seq<(&mut T, R)>|
        calls.len() == 2 && (calls.len() == 0 ==> r == v) && (calls.len() > 0 ==> *calls[0].0 == v
            && *final(calls.last().0) == r) && (forall|k: int|
            0 <= k < calls.len() ==> call_ensures(
                f,
                (#[trigger] calls[k].0, ps[k]),
                calls[k].1,
            ) && (k + 1 < calls.len() ==> *final(calls[k].0) == *calls[k + 1].0)) {
        let calls = choose|calls: Seq<(&mut T, R)>|
            calls.len() == 2 && (calls.len() == 0 ==> r == v) && (calls.len() > 0 ==> *calls[0].0
                == v && *final(calls.last().0) == r) && (forall|k: int|
                0 <= k < calls.len() ==> call_ensures(f, (#[trigger] calls[k].0, ps[k]), calls[k].1)
                    && (k + 1 < calls.len() ==> *final(calls[k].0) == *calls[k + 1].0));
        assert(call_ensures(f, (calls[0].0, ps[0]), calls[0].1));
        assert(call_ensures(f, (calls[1].0, ps[1]), calls[1].1));
        assert(*final(calls[0].0) == *calls[1].0);
    }
    if exists|m1: &mut T, o1: R, m2: &mut T, o2: R|
        #![trigger call_ensures(f, (m1, ps[0]), o1), call_ensures(f, (m2, ps[1]), o2)]
        *m1 == v && call_ensures(f, (m1, ps[0]), o1) && *m2 == *final(m1) && call_ensures(
            f,
            (m2, ps[1]),
            o2,
        ) && *final(m2) == r {
        let (m1, o1, m2, o2) = choose|m1: &mut T, o1: R, m2: &mut T, o2: R|
            #![trigger call_ensures(f, (m1, ps[0]), o1), call_ensures(f, (m2, ps[1]), o2)]
            *m1 == v && call_ensures(f, (m1, ps[0]), o1) && *m2 == *final(m1) && call_ensures(
                f,
                (m2, ps[1]),
                o2,
            ) && *final(m2) == r;
        let calls = seq![(m1, o1), (m2, o2)];
        assert(calls[0] == (m1, o1) && calls[1] == (m2, o2));
        assert forall|k: int| 0 <= k < calls.len() implies call_ensures(
            f,
            (#[trigger] calls[k].0, ps[k]),
            calls[k].1,
        ) && (k + 1 < calls.len() ==> *final(calls[k].0) == *calls[k + 1].0) by {
            if k == 0 {
            } else {
                assert(k == 1);
            }
        }
    }
}

} // verus!

//! The State effect: a computation that is a deferred function from an input
//! state to a `(result, output state)` pair.
//!
//! A computation is consumed exactly once, by `initial_state`. Its behaviour
//! is captured relationally: whatever pair the stored function may return is
//! constrained through `call_ensures`. The mathematical model of the effect is
//! a total function `spec_fn(S) -> (A, S)`; the monad laws are proved over
//! that model at the bottom of this module.

use vstd::prelude::*;

verus! {

/// A state-threading computation, driven once with an initial state.
#[verifier::reject_recursive_types(S)]
#[verifier::reject_recursive_types(A)]
pub struct State<S, A, F> where F: FnOnce(S) -> (A, S) {
    pub run_state: F,
    pub phantom: core::marker::PhantomData<(S, A)>,
}

impl<S, A, F> State<S, A, F> where F: FnOnce(S) -> (A, S) {
    /// Drive the computation with the initial state `s`.
    pub fn initial_state(self, s: S) -> (r: (A, S))
        requires
            call_requires(self.run_state, (s,)),
        ensures
            call_ensures(self.run_state, (s,), r),
    {
        (self.run_state)(s)
    }

    /// Sequence `self` into the continuation `f`: run `self` on the input
    /// state, hand its result to `f`, and run the computation `f` returns on
    /// the output state. The state is threaded strictly left to right.
    pub fn bind<B, F2, G>(self, f: G) -> (r: State<S, B, impl FnOnce(S) -> (B, S)>) where
        F2: FnOnce(S) -> (B, S),
        G: FnOnce(A) -> State<S, B, F2>,

        requires
            forall|s: S| #[trigger] call_requires(self.run_state, (s,)),
            forall|s: S, p: (A, S)|
                call_ensures(self.run_state, (s,), p) ==> call_requires(f, (p.0,)),
            forall|s: S, p: (A, S), m2: State<S, B, F2>|
                call_ensures(self.run_state, (s,), p) && call_ensures(f, (p.0,), m2)
                    ==> call_requires(m2.run_state, (p.1,)),
        ensures
            forall|s: S| #[trigger] call_requires(r.run_state, (s,)),
            forall|s: S, q: (B, S)|
                call_ensures(r.run_state, (s,), q) ==> exists|p: (A, S), m2: State<S, B, F2>|
                    call_ensures(self.run_state, (s,), p) && call_ensures(f, (p.0,), m2)
                        && call_ensures(m2.run_state, (p.1,), q),
    {
        State {
            run_state: (move |s: S| -> (q: (B, S))
                ensures
                    exists|p: (A, S), m2: State<S, B, F2>|
                        call_ensures(self.run_state, (s,), p) && call_ensures(f, (p.0,), m2)
                            && call_ensures(m2.run_state, (p.1,), q),
                {
                    let p = (self.run_state)(s);
                    let m2 = f(p.0);
                    (m2.run_state)(p.1)
                }),
            phantom: core::marker::PhantomData,
        }
    }
}

/// The computation that yields `x` and passes the state through unchanged.
pub fn pure<S, A>(x: A) -> (r: State<S, A, impl FnOnce(S) -> (A, S)>)
    ensures
        forall|s: S| #[trigger] call_requires(r.run_state, (s,)),
        forall|s: S, p: (A, S)| call_ensures(r.run_state, (s,), p) ==> p == (x, s),
{
    State {
        run_state: (move |s: S| -> (p: (A, S))
            ensures
                p == (x, s),
            {
                (x, s)
            }),
        phantom: core::marker::PhantomData,
    }
}

/// The computation that yields the current state, leaving it in place.
pub fn get<S: Copy>() -> (r: State<S, S, impl FnOnce(S) -> (S, S)>)
    ensures
        forall|s: S| #[trigger] call_requires(r.run_state, (s,)),
        forall|s: S, p: (S, S)| call_ensures(r.run_state, (s,), p) ==> p == (s, s),
{
    State {
        run_state: (|s: S| -> (p: (S, S))
            ensures
                p == (s, s),
            {
                (s, s)
            }),
        phantom: core::marker::PhantomData,
    }
}

/// The computation that replaces the state with `s1`, discarding the previous
/// state, and yields the unit result.
pub fn put<S>(s1: S) -> (r: State<S, (), impl FnOnce(S) -> ((), S)>)
    ensures
        forall|s: S| #[trigger] call_requires(r.run_state, (s,)),
        forall|s: S, p: ((), S)| call_ensures(r.run_state, (s,), p) ==> p == ((), s1),
{
    State {
        run_state: (move |_s: S| -> (p: ((), S))
            ensures
                p == ((), s1),
            {
                ((), s1)
            }),
        phantom: core::marker::PhantomData,
    }
}

// ----- the mathematical model of the effect, and its laws -----

/// The model of `pure(x)`: yield `x`, keep the state.
pub open spec fn pure_sem<S, A>(x: A) -> spec_fn(S) -> (A, S) {
    |s: S| (x, s)
}

/// The model of `bind`: run `m`, hand the result to `k`, run the outcome on
/// the new state.
pub open spec fn bind_sem<S, A, B>(
    m: spec_fn(S) -> (A, S),
    k: spec_fn(A) -> spec_fn(S) -> (B, S),
) -> spec_fn(S) -> (B, S) {
    |s: S| (k(m(s).0))(m(s).1)
}

/// The model of `get()`: the current state, twice.
pub open spec fn get_sem<S>() -> spec_fn(S) -> (S, S) {
    |s: S| (s, s)
}

/// The model of `put(s1)`: unit result, state replaced.
pub open spec fn put_sem<S>(s1: S) -> spec_fn(S) -> ((), S) {
    |s: S| ((), s1)
}

/// Law: binding a pure computation applies the continuation directly.
pub proof fn lemma_state_left_identity<S, A, B>(x: A, k: spec_fn(A) -> spec_fn(S) -> (B, S))
    ensures
        bind_sem(pure_sem(x), k) == k(x),
{
    assert(bind_sem(pure_sem(x), k) =~= k(x));
}

/// Law: binding into `pure` returns the computation unchanged.
pub proof fn lemma_state_right_identity<S, A>(m: spec_fn(S) -> (A, S))
    ensures
        bind_sem(m, |a: A| pure_sem(a)) == m,
{
    assert(bind_sem(m, |a: A| pure_sem(a)) =~= m);
}

/// Law: `bind` is associative.
pub proof fn lemma_state_assoc<S, A, B, C>(
    m: spec_fn(S) -> (A, S),
    k: spec_fn(A) -> spec_fn(S) -> (B, S),
    h: spec_fn(B) -> spec_fn(S) -> (C, S),
)
    ensures
        bind_sem(bind_sem(m, k), h) == bind_sem(m, |a: A| bind_sem(k(a), h)),
{
    assert(bind_sem(bind_sem(m, k), h) =~= bind_sem(m, |a: A| bind_sem(k(a), h)));
}

/// Sequencing `put(s1)` before `get()` yields `s1` both as the result and as
/// the final state, whatever the initial state.
pub proof fn lemma_put_then_get<S>(s1: S, s0: S)
    ensures
        (bind_sem(put_sem(s1), |u: ()| get_sem::<S>()))(s0) == (s1, s1),
{
}

/// Bridge from the contract of `State::bind` to the model: when the bound
/// computation behaves as `ms` and every outcome of the continuation behaves
/// as `ks` of its argument, any behaviour the composite admits — a chain of
/// witnesses as `bind` ensures — is `bind_sem` of the models.
pub proof fn lemma_state_bind_deterministic<S, A, B, F, F2, G>(
    m: State<S, A, F>,
    f: G,
    ms: spec_fn(S) -> (A, S),
    ks: spec_fn(A) -> spec_fn(S) -> (B, S),
    s: S,
    p: (A, S),
    m2: State<S, B, F2>,
    q: (B, S),
) where F: FnOnce(S) -> (A, S), F2: FnOnce(S) -> (B, S), G: FnOnce(A) -> State<S, B, F2>
    requires
        forall|s1: S, p1: (A, S)| call_ensures(m.run_state, (s1,), p1) ==> p1 == ms(s1),
        forall|a1: A, st: State<S, B, F2>, s1: S, q1: (B, S)|
            call_ensures(f, (a1,), st) && call_ensures(st.run_state, (s1,), q1) ==> q1 == (ks(
                a1,
            ))(s1),
        call_ensures(m.run_state, (s,), p),
        call_ensures(f, (p.0,), m2),
        call_ensures(m2.run_state, (p.1,), q),
    ensures
        q == (bind_sem(ms, ks))(s),
{
}

} // verus!

//! The Reader effect: a computation that is a deferred function from an
//! immutable environment to a result.
//!
//! A computation is consumed exactly once, by `initial_env`. `ask` yields the
//! environment itself; `local` runs a sub-computation under a modified
//! environment, a substitution scoped strictly to that sub-computation. The
//! mathematical model of the effect is a total function `spec_fn(E) -> A`;
//! the monad laws and the `local` laws are proved over that model at the
//! bottom of this module.

use vstd::prelude::*;

verus! {

/// An environment-reading computation, driven once with an environment.
#[verifier::reject_recursive_types(E)]
#[verifier::reject_recursive_types(A)]
pub struct Reader<E, A, F> where F: FnOnce(E) -> A {
    pub run_reader: F,
    pub phantom: core::marker::PhantomData<(E, A)>,
}

impl<E, A, F> Reader<E, A, F> where F: FnOnce(E) -> A {
    /// Drive the computation with the environment `e`.
    pub fn initial_env(self, e: E) -> (a: A)
        requires
            call_requires(self.run_reader, (e,)),
        ensures
            call_ensures(self.run_reader, (e,), a),
    {
        (self.run_reader)(e)
    }

    /// Sequence `self` into the continuation `f`: run `self` on the
    /// environment, hand its result to `f`, and run the computation `f`
    /// returns on the same, unmodified environment.
    pub fn bind<B, F2, G>(self, f: G) -> (r: Reader<E, B, impl FnOnce(E) -> B>) where
        E: Copy,
        F2: FnOnce(E) -> B,
        G: FnOnce(A) -> Reader<E, B, F2>,

        requires
            forall|e: E| #[trigger] call_requires(self.run_reader, (e,)),
            forall|e: E, a: A| call_ensures(self.run_reader, (e,), a) ==> call_requires(f, (a,)),
            forall|e: E, a: A, m2: Reader<E, B, F2>|
                call_ensures(self.run_reader, (e,), a) && call_ensures(f, (a,), m2)
                    ==> call_requires(m2.run_reader, (e,)),
        ensures
            forall|e: E| #[trigger] call_requires(r.run_reader, (e,)),
            forall|e: E, b: B|
                call_ensures(r.run_reader, (e,), b) ==> exists|a: A, m2: Reader<E, B, F2>|
                    call_ensures(self.run_reader, (e,), a) && call_ensures(f, (a,), m2)
                        && call_ensures(m2.run_reader, (e,), b),
    {
        Reader {
            run_reader: (move |e: E| -> (b: B)
                ensures
                    exists|a: A, m2: Reader<E, B, F2>|
                        call_ensures(self.run_reader, (e,), a) && call_ensures(f, (a,), m2)
                            && call_ensures(m2.run_reader, (e,), b),
                {
                    let a = (self.run_reader)(e);
                    let m2 = f(a);
                    (m2.run_reader)(e)
                }),
            phantom: core::marker::PhantomData,
        }
    }

    /// Run `self` under the environment modified by `f`; the substitution is
    /// scoped to `self` alone.
    pub fn local<G>(self, f: G) -> (r: Reader<E, A, impl FnOnce(E) -> A>) where
        G: FnOnce(E) -> E,

        requires
            forall|e: E| #[trigger] call_requires(f, (e,)),
            forall|e: E, e1: E| call_ensures(f, (e,), e1) ==> call_requires(self.run_reader, (e1,)),
        ensures
            forall|e: E| #[trigger] call_requires(r.run_reader, (e,)),
            forall|e: E, a: A|
                call_ensures(r.run_reader, (e,), a) ==> exists|e1: E|
                    call_ensures(f, (e,), e1) && call_ensures(self.run_reader, (e1,), a),
    {
        Reader {
            run_reader: (move |e: E| -> (a: A)
                ensures
                    exists|e1: E| call_ensures(f, (e,), e1) && call_ensures(
                        self.run_reader,
                        (e1,),
                        a,
                    ),
                {
                    let e1 = f(e);
                    (self.run_reader)(e1)
                }),
            phantom: core::marker::PhantomData,
        }
    }
}

/// The computation that yields `x` whatever the environment.
pub fn pure<E, A>(x: A) -> (r: Reader<E, A, impl FnOnce(E) -> A>)
    ensures
        forall|e: E| #[trigger] call_requires(r.run_reader, (e,)),
        forall|e: E, a: A| call_ensures(r.run_reader, (e,), a) ==> a == x,
{
    Reader {
        run_reader: (move |_e: E| -> (a: A)
            ensures
                a == x,
            {
                x
            }),
        phantom: core::marker::PhantomData,
    }
}

/// The computation that yields the environment itself.
pub fn ask<E>() -> (r: Reader<E, E, impl FnOnce(E) -> E>)
    ensures
        forall|e: E| #[trigger] call_requires(r.run_reader, (e,)),
        forall|e: E, a: E| call_ensures(r.run_reader, (e,), a) ==> a == e,
{
    Reader {
        run_reader: (|e: E| -> (a: E)
            ensures
                a == e,
            {
                e
            }),
        phantom: core::marker::PhantomData,
    }
}

/// Run `rdr` under the environment modified by `f`; the free-function form of
/// `Reader::local`.
pub fn local<E, A, F, G>(f: G, rdr: Reader<E, A, F>) -> (r: Reader<E, A, impl FnOnce(E) -> A>) where
    F: FnOnce(E) -> A,
    G: FnOnce(E) -> E,

    requires
        forall|e: E| #[trigger] call_requires(f, (e,)),
        forall|e: E, e1: E| call_ensures(f, (e,), e1) ==> call_requires(rdr.run_reader, (e1,)),
    ensures
        forall|e: E| #[trigger] call_requires(r.run_reader, (e,)),
        forall|e: E, a: A|
            call_ensures(r.run_reader, (e,), a) ==> exists|e1: E|
                call_ensures(f, (e,), e1) && call_ensures(rdr.run_reader, (e1,), a),
{
    rdr.local(f)
}

// ----- the mathematical model of the effect, and its laws -----

/// The model of `pure(x)`: yield `x`, ignore the environment.
pub open spec fn pure_sem<E, A>(x: A) -> spec_fn(E) -> A {
    |e: E| x
}

/// The model of `bind`: run `m`, hand the result to `k`, run the outcome on
/// the same environment.
pub open spec fn bind_sem<E, A, B>(
    m: spec_fn(E) -> A,
    k: spec_fn(A) -> spec_fn(E) -> B,
) -> spec_fn(E) -> B {
    |e: E| (k(m(e)))(e)
}

/// The model of `ask()`: the environment itself.
pub open spec fn ask_sem<E>() -> spec_fn(E) -> E {
    |e: E| e
}

/// The model of `local(f, m)`: run `m` on the modified environment.
pub open spec fn local_sem<E, A>(f: spec_fn(E) -> E, m: spec_fn(E) -> A) -> spec_fn(E) -> A {
    |e: E| m(f(e))
}

/// Law: binding a pure computation applies the continuation directly.
pub proof fn lemma_reader_left_identity<E, A, B>(x: A, k: spec_fn(A) -> spec_fn(E) -> B)
    ensures
        bind_sem(pure_sem(x), k) == k(x),
{
    assert(bind_sem(pure_sem(x), k) =~= k(x));
}

/// Law: binding into `pure` returns the computation unchanged.
pub proof fn lemma_reader_right_identity<E, A>(m: spec_fn(E) -> A)
    ensures
        bind_sem(m, |a: A| pure_sem(a)) == m,
{
    assert(bind_sem(m, |a: A| pure_sem(a)) =~= m);
}

/// Law: `bind` is associative.
pub proof fn lemma_reader_assoc<E, A, B, C>(
    m: spec_fn(E) -> A,
    k: spec_fn(A) -> spec_fn(E) -> B,
    h: spec_fn(B) -> spec_fn(E) -> C,
)
    ensures
        bind_sem(bind_sem(m, k), h) == bind_sem(m, |a: A| bind_sem(k(a), h)),
{
    assert(bind_sem(bind_sem(m, k), h) =~= bind_sem(m, |a: A| bind_sem(k(a), h)));
}

/// Law: asking under a modified environment yields the modification itself.
pub proof fn lemma_local_ask<E>(f: spec_fn(E) -> E)
    ensures
        local_sem(f, ask_sem()) == f,
{
    assert(local_sem(f, ask_sem()) =~= f);
}

/// Law: nested `local` composes by function composition, the inner
/// modification applied after the outer one.
pub proof fn lemma_local_compose<E, A>(f: spec_fn(E) -> E, g: spec_fn(E) -> E, m: spec_fn(E) -> A)
    ensures
        local_sem(f, local_sem(g, m)) == local_sem(|e: E| g(f(e)), m),
{
    assert(local_sem(f, local_sem(g, m)) =~= local_sem(|e: E| g(f(e)), m));
}

/// Bridge from the contract of `Reader::bind` to the model: when the bound
/// computation behaves as `ms` and every outcome of the continuation behaves
/// as `ks` of its argument, any behaviour the composite admits — a chain of
/// witnesses as `bind` ensures — is `bind_sem` of the models.
pub proof fn lemma_reader_bind_deterministic<E, A, B, F, F2, G>(
    m: Reader<E, A, F>,
    f: G,
    ms: spec_fn(E) -> A,
    ks: spec_fn(A) -> spec_fn(E) -> B,
    e: E,
    a: A,
    m2: Reader<E, B, F2>,
    b: B,
) where F: FnOnce(E) -> A, F2: FnOnce(E) -> B, G: FnOnce(A) -> Reader<E, B, F2>
    requires
        forall|e1: E, a1: A| call_ensures(m.run_reader, (e1,), a1) ==> a1 == ms(e1),
        forall|a1: A, rt: Reader<E, B, F2>, e1: E, b1: B|
            call_ensures(f, (a1,), rt) && call_ensures(rt.run_reader, (e1,), b1) ==> b1 == (ks(
                a1,
            ))(e1),
        call_ensures(m.run_reader, (e,), a),
        call_ensures(f, (a,), m2),
        call_ensures(m2.run_reader, (e,), b),
    ensures
        b == (bind_sem(ms, ks))(e),
{
}

} // verus!

//! The ReaderT transformer: the Reader effect generalised over a
//! multi-result inner computation.
//!
//! A computation is a deferred function from an environment to the inner
//! multi-result computation, consumed exactly once by `initial_env`. `bind`
//! runs the outer function, sequences across every inner result with the
//! inner effect's own composition, and re-collects the outcomes into a single
//! inner computation. The model is a total function from the environment to
//! the sequence of results; the monad laws are proved over that model at the
//! bottom of this module.

use vstd::prelude::*;

verus! {

/// An environment-reading computation over a multi-result inner effect.
#[verifier::reject_recursive_types(E)]
#[verifier::reject_recursive_types(A)]
pub struct ReaderT<E, A, F> where F: FnOnce(E) -> Vec<A> {
    pub run_reader_t: F,
    pub phantom: core::marker::PhantomData<(E, A)>,
}

impl<E, A, F> ReaderT<E, A, F> where F: FnOnce(E) -> Vec<A> {
    /// Drive the computation with the environment `e`, yielding the inner
    /// multi-result computation.
    pub fn initial_env(self, e: E) -> (m: Vec<A>)
        requires
            call_requires(self.run_reader_t, (e,)),
        ensures
            call_ensures(self.run_reader_t, (e,), m),
    {
        (self.run_reader_t)(e)
    }

    /// Sequence `self` into the continuation `f`: run `self` on the
    /// environment, apply `f` to every inner result, run each outcome on the
    /// same environment, and concatenate the inner results that come back.
    pub fn bind<B, F2, G>(self, f: G) -> (r: ReaderT<E, B, impl FnOnce(E) -> Vec<B>>) where
        E: Copy,
        F2: FnOnce(E) -> Vec<B>,
        G: Fn(A) -> ReaderT<E, B, F2>,

        requires
            forall|e: E| #[trigger] call_requires(self.run_reader_t, (e,)),
            forall|a: A| #[trigger] call_requires(f, (a,)),
            forall|a: A, rt: ReaderT<E, B, F2>, e: E|
                call_ensures(f, (a,), rt) ==> call_requires(rt.run_reader_t, (e,)),
        ensures
            forall|e: E| #[trigger] call_requires(r.run_reader_t, (e,)),
            forall|e: E, out: Vec<B>|
                call_ensures(r.run_reader_t, (e,), out) ==> exists|
                    mv: Vec<A>,
                    rts: Seq<ReaderT<E, B, F2>>,
                    parts: Seq<Vec<B>>,
                |
                    {
                        &&& call_ensures(self.run_reader_t, (e,), mv)
                        &&& rts.len() == mv@.len()
                        &&& parts.len() == mv@.len()
                        &&& forall|i: int|
                            0 <= i < mv@.len() ==> call_ensures(f, (mv@[i],), #[trigger] rts[i])
                        &&& forall|i: int|
                            0 <= i < mv@.len() ==> call_ensures(rts[i].run_reader_t, (e,), #[trigger] parts[i])
                        &&& out@ == parts.map_values(|v: Vec<B>| v@).flatten()
                    },
    {
        ReaderT {
            run_reader_t: (move |e: E| -> (out: Vec<B>)
                ensures
                    exists|mv: Vec<A>, rts: Seq<ReaderT<E, B, F2>>, parts: Seq<Vec<B>>|
                        {
                            &&& call_ensures(self.run_reader_t, (e,), mv)
                            &&& rts.len() == mv@.len()
                            &&& parts.len() == mv@.len()
                            &&& forall|i: int|
                                0 <= i < mv@.len() ==> call_ensures(
                                    f,
                                    (mv@[i],),
                                    #[trigger] rts[i],
                                )
                            &&& forall|i: int|
                                0 <= i < mv@.len() ==> call_ensures(rts[i].run_reader_t, (e,), #[trigger] parts[i])
                            &&& out@ == parts.map_values(|v: Vec<B>| v@).flatten()
                        },
                {
                    let mv = (self.run_reader_t)(e);
                    let ghost gmv = mv;
                    let out = run_each(f, mv, e);
                    proof {
                        let (grts, gparts) = choose|rts: Seq<ReaderT<E, B, F2>>, parts: Seq<
                            Vec<B>,
                        >|
                            {
                                &&& rts.len() == gmv@.len()
                                &&& parts.len() == gmv@.len()
                                &&& forall|i: int|
                                    0 <= i < gmv@.len() ==> call_ensures(
                                        f,
                                        (gmv@[i],),
                                        #[trigger] rts[i],
                                    )
                                &&& forall|i: int|
                                    0 <= i < gmv@.len() ==> call_ensures(rts[i].run_reader_t, (e,), #[trigger] parts[i])
                                &&& out@ == parts.map_values(|v: Vec<B>| v@).flatten()
                            };
                        assert(exists|mv2: Vec<A>, rts2: Seq<ReaderT<E, B, F2>>, parts2: Seq<
                            Vec<B>,
                        >|
                            {
                                &&& call_ensures(self.run_reader_t, (e,), mv2)
                                &&& rts2.len() == mv2@.len()
                                &&& parts2.len() == mv2@.len()
                                &&& forall|j: int|
                                    0 <= j < mv2@.len() ==> call_ensures(
                                        f,
                                        (mv2@[j],),
                                        #[trigger] rts2[j],
                                    )
                                &&& forall|j: int|
                                    0 <= j < mv2@.len() ==> call_ensures(rts2[j].run_reader_t, (e,), #[trigger] parts2[j])
                                &&& out@ == parts2.map_values(|v: Vec<B>| v@).flatten()
                            }) by {
                            assert(call_ensures(self.run_reader_t, (e,), gmv));
                            assert(grts.len() == gmv@.len());
                            assert(gparts.len() == gmv@.len());
                            assert(forall|j: int|
                                0 <= j < gmv@.len() ==> call_ensures(
                                    f,
                                    (gmv@[j],),
                                    #[trigger] grts[j],
                                ));
                            assert(forall|j: int|
                                0 <= j < gmv@.len() ==> call_ensures(grts[j].run_reader_t, (e,), #[trigger] gparts[j]));
                            assert(out@ == gparts.map_values(|v: Vec<B>| v@).flatten());
                        }
                    }
                    out
                }),
            phantom: core::marker::PhantomData,
        }
    }
}

/// Apply `f` to every value of `mv` in order, run each resulting computation
/// on the environment `e`, and concatenate the inner results.
fn run_each<E, A, B, F2, G>(f: G, mv: Vec<A>, e: E) -> (out: Vec<B>) where
    E: Copy,
    F2: FnOnce(E) -> Vec<B>,
    G: Fn(A) -> ReaderT<E, B, F2>,

    requires
        forall|a: A| #[trigger] call_requires(f, (a,)),
        forall|a: A, rt: ReaderT<E, B, F2>, e1: E|
            call_ensures(f, (a,), rt) ==> call_requires(rt.run_reader_t, (e1,)),
    ensures
        exists|rts: Seq<ReaderT<E, B, F2>>, parts: Seq<Vec<B>>|
            {
                &&& rts.len() == mv@.len()
                &&& parts.len() == mv@.len()
                &&& forall|i: int| 0 <= i < mv@.len() ==> call_ensures(f, (mv@[i],), #[trigger] rts[i])
                &&& forall|i: int|
                    0 <= i < mv@.len() ==> call_ensures(rts[i].run_reader_t, (e,), #[trigger] parts[i])
                &&& out@ == parts.map_values(|v: Vec<B>| v@).flatten()
            },
{
    let ghost gmv = mv;
    let mut rest = mv;
    let n = rest.len();
    let mut out: Vec<B> = Vec::new();
    let ghost mut rts: Seq<ReaderT<E, B, F2>> = Seq::empty();
    let ghost mut parts: Seq<Vec<B>> = Seq::empty();
    let mut i: usize = 0;
    proof {
        assert(rest@ == gmv@.skip(0));
        assert(parts.map_values(|v: Vec<B>| v@).flatten() =~= Seq::<B>::empty());
    }
    while rest.len() > 0
        invariant
            rts.len() == i as int,
            parts.len() == i as int,
            gmv@.len() == n as int,
            i as int + rest@.len() == gmv@.len(),
            rest@ == gmv@.skip(i as int),
            forall|a: A| #[trigger] call_requires(f, (a,)),
            forall|a: A, rt: ReaderT<E, B, F2>, e1: E|
                call_ensures(f, (a,), rt) ==> call_requires(rt.run_reader_t, (e1,)),
            forall|j: int| 0 <= j < i ==> call_ensures(f, (gmv@[j],), #[trigger] rts[j]),
            forall|j: int|
                0 <= j < i ==> call_ensures(rts[j].run_reader_t, (e,), #[trigger] parts[j]),
            out@ == parts.map_values(|v: Vec<B>| v@).flatten(),
        decreases rest@.len(),
    {
        proof {
            assert(gmv@.skip(i as int)[0] == gmv@[i as int]);
        }
        let x = rest.remove(0);
        let rt = f(x);
        let ghost grt = rt;
        let mut vb = (rt.run_reader_t)(e);
        let ghost gvb = vb;
        out.append(&mut vb);
        proof {
            let prev = parts;
            rts = rts.push(grt);
            parts = parts.push(gvb);
            assert(rts[i as int] == grt);
            assert(parts[i as int] == gvb);
            assert(call_ensures(f, (gmv@[i as int],), grt));
            assert(call_ensures(grt.run_reader_t, (e,), gvb));
            assert(parts.map_values(|v: Vec<B>| v@) =~= prev.map_values(|v: Vec<B>| v@).push(
                gvb@,
            ));
            prev.map_values(|v: Vec<B>| v@).lemma_flatten_push(gvb@);
            assert(rest@ =~= gmv@.skip(i as int + 1));
        }
        i += 1;
    }
    proof {
        assert(exists|rts2: Seq<ReaderT<E, B, F2>>, parts2: Seq<Vec<B>>|
            {
                &&& rts2.len() == gmv@.len()
                &&& parts2.len() == gmv@.len()
                &&& forall|j: int| 0 <= j < gmv@.len() ==> call_ensures(f, (gmv@[j],), #[trigger] rts2[j])
                &&& forall|j: int|
                    0 <= j < gmv@.len() ==> call_ensures(rts2[j].run_reader_t, (e,), #[trigger] parts2[j])
                &&& out@ == parts2.map_values(|v: Vec<B>| v@).flatten()
            }) by {
            assert(rts.len() == gmv@.len());
            assert(parts.len() == gmv@.len());
            assert(forall|j: int| 0 <= j < gmv@.len() ==> call_ensures(f, (gmv@[j],), #[trigger] rts[j]));
            assert(forall|j: int|
                0 <= j < gmv@.len() ==> call_ensures(rts[j].run_reader_t, (e,), #[trigger] parts[j]));
            assert(out@ == parts.map_values(|v: Vec<B>| v@).flatten());
        }
    }
    out
}

/// The computation that yields the single inner result `x`, whatever the
/// environment.
pub fn pure<E, A>(x: A) -> (r: ReaderT<E, A, impl FnOnce(E) -> Vec<A>>)
    ensures
        forall|e: E| #[trigger] call_requires(r.run_reader_t, (e,)),
        forall|e: E, m: Vec<A>| call_ensures(r.run_reader_t, (e,), m) ==> m@ == seq![x],
{
    ReaderT {
        run_reader_t: (move |_e: E| -> (m: Vec<A>)
            ensures
                m@ == seq![x],
            {
                let mut v: Vec<A> = Vec::new();
                v.push(x);
                v
            }),
        phantom: core::marker::PhantomData,
    }
}

/// The computation that yields the environment as the single inner result.
pub fn ask<E>() -> (r: ReaderT<E, E, impl FnOnce(E) -> Vec<E>>)
    ensures
        forall|e: E| #[trigger] call_requires(r.run_reader_t, (e,)),
        forall|e: E, m: Vec<E>| call_ensures(r.run_reader_t, (e,), m) ==> m@ == seq![e],
{
    ReaderT {
        run_reader_t: (|e: E| -> (m: Vec<E>)
            ensures
                m@ == seq![e],
            {
                let mut v: Vec<E> = Vec::new();
                v.push(e);
                v
            }),
        phantom: core::marker::PhantomData,
    }
}

/// Promote an inner multi-result computation: the environment is ignored and
/// the computation is handed through unchanged.
pub fn lift<E, A>(m: Vec<A>) -> (r: ReaderT<E, A, impl FnOnce(E) -> Vec<A>>)
    ensures
        forall|e: E| #[trigger] call_requires(r.run_reader_t, (e,)),
        forall|e: E, m1: Vec<A>| call_ensures(r.run_reader_t, (e,), m1) ==> m1 == m,
{
    ReaderT {
        run_reader_t: (move |_e: E| -> (m1: Vec<A>)
            ensures
                m1 == m,
            {
                m
            }),
        phantom: core::marker::PhantomData,
    }
}

/// Promote the items of a slice, in order, as the inner multi-result
/// computation.
pub fn lift_iter<E, A: Copy>(it: &[A]) -> (r: ReaderT<E, A, impl FnOnce(E) -> Vec<A>>)
    ensures
        forall|e: E| #[trigger] call_requires(r.run_reader_t, (e,)),
        forall|e: E, m1: Vec<A>| call_ensures(r.run_reader_t, (e,), m1) ==> m1@ == it@,
{
    let v = vstd::slice::slice_to_vec(it);
    let ghost gv = v@;
    ReaderT {
        run_reader_t: (move |_e: E| -> (m1: Vec<A>)
            ensures
                m1@ == gv,
            {
                v
            }),
        phantom: core::marker::PhantomData,
    }
}

/// Run `rdr` under the environment modified by `f`; the substitution is
/// scoped to `rdr` alone.
pub fn local<E, A, F, G>(f: G, rdr: ReaderT<E, A, F>) -> (r: ReaderT<
    E,
    A,
    impl FnOnce(E) -> Vec<A>,
>) where
    F: FnOnce(E) -> Vec<A>,
    G: FnOnce(E) -> E,

    requires
        forall|e: E| #[trigger] call_requires(f, (e,)),
        forall|e: E, e1: E| call_ensures(f, (e,), e1) ==> call_requires(rdr.run_reader_t, (e1,)),
    ensures
        forall|e: E| #[trigger] call_requires(r.run_reader_t, (e,)),
        forall|e: E, m: Vec<A>|
            call_ensures(r.run_reader_t, (e,), m) ==> exists|e1: E|
                call_ensures(f, (e,), e1) && call_ensures(rdr.run_reader_t, (e1,), m),
{
    ReaderT {
        run_reader_t: (move |e: E| -> (m: Vec<A>)
            ensures
                exists|e1: E| call_ensures(f, (e,), e1) && call_ensures(
                    rdr.run_reader_t,
                    (e1,),
                    m,
                ),
            {
                let e1 = f(e);
                (rdr.run_reader_t)(e1)
            }),
        phantom: core::marker::PhantomData,
    }
}

// ----- the mathematical model of the transformer, and its laws -----

/// The model of `pure(x)`: the singleton, whatever the environment.
pub open spec fn rt_pure_sem<E, A>(x: A) -> spec_fn(E) -> Seq<A> {
    |e: E| seq![x]
}

/// The model of `bind`: flat-map the continuation's outcomes, all under the
/// same environment.
pub open spec fn rt_bind_sem<E, A, B>(
    m: spec_fn(E) -> Seq<A>,
    k: spec_fn(A) -> spec_fn(E) -> Seq<B>,
) -> spec_fn(E) -> Seq<B> {
    |e: E| m(e).flat_map(|a: A| (k(a))(e))
}

/// Law: binding a pure computation applies the continuation directly.
pub proof fn lemma_reader_trans_left_identity<E, A, B>(x: A, k: spec_fn(A) -> spec_fn(E) -> Seq<B>)
    ensures
        rt_bind_sem(rt_pure_sem(x), k) == k(x),
{
    assert forall|e: E| #[trigger] (rt_bind_sem(rt_pure_sem(x), k))(e) == (k(x))(e) by {
        seq![x].lemma_flat_map_singleton(|a: A| (k(a))(e));
    }
    assert(rt_bind_sem(rt_pure_sem(x), k) =~= k(x));
}

/// Law: binding into `pure` returns the computation unchanged.
pub proof fn lemma_reader_trans_right_identity<E, A>(m: spec_fn(E) -> Seq<A>)
    ensures
        rt_bind_sem(m, |a: A| rt_pure_sem(a)) == m,
{
    let k = |a: A| rt_pure_sem::<E, A>(a);
    assert forall|e: E| #[trigger] (rt_bind_sem(m, k))(e) == m(e) by {
        let inner = |a: A| (k(a))(e);
        assert(inner =~= (|x: A| crate::monad::seq_pure(x)));
        crate::monad::lemma_seq_right_identity(m(e));
        assert(m(e).flat_map(inner) == m(e));
    }
    assert(rt_bind_sem(m, k) =~= m);
}

/// Law: `bind` is associative.
pub proof fn lemma_reader_trans_assoc<E, A, B, C>(
    m: spec_fn(E) -> Seq<A>,
    k: spec_fn(A) -> spec_fn(E) -> Seq<B>,
    h: spec_fn(B) -> spec_fn(E) -> Seq<C>,
)
    ensures
        rt_bind_sem(rt_bind_sem(m, k), h) == rt_bind_sem(m, |a: A| rt_bind_sem(k(a), h)),
{
    let kh = |a: A| rt_bind_sem(k(a), h);
    assert forall|e: E| #[trigger] (rt_bind_sem(rt_bind_sem(m, k), h))(e) == (rt_bind_sem(m, kh))(
        e,
    ) by {
        let k0 = |a: A| (k(a))(e);
        let h0 = |b: B| (h(b))(e);
        crate::monad::lemma_seq_assoc(m(e), k0, h0);
        let kh0 = |a: A| (kh(a))(e);
        assert(kh0 =~= (|a: A| crate::monad::seq_bind(k0(a), h0)));
        assert((rt_bind_sem(rt_bind_sem(m, k), h))(e) == m(e).flat_map(k0).flat_map(h0));
        assert((rt_bind_sem(m, kh))(e) == m(e).flat_map(kh0));
    }
    assert(rt_bind_sem(rt_bind_sem(m, k), h) =~= rt_bind_sem(m, kh));
}

/// Bridge from the contract of `ReaderT::bind` to the model: when the bound
/// computation behaves as `ms` and every outcome of the continuation behaves
/// as `ks` of its argument, the witnesses `bind` ensures flatten to
/// `rt_bind_sem` of the models.
pub proof fn lemma_reader_trans_bind_deterministic<E, A, B, F, F2, G>(
    m: ReaderT<E, A, F>,
    f: G,
    ms: spec_fn(E) -> Seq<A>,
    ks: spec_fn(A) -> spec_fn(E) -> Seq<B>,
    e: E,
    out: Vec<B>,
    mv: Vec<A>,
    rts: Seq<ReaderT<E, B, F2>>,
    parts: Seq<Vec<B>>,
) where F: FnOnce(E) -> Vec<A>, F2: FnOnce(E) -> Vec<B>, G: Fn(A) -> ReaderT<E, B, F2>
    requires
        forall|e1: E, mv1: Vec<A>| call_ensures(m.run_reader_t, (e1,), mv1) ==> mv1@ == ms(e1),
        forall|a1: A, rt: ReaderT<E, B, F2>, e1: E, v1: Vec<B>|
            call_ensures(f, (a1,), rt) && call_ensures(rt.run_reader_t, (e1,), v1) ==> v1@ == (ks(
                a1,
            ))(e1),
        call_ensures(m.run_reader_t, (e,), mv),
        rts.len() == mv@.len(),
        parts.len() == mv@.len(),
        forall|i: int| 0 <= i < mv@.len() ==> call_ensures(f, (mv@[i],), #[trigger] rts[i]),
        forall|i: int|
            0 <= i < mv@.len() ==> call_ensures(rts[i].run_reader_t, (e,), #[trigger] parts[i]),
        out@ == parts.map_values(|v: Vec<B>| v@).flatten(),
    ensures
        out@ == (rt_bind_sem(ms, ks))(e),
{
    assert(parts.map_values(|v: Vec<B>| v@) =~= ms(e).map_values(|a: A| (ks(a))(e)));
}

} // verus!

//! The StateT transformer: the State effect generalised over a multi-result
//! inner computation.
//!
//! A computation is a deferred function from an input state to the inner
//! multi-result computation of `(result, output state)` pairs, consumed
//! exactly once by `initial_state`. `bind` runs the outer function, sequences
//! across every inner pair with the inner effect's own composition — each
//! continuation picking up the state its pair carries — and re-collects the
//! outcomes into a single inner computation. The model is a total function
//! from the state to the sequence of pairs; the monad laws are proved over
//! that model at the bottom of this module.

use vstd::prelude::*;

verus! {

/// A state-threading computation over a multi-result inner effect.
#[verifier::reject_recursive_types(S)]
#[verifier::reject_recursive_types(A)]
pub struct StateT<S, A, F> where F: FnOnce(S) -> Vec<(A, S)> {
    pub run_state_t: F,
    pub phantom: core::marker::PhantomData<(S, A)>,
}

impl<S, A, F> StateT<S, A, F> where F: FnOnce(S) -> Vec<(A, S)> {
    /// Drive the computation with the initial state `s`, yielding the inner
    /// multi-result computation of `(result, output state)` pairs.
    pub fn initial_state(self, s: S) -> (m: Vec<(A, S)>)
        requires
            call_requires(self.run_state_t, (s,)),
        ensures
            call_ensures(self.run_state_t, (s,), m),
    {
        (self.run_state_t)(s)
    }

    /// Sequence `self` into the continuation `f`: run `self` on the input
    /// state, apply `f` to every inner result, run each outcome on the state
    /// its pair carries, and concatenate the inner pairs that come back.
    pub fn bind<B, F2, G>(self, f: G) -> (r: StateT<S, B, impl FnOnce(S) -> Vec<(B, S)>>) where
        F2: FnOnce(S) -> Vec<(B, S)>,
        G: Fn(A) -> StateT<S, B, F2>,

        requires
            forall|s: S| #[trigger] call_requires(self.run_state_t, (s,)),
            forall|a: A| #[trigger] call_requires(f, (a,)),
            forall|a: A, st: StateT<S, B, F2>, s1: S|
                call_ensures(f, (a,), st) ==> call_requires(st.run_state_t, (s1,)),
        ensures
            forall|s: S| #[trigger] call_requires(r.run_state_t, (s,)),
            forall|s: S, out: Vec<(B, S)>|
                call_ensures(r.run_state_t, (s,), out) ==> exists|
                    mv: Vec<(A, S)>,
                    sts: Seq<StateT<S, B, F2>>,
                    parts: Seq<Vec<(B, S)>>,
                |
                    {
                        &&& call_ensures(self.run_state_t, (s,), mv)
                        &&& sts.len() == mv@.len()
                        &&& parts.len() == mv@.len()
                        &&& forall|i: int|
                            0 <= i < mv@.len() ==> call_ensures(f, (mv@[i].0,), #[trigger] sts[i])
                        &&& forall|i: int|
                            0 <= i < mv@.len() ==> call_ensures(
                                sts[i].run_state_t,
                                (mv@[i].1,),
                                #[trigger] parts[i],
                            )
                        &&& out@ == parts.map_values(|v: Vec<(B, S)>| v@).flatten()
                    },
    {
        StateT {
            run_state_t: (move |s: S| -> (out: Vec<(B, S)>)
                ensures
                    exists|mv: Vec<(A, S)>, sts: Seq<StateT<S, B, F2>>, parts: Seq<Vec<(B, S)>>|
                        {
                            &&& call_ensures(self.run_state_t, (s,), mv)
                            &&& sts.len() == mv@.len()
                            &&& parts.len() == mv@.len()
                            &&& forall|i: int|
                                0 <= i < mv@.len() ==> call_ensures(
                                    f,
                                    (mv@[i].0,),
                                    #[trigger] sts[i],
                                )
                            &&& forall|i: int|
                                0 <= i < mv@.len() ==> call_ensures(
                                    sts[i].run_state_t,
                                    (mv@[i].1,),
                                    #[trigger] parts[i],
                                )
                            &&& out@ == parts.map_values(|v: Vec<(B, S)>| v@).flatten()
                        },
                {
                    let mv = (self.run_state_t)(s);
                    let ghost gmv = mv;
                    let out = run_each(f, mv);
                    proof {
                        let (gsts, gparts) = choose|sts: Seq<StateT<S, B, F2>>, parts: Seq<
                            Vec<(B, S)>,
                        >|
                            {
                                &&& sts.len() == gmv@.len()
                                &&& parts.len() == gmv@.len()
                                &&& forall|i: int|
                                    0 <= i < gmv@.len() ==> call_ensures(
                                        f,
                                        (gmv@[i].0,),
                                        #[trigger] sts[i],
                                    )
                                &&& forall|i: int|
                                    0 <= i < gmv@.len() ==> call_ensures(
                                        sts[i].run_state_t,
                                        (gmv@[i].1,),
                                        #[trigger] parts[i],
                                    )
                                &&& out@ == parts.map_values(|v: Vec<(B, S)>| v@).flatten()
                            };
                        assert(exists|
                            mv2: Vec<(A, S)>,
                            sts2: Seq<StateT<S, B, F2>>,
                            parts2: Seq<Vec<(B, S)>>,
                        |
                            {
                                &&& call_ensures(self.run_state_t, (s,), mv2)
                                &&& sts2.len() == mv2@.len()
                                &&& parts2.len() == mv2@.len()
                                &&& forall|j: int|
                                    0 <= j < mv2@.len() ==> call_ensures(
                                        f,
                                        (mv2@[j].0,),
                                        #[trigger] sts2[j],
                                    )
                                &&& forall|j: int|
                                    0 <= j < mv2@.len() ==> call_ensures(
                                        sts2[j].run_state_t,
                                        (mv2@[j].1,),
                                        #[trigger] parts2[j],
                                    )
                                &&& out@ == parts2.map_values(|v: Vec<(B, S)>| v@).flatten()
                            }) by {
                            assert(call_ensures(self.run_state_t, (s,), gmv));
                            assert(gsts.len() == gmv@.len());
                            assert(gparts.len() == gmv@.len());
                            assert(forall|j: int|
                                0 <= j < gmv@.len() ==> call_ensures(
                                    f,
                                    (gmv@[j].0,),
                                    #[trigger] gsts[j],
                                ));
                            assert(forall|j: int|
                                0 <= j < gmv@.len() ==> call_ensures(
                                    gsts[j].run_state_t,
                                    (gmv@[j].1,),
                                    #[trigger] gparts[j],
                                ));
                            assert(out@ == gparts.map_values(|v: Vec<(B, S)>| v@).flatten());
                        }
                    }
                    out
                }),
            phantom: core::marker::PhantomData,
        }
    }
}

/// Apply `f` to the result of every pair of `mv` in order, run each
/// resulting computation on the state its pair carries, and concatenate the
/// inner pairs.
fn run_each<S, A, B, F2, G>(f: G, mv: Vec<(A, S)>) -> (out: Vec<(B, S)>) where
    F2: FnOnce(S) -> Vec<(B, S)>,
    G: Fn(A) -> StateT<S, B, F2>,

    requires
        forall|a: A| #[trigger] call_requires(f, (a,)),
        forall|a: A, st: StateT<S, B, F2>, s1: S|
            call_ensures(f, (a,), st) ==> call_requires(st.run_state_t, (s1,)),
    ensures
        exists|sts: Seq<StateT<S, B, F2>>, parts: Seq<Vec<(B, S)>>|
            {
                &&& sts.len() == mv@.len()
                &&& parts.len() == mv@.len()
                &&& forall|i: int|
                    0 <= i < mv@.len() ==> call_ensures(f, (mv@[i].0,), #[trigger] sts[i])
                &&& forall|i: int|
                    0 <= i < mv@.len() ==> call_ensures(
                        sts[i].run_state_t,
                        (mv@[i].1,),
                        #[trigger] parts[i],
                    )
                &&& out@ == parts.map_values(|v: Vec<(B, S)>| v@).flatten()
            },
{
    let ghost gmv = mv;
    let mut rest = mv;
    let n = rest.len();
    let mut out: Vec<(B, S)> = Vec::new();
    let ghost mut sts: Seq<StateT<S, B, F2>> = Seq::empty();
    let ghost mut parts: Seq<Vec<(B, S)>> = Seq::empty();
    let mut i: usize = 0;
    proof {
        assert(rest@ == gmv@.skip(0));
        assert(parts.map_values(|v: Vec<(B, S)>| v@).flatten() =~= Seq::<(B, S)>::empty());
    }
    while rest.len() > 0
        invariant
            sts.len() == i as int,
            parts.len() == i as int,
            gmv@.len() == n as int,
            i as int + rest@.len() == gmv@.len(),
            rest@ == gmv@.skip(i as int),
            forall|a: A| #[trigger] call_requires(f, (a,)),
            forall|a: A, st: StateT<S, B, F2>, s1: S|
                call_ensures(f, (a,), st) ==> call_requires(st.run_state_t, (s1,)),
            forall|j: int| 0 <= j < i ==> call_ensures(f, (gmv@[j].0,), #[trigger] sts[j]),
            forall|j: int|
                0 <= j < i ==> call_ensures(sts[j].run_state_t, (gmv@[j].1,), #[trigger] parts[j]),
            out@ == parts.map_values(|v: Vec<(B, S)>| v@).flatten(),
        decreases rest@.len(),
    {
        proof {
            assert(gmv@.skip(i as int)[0] == gmv@[i as int]);
        }
        let p = rest.remove(0);
        let (a, s1) = p;
        let st = f(a);
        let ghost gst = st;
        let mut vb = (st.run_state_t)(s1);
        let ghost gvb = vb;
        out.append(&mut vb);
        proof {
            let prev = parts;
            sts = sts.push(gst);
            parts = parts.push(gvb);
            assert(sts[i as int] == gst);
            assert(parts[i as int] == gvb);
            assert(call_ensures(f, (gmv@[i as int].0,), gst));
            assert(call_ensures(gst.run_state_t, (gmv@[i as int].1,), gvb));
            assert(parts.map_values(|v: Vec<(B, S)>| v@) =~= prev.map_values(
                |v: Vec<(B, S)>| v@,
            ).push(gvb@));
            prev.map_values(|v: Vec<(B, S)>| v@).lemma_flatten_push(gvb@);
            assert(rest@ =~= gmv@.skip(i as int + 1));
        }
        i += 1;
    }
    proof {
        assert(exists|sts2: Seq<StateT<S, B, F2>>, parts2: Seq<Vec<(B, S)>>|
            {
                &&& sts2.len() == gmv@.len()
                &&& parts2.len() == gmv@.len()
                &&& forall|j: int|
                    0 <= j < gmv@.len() ==> call_ensures(f, (gmv@[j].0,), #[trigger] sts2[j])
                &&& forall|j: int|
                    0 <= j < gmv@.len() ==> call_ensures(
                        sts2[j].run_state_t,
                        (gmv@[j].1,),
                        #[trigger] parts2[j],
                    )
                &&& out@ == parts2.map_values(|v: Vec<(B, S)>| v@).flatten()
            }) by {
            assert(sts.len() == gmv@.len());
            assert(parts.len() == gmv@.len());
            assert(forall|j: int|
                0 <= j < gmv@.len() ==> call_ensures(f, (gmv@[j].0,), #[trigger] sts[j]));
            assert(forall|j: int|
                0 <= j < gmv@.len() ==> call_ensures(
                    sts[j].run_state_t,
                    (gmv@[j].1,),
                    #[trigger] parts[j],
                ));
            assert(out@ == parts.map_values(|v: Vec<(B, S)>| v@).flatten());
        }
    }
    out
}

/// The computation that yields `x` as the single inner result, passing the
/// state through unchanged.
pub fn pure<S, A>(x: A) -> (r: StateT<S, A, impl FnOnce(S) -> Vec<(A, S)>>)
    ensures
        forall|s: S| #[trigger] call_requires(r.run_state_t, (s,)),
        forall|s: S, m: Vec<(A, S)>| call_ensures(r.run_state_t, (s,), m) ==> m@ == seq![(x, s)],
{
    StateT {
        run_state_t: (move |s: S| -> (m: Vec<(A, S)>)
            ensures
                m@ == seq![(x, s)],
            {
                let mut v: Vec<(A, S)> = Vec::new();
                v.push((x, s));
                v
            }),
        phantom: core::marker::PhantomData,
    }
}

/// Promote an inner multi-result computation: every inner value is paired
/// with the unchanged input state.
pub fn lift<S: Copy, A>(n: Vec<A>) -> (r: StateT<S, A, impl FnOnce(S) -> Vec<(A, S)>>)
    ensures
        forall|s: S| #[trigger] call_requires(r.run_state_t, (s,)),
        forall|s: S, m: Vec<(A, S)>|
            call_ensures(r.run_state_t, (s,), m) ==> m@.len() == n@.len() && (forall|i: int|
                0 <= i < n@.len() ==> #[trigger] m@[i] == (n@[i], s)),
{
    StateT {
        run_state_t: (move |s: S| -> (m: Vec<(A, S)>)
            ensures
                m@.len() == n@.len(),
                forall|i: int| 0 <= i < n@.len() ==> #[trigger] m@[i] == (n@[i], s),
            {
                pair_with(n, s)
            }),
        phantom: core::marker::PhantomData,
    }
}

/// Promote the items of a slice, in order: every item is paired with the
/// unchanged input state.
pub fn lift_iter<S: Copy, A: Copy>(it: &[A]) -> (r: StateT<S, A, impl FnOnce(S) -> Vec<(A, S)>>)
    ensures
        forall|s: S| #[trigger] call_requires(r.run_state_t, (s,)),
        forall|s: S, m: Vec<(A, S)>|
            call_ensures(r.run_state_t, (s,), m) ==> m@.len() == it@.len() && (forall|i: int|
                0 <= i < it@.len() ==> #[trigger] m@[i] == (it@[i], s)),
{
    let v = vstd::slice::slice_to_vec(it);
    let ghost gv = v@;
    StateT {
        run_state_t: (move |s: S| -> (m: Vec<(A, S)>)
            ensures
                m@.len() == gv.len(),
                forall|i: int| 0 <= i < gv.len() ==> #[trigger] m@[i] == (gv[i], s),
            {
                pair_with(v, s)
            }),
        phantom: core::marker::PhantomData,
    }
}

/// Pair every value of `n` with the state `s`, in order.
fn pair_with<S: Copy, A>(n: Vec<A>, s: S) -> (m: Vec<(A, S)>)
    ensures
        m@.len() == n@.len(),
        forall|i: int| 0 <= i < n@.len() ==> #[trigger] m@[i] == (n@[i], s),
{
    let ghost gn = n@;
    let mut rest = n;
    let nn = rest.len();
    let mut m: Vec<(A, S)> = Vec::new();
    let mut i: usize = 0;
    proof {
        assert(rest@ == gn.skip(0));
    }
    while rest.len() > 0
        invariant
            m@.len() == i as int,
            gn.len() == nn as int,
            i as int + rest@.len() == gn.len(),
            rest@ == gn.skip(i as int),
            forall|j: int| 0 <= j < i ==> #[trigger] m@[j] == (gn[j], s),
        decreases rest@.len(),
    {
        proof {
            assert(gn.skip(i as int)[0] == gn[i as int]);
        }
        let x = rest.remove(0);
        m.push((x, s));
        proof {
            assert(rest@ =~= gn.skip(i as int + 1));
        }
        i += 1;
    }
    m
}

/// The computation that yields the current state as the single inner result,
/// leaving it in place.
pub fn get<S: Copy>() -> (r: StateT<S, S, impl FnOnce(S) -> Vec<(S, S)>>)
    ensures
        forall|s: S| #[trigger] call_requires(r.run_state_t, (s,)),
        forall|s: S, m: Vec<(S, S)>| call_ensures(r.run_state_t, (s,), m) ==> m@ == seq![(s, s)],
{
    StateT {
        run_state_t: (|s: S| -> (m: Vec<(S, S)>)
            ensures
                m@ == seq![(s, s)],
            {
                let mut v: Vec<(S, S)> = Vec::new();
                v.push((s, s));
                v
            }),
        phantom: core::marker::PhantomData,
    }
}

/// The computation that replaces the state with `s1` as its single inner
/// outcome, yielding the unit result.
pub fn put<S: Copy>(s1: S) -> (r: StateT<S, (), impl FnOnce(S) -> Vec<((), S)>>)
    ensures
        forall|s: S| #[trigger] call_requires(r.run_state_t, (s,)),
        forall|s: S, m: Vec<((), S)>| call_ensures(r.run_state_t, (s,), m) ==> m@ == seq![((), s1)],
{
    StateT {
        run_state_t: (move |_s: S| -> (m: Vec<((), S)>)
            ensures
                m@ == seq![((), s1)],
            {
                let mut v: Vec<((), S)> = Vec::new();
                v.push(((), s1));
                v
            }),
        phantom: core::marker::PhantomData,
    }
}

// ----- the mathematical model of the transformer, and its laws -----

/// The model of `pure(x)`: the single pair of `x` and the unchanged state.
pub open spec fn st_pure_sem<S, A>(x: A) -> spec_fn(S) -> Seq<(A, S)> {
    |s: S| seq![(x, s)]
}

/// The model of `bind`: flat-map the continuation's outcomes, each run on
/// the state its pair carries.
pub open spec fn st_bind_sem<S, A, B>(
    m: spec_fn(S) -> Seq<(A, S)>,
    k: spec_fn(A) -> spec_fn(S) -> Seq<(B, S)>,
) -> spec_fn(S) -> Seq<(B, S)> {
    |s: S| m(s).flat_map(|p: (A, S)| (k(p.0))(p.1))
}

/// Law: binding a pure computation applies the continuation directly.
pub proof fn lemma_state_trans_left_identity<S, A, B>(
    x: A,
    k: spec_fn(A) -> spec_fn(S) -> Seq<(B, S)>,
)
    ensures
        st_bind_sem(st_pure_sem(x), k) == k(x),
{
    assert forall|s: S| #[trigger] (st_bind_sem(st_pure_sem(x), k))(s) == (k(x))(s) by {
        seq![(x, s)].lemma_flat_map_singleton(|p: (A, S)| (k(p.0))(p.1));
    }
    assert(st_bind_sem(st_pure_sem(x), k) =~= k(x));
}

/// Law: binding into `pure` returns the computation unchanged.
pub proof fn lemma_state_trans_right_identity<S, A>(m: spec_fn(S) -> Seq<(A, S)>)
    ensures
        st_bind_sem(m, |a: A| st_pure_sem(a)) == m,
{
    let k = |a: A| st_pure_sem::<S, A>(a);
    assert forall|s: S| #[trigger] (st_bind_sem(m, k))(s) == m(s) by {
        let inner = |p: (A, S)| (k(p.0))(p.1);
        assert(inner =~= (|p: (A, S)| crate::monad::seq_pure(p)));
        crate::monad::lemma_seq_right_identity(m(s));
        assert(m(s).flat_map(inner) == m(s));
    }
    assert(st_bind_sem(m, k) =~= m);
}

/// Law: `bind` is associative.
pub proof fn lemma_state_trans_assoc<S, A, B, C>(
    m: spec_fn(S) -> Seq<(A, S)>,
    k: spec_fn(A) -> spec_fn(S) -> Seq<(B, S)>,
    h: spec_fn(B) -> spec_fn(S) -> Seq<(C, S)>,
)
    ensures
        st_bind_sem(st_bind_sem(m, k), h) == st_bind_sem(m, |a: A| st_bind_sem(k(a), h)),
{
    let kh = |a: A| st_bind_sem(k(a), h);
    assert forall|s: S| #[trigger] (st_bind_sem(st_bind_sem(m, k), h))(s) == (st_bind_sem(m, kh))(
        s,
    ) by {
        let k0 = |p: (A, S)| (k(p.0))(p.1);
        let h0 = |q: (B, S)| (h(q.0))(q.1);
        crate::monad::lemma_seq_assoc(m(s), k0, h0);
        let kh0 = |p: (A, S)| (kh(p.0))(p.1);
        assert(kh0 =~= (|p: (A, S)| crate::monad::seq_bind(k0(p), h0)));
        assert((st_bind_sem(st_bind_sem(m, k), h))(s) == m(s).flat_map(k0).flat_map(h0));
        assert((st_bind_sem(m, kh))(s) == m(s).flat_map(kh0));
    }
    assert(st_bind_sem(st_bind_sem(m, k), h) =~= st_bind_sem(m, kh));
}

/// Bridge from the contract of `StateT::bind` to the model: when the bound
/// computation behaves as `ms` and every outcome of the continuation behaves
/// as `ks` of its argument, the witnesses `bind` ensures flatten to
/// `st_bind_sem` of the models.
pub proof fn lemma_state_trans_bind_deterministic<S, A, B, F, F2, G>(
    m: StateT<S, A, F>,
    f: G,
    ms: spec_fn(S) -> Seq<(A, S)>,
    ks: spec_fn(A) -> spec_fn(S) -> Seq<(B, S)>,
    s: S,
    out: Vec<(B, S)>,
    mv: Vec<(A, S)>,
    sts: Seq<StateT<S, B, F2>>,
    parts: Seq<Vec<(B, S)>>,
) where F: FnOnce(S) -> Vec<(A, S)>, F2: FnOnce(S) -> Vec<(B, S)>, G: Fn(A) -> StateT<S, B, F2>
    requires
        forall|s1: S, mv1: Vec<(A, S)>| call_ensures(m.run_state_t, (s1,), mv1) ==> mv1@ == ms(s1),
        forall|a1: A, st: StateT<S, B, F2>, s1: S, v1: Vec<(B, S)>|
            call_ensures(f, (a1,), st) && call_ensures(st.run_state_t, (s1,), v1) ==> v1@ == (ks(
                a1,
            ))(s1),
        call_ensures(m.run_state_t, (s,), mv),
        sts.len() == mv@.len(),
        parts.len() == mv@.len(),
        forall|i: int| 0 <= i < mv@.len() ==> call_ensures(f, (mv@[i].0,), #[trigger] sts[i]),
        forall|i: int|
            0 <= i < mv@.len() ==> call_ensures(
                sts[i].run_state_t,
                (mv@[i].1,),
                #[trigger] parts[i],
            ),
        out@ == parts.map_values(|v: Vec<(B, S)>| v@).flatten(),
    ensures
        out@ == (st_bind_sem(ms, ks))(s),
{
    assert(parts.map_values(|v: Vec<(B, S)>| v@) =~= ms(s).map_values(|p: (A, S)| (ks(p.0))(p.1)));
}

} // verus!

//! The WriterT transformer: the Writer effect generalised over a
//! multi-result inner computation.
//!
//! A computation owns a `(results, log)` pair, where the results are the
//! zero-or-more values of the inner multi-result effect. `bind` applies the
//! continuation to every inner result, concatenates the inner results that
//! come back, and appends the log of the first outcome to the accumulated
//! log; when the inner effect produces no result at all, the outcome is the
//! empty inner computation with the accumulated log kept — the zero contract,
//! not an error. The model is a `(Seq, log view)` pair; the monad laws are
//! proved over it at the bottom of this module, associativity under the
//! hypothesis that the continuation never yields an empty inner computation.

use vstd::prelude::*;
use crate::monoid::{Monoid, Semigroup};

verus! {

/// A log-accumulating computation over a multi-result inner effect.
pub struct WriterT<A, W = String> {
    pub run_writer_t: (Vec<A>, W),
}

impl<A, W: Monoid> WriterT<A, W> {
    /// The computation that yields exactly `x` with the empty log.
    pub fn pure(x: A) -> (r: Self)
        ensures
            r.run_writer_t.0@ == seq![x],
            r.run_writer_t.1@ == W::munit(),
    {
        let mut v: Vec<A> = Vec::new();
        v.push(x);
        WriterT { run_writer_t: (v, W::mempty()) }
    }

    /// Promote an inner multi-result computation, with the empty log.
    pub fn lift(m: Vec<A>) -> (r: Self)
        ensures
            r.run_writer_t.0 == m,
            r.run_writer_t.1@ == W::munit(),
    {
        WriterT { run_writer_t: (m, W::mempty()) }
    }

    /// Sequence `self` into the continuation `f`: apply `f` to every inner
    /// result in order, concatenate the inner results of the outcomes, and
    /// append the log of the first outcome to the accumulated log. With no
    /// inner result, the outcome is empty and the accumulated log is kept.
    pub fn bind<B, G>(self, f: G) -> (r: WriterT<B, W>) where
        G: Fn(A) -> WriterT<B, W>,

        requires
            forall|i: int|
                0 <= i < self.run_writer_t.0@.len() ==> call_requires(
                    f,
                    (#[trigger] self.run_writer_t.0@[i],),
                ),
        ensures
            exists|parts: Seq<WriterT<B, W>>|
                {
                    &&& parts.len() == self.run_writer_t.0@.len()
                    &&& forall|i: int|
                        0 <= i < parts.len() ==> call_ensures(
                            f,
                            (self.run_writer_t.0@[i],),
                            #[trigger] parts[i],
                        )
                    &&& r.run_writer_t.0@ == parts.map_values(
                        |t: WriterT<B, W>| t.run_writer_t.0@,
                    ).flatten()
                    &&& r.run_writer_t.1@ == if parts.len() == 0 {
                        self.run_writer_t.1@
                    } else {
                        W::sapp(self.run_writer_t.1@, parts[0].run_writer_t.1@)
                    }
                },
    {
        let (m, w) = self.run_writer_t;
        let ghost gm = m@;
        let ghost gw = w@;
        let mut rest = m;
        let n = rest.len();
        let mut out: Vec<B> = Vec::new();
        let mut log: W = w;
        let ghost mut parts: Seq<WriterT<B, W>> = Seq::empty();
        let mut i: usize = 0;
        proof {
            assert(rest@ == gm.skip(0));
            assert(parts.map_values(|t: WriterT<B, W>| t.run_writer_t.0@).flatten()
                =~= Seq::<B>::empty());
        }
        while rest.len() > 0
            invariant
                parts.len() == i as int,
                gm.len() == n as int,
                i as int + rest@.len() == gm.len(),
                rest@ == gm.skip(i as int),
                forall|j: int| 0 <= j < gm.len() ==> call_requires(f, (#[trigger] gm[j],)),
                forall|j: int| 0 <= j < i ==> call_ensures(f, (gm[j],), #[trigger] parts[j]),
                out@ == parts.map_values(|t: WriterT<B, W>| t.run_writer_t.0@).flatten(),
                i == 0 ==> log@ == gw,
                i > 0 ==> log@ == W::sapp(gw, parts[0].run_writer_t.1@),
            decreases rest@.len(),
        {
            proof {
                assert(gm.skip(i as int)[0] == gm[i as int]);
            }
            let x = rest.remove(0);
            let wt = f(x);
            let ghost gwt = wt;
            let (mut n1, mut w1) = wt.run_writer_t;
            out.append(&mut n1);
            if i == 0 {
                log = log.mappend(&mut w1);
            }
            proof {
                let prev = parts;
                parts = parts.push(gwt);
                assert(parts.map_values(|t: WriterT<B, W>| t.run_writer_t.0@) =~= prev.map_values(
                    |t: WriterT<B, W>| t.run_writer_t.0@,
                ).push(gwt.run_writer_t.0@));
                prev.map_values(|t: WriterT<B, W>| t.run_writer_t.0@).lemma_flatten_push(
                    gwt.run_writer_t.0@,
                );
                assert(rest@ =~= gm.skip(i as int + 1));
                assert(parts[0] == if i == 0 {
                    gwt
                } else {
                    prev[0]
                });
            }
            i += 1;
        }
        let r = WriterT { run_writer_t: (out, log) };
        proof {
            assert(parts.len() == gm.len());
            assert(exists|p: Seq<WriterT<B, W>>|
                {
                    &&& p.len() == gm.len()
                    &&& forall|j: int|
                        0 <= j < p.len() ==> call_ensures(f, (gm[j],), #[trigger] p[j])
                    &&& r.run_writer_t.0@ == p.map_values(
                        |t: WriterT<B, W>| t.run_writer_t.0@,
                    ).flatten()
                    &&& r.run_writer_t.1@ == if p.len() == 0 {
                        gw
                    } else {
                        W::sapp(gw, p[0].run_writer_t.1@)
                    }
                }) by {
                assert(parts.len() == gm.len() && (forall|j: int|
                    0 <= j < parts.len() ==> call_ensures(f, (gm[j],), #[trigger] parts[j]))
                    && r.run_writer_t.0@ == parts.map_values(
                    |t: WriterT<B, W>| t.run_writer_t.0@,
                ).flatten() && r.run_writer_t.1@ == if parts.len() == 0 {
                    gw
                } else {
                    W::sapp(gw, parts[0].run_writer_t.1@)
                });
            }
        }
        r
    }

    /// The `(inner results, log)` pair.
    pub fn unwrap_pair(self) -> (r: (Vec<A>, W))
        ensures
            r == self.run_writer_t,
    {
        self.run_writer_t
    }

    /// The inner results alone, discarding the log.
    pub fn unwrap(self) -> (r: Vec<A>)
        ensures
            r == self.run_writer_t.0,
    {
        let (m, _w) = self.run_writer_t;
        m
    }

    /// Pair every inner result with the accumulated log, which is still
    /// propagated outward unchanged.
    pub fn listen(self) -> (r: WriterT<(A, W), W>)
        ensures
            r.run_writer_t.0@.len() == self.run_writer_t.0@.len(),
            forall|i: int|
                0 <= i < self.run_writer_t.0@.len() ==> (#[trigger] r.run_writer_t.0@[i]).0
                    == self.run_writer_t.0@[i] && r.run_writer_t.0@[i].1@
                    == self.run_writer_t.1@,
            r.run_writer_t.1 == self.run_writer_t.1,
    {
        let (m, w) = self.run_writer_t;
        let ghost gm = m@;
        let mut rest = m;
        let n = rest.len();
        let mut out: Vec<(A, W)> = Vec::new();
        let mut i: usize = 0;
        proof {
            assert(rest@ == gm.skip(0));
        }
        while rest.len() > 0
            invariant
                out@.len() == i as int,
                gm.len() == n as int,
                i as int + rest@.len() == gm.len(),
                rest@ == gm.skip(i as int),
                forall|j: int|
                    0 <= j < i ==> (#[trigger] out@[j]).0 == gm[j] && out@[j].1@ == w@,
            decreases rest@.len(),
        {
            proof {
                assert(gm.skip(i as int)[0] == gm[i as int]);
            }
            let x = rest.remove(0);
            let wd = w.dup();
            out.push((x, wd));
            proof {
                assert(rest@ =~= gm.skip(i as int + 1));
            }
            i += 1;
        }
        WriterT { run_writer_t: (out, w) }
    }

    /// Pair every inner result with a projection of the accumulated log.
    pub fn listens<V, G>(self, f: G) -> (r: WriterT<(A, V), W>) where
        G: Fn(&W) -> V,

        requires
            call_requires(f, (&self.run_writer_t.1,)),
        ensures
            r.run_writer_t.0@.len() == self.run_writer_t.0@.len(),
            forall|i: int|
                0 <= i < self.run_writer_t.0@.len() ==> (#[trigger] r.run_writer_t.0@[i]).0
                    == self.run_writer_t.0@[i] && call_ensures(
                    f,
                    (&self.run_writer_t.1,),
                    r.run_writer_t.0@[i].1,
                ),
            r.run_writer_t.1 == self.run_writer_t.1,
    {
        let (m, w) = self.run_writer_t;
        let ghost gm = m@;
        let mut rest = m;
        let n = rest.len();
        let mut out: Vec<(A, V)> = Vec::new();
        let mut i: usize = 0;
        proof {
            assert(rest@ == gm.skip(0));
        }
        while rest.len() > 0
            invariant
                call_requires(f, (&self.run_writer_t.1,)),
                w == self.run_writer_t.1,
                out@.len() == i as int,
                gm.len() == n as int,
                i as int + rest@.len() == gm.len(),
                rest@ == gm.skip(i as int),
                forall|j: int|
                    0 <= j < i ==> (#[trigger] out@[j]).0 == gm[j] && call_ensures(
                        f,
                        (&self.run_writer_t.1,),
                        out@[j].1,
                    ),
            decreases rest@.len(),
        {
            proof {
                assert(gm.skip(i as int)[0] == gm[i as int]);
            }
            let x = rest.remove(0);
            let v = f(&w);
            out.push((x, v));
            proof {
                assert(rest@ =~= gm.skip(i as int + 1));
            }
            i += 1;
        }
        WriterT { run_writer_t: (out, w) }
    }

    /// Rewrite the accumulated log with `f`; the inner results are untouched.
    pub fn censor<G>(self, f: G) -> (r: Self) where
        G: FnOnce(W) -> W,

        requires
            call_requires(f, (self.run_writer_t.1,)),
        ensures
            r.run_writer_t.0 == self.run_writer_t.0,
            call_ensures(f, (self.run_writer_t.1,), r.run_writer_t.1),
    {
        let (m, w) = self.run_writer_t;
        let w1 = f(w);
        WriterT { run_writer_t: (m, w1) }
    }
}

/// Rewrite the accumulated log of `wrt` with `f`; the free-function form of
/// `WriterT::censor`.
pub fn censor<A, W: Monoid, G>(f: G, wrt: WriterT<A, W>) -> (r: WriterT<A, W>) where
    G: FnOnce(W) -> W,

    requires
        call_requires(f, (wrt.run_writer_t.1,)),
    ensures
        r.run_writer_t.0 == wrt.run_writer_t.0,
        call_ensures(f, (wrt.run_writer_t.1,), r.run_writer_t.1),
{
    wrt.censor(f)
}

/// Pair every inner result of `wrt` with the accumulated log; the
/// free-function form of `WriterT::listen`.
pub fn listen<A, W: Monoid>(wrt: WriterT<A, W>) -> (r: WriterT<(A, W), W>)
    ensures
        r.run_writer_t.0@.len() == wrt.run_writer_t.0@.len(),
        forall|i: int|
            0 <= i < wrt.run_writer_t.0@.len() ==> (#[trigger] r.run_writer_t.0@[i]).0
                == wrt.run_writer_t.0@[i] && r.run_writer_t.0@[i].1@ == wrt.run_writer_t.1@,
        r.run_writer_t.1 == wrt.run_writer_t.1,
{
    wrt.listen()
}

/// Pair every inner result of `wrt` with a projection of the accumulated
/// log; the free-function form of `WriterT::listens`.
pub fn listens<A, V, W: Monoid, G>(wrt: WriterT<A, W>, f: G) -> (r: WriterT<(A, V), W>) where
    G: Fn(&W) -> V,

    requires
        call_requires(f, (&wrt.run_writer_t.1,)),
    ensures
        r.run_writer_t.0@.len() == wrt.run_writer_t.0@.len(),
        forall|i: int|
            0 <= i < wrt.run_writer_t.0@.len() ==> (#[trigger] r.run_writer_t.0@[i]).0
                == wrt.run_writer_t.0@[i] && call_ensures(
                f,
                (&wrt.run_writer_t.1,),
                r.run_writer_t.0@[i].1,
            ),
        r.run_writer_t.1 == wrt.run_writer_t.1,
{
    wrt.listens(f)
}

/// The computation with one unit inner result and `w` as its whole log.
pub fn tell<W>(w: W) -> (r: WriterT<(), W>)
    ensures
        r.run_writer_t.0@ == seq![()],
        r.run_writer_t.1 == w,
{
    let mut v: Vec<()> = Vec::new();
    v.push(());
    WriterT { run_writer_t: (v, w) }
}

/// `tell` for a string log.
pub fn tell_str(s: &str) -> (r: WriterT<(), String>)
    ensures
        r.run_writer_t.0@ == seq![()],
        r.run_writer_t.1@ == s@,
{
    let mut v: Vec<()> = Vec::new();
    v.push(());
    WriterT { run_writer_t: (v, s.to_owned()) }
}

/// `tell` for an array log.
pub fn tell_array<T: Copy>(v: &[T]) -> (r: WriterT<(), Vec<T>>)
    ensures
        r.run_writer_t.0@ == seq![()],
        r.run_writer_t.1@ == v@,
{
    let mut u: Vec<()> = Vec::new();
    u.push(());
    WriterT { run_writer_t: (u, vstd::slice::slice_to_vec(v)) }
}

// ----- the mathematical model of the transformer, and its laws -----

/// The model of `pure(x)`: one inner result, the neutral log.
pub open spec fn wt_pure<A, W: Monoid>(x: A) -> (Seq<A>, W::V) {
    (seq![x], W::munit())
}

/// The model of `bind`: the continuation's inner results concatenated, and
/// the first outcome's log appended — or the accumulated log alone when the
/// inner effect is empty.
pub open spec fn wt_bind<A, B, W: Monoid>(
    m: (Seq<A>, W::V),
    k: spec_fn(A) -> (Seq<B>, W::V),
) -> (Seq<B>, W::V) {
    (
        m.0.flat_map(|a: A| k(a).0),
        if m.0.len() == 0 {
            m.1
        } else {
            W::sapp(m.1, k(m.0[0]).1)
        },
    )
}

/// Law: binding a pure computation applies the continuation directly.
pub proof fn lemma_writer_trans_left_identity<A, B, W: Monoid>(x: A, k: spec_fn(A) -> (Seq<B>, W::V))
    ensures
        wt_bind::<A, B, W>(wt_pure::<A, W>(x), k) == k(x),
{
    seq![x].lemma_flat_map_singleton(|a: A| k(a).0);
    W::lemma_munit_left(k(x).1);
}

/// Law: binding into `pure` returns the computation unchanged.
pub proof fn lemma_writer_trans_right_identity<A, W: Monoid>(m: (Seq<A>, W::V))
    ensures
        wt_bind::<A, A, W>(m, |a: A| wt_pure::<A, W>(a)) == m,
{
    let kk = |a: A| wt_pure::<A, W>(a);
    let inner = |a: A| kk(a).0;
    assert(inner =~= (|x: A| crate::monad::seq_pure(x)));
    crate::monad::lemma_seq_right_identity(m.0);
    assert(m.0.flat_map(inner) == m.0);
    if m.0.len() > 0 {
        W::lemma_munit_right(m.1);
    }
    assert(wt_bind::<A, A, W>(m, kk) == m);
}

/// Law: `bind` is associative, provided the continuations never yield an
/// empty inner computation. (With an empty outcome in the middle, the two
/// sides may pick the log of different first outcomes.)
pub proof fn lemma_writer_trans_assoc<A, B, C, W: Monoid>(
    m: (Seq<A>, W::V),
    k: spec_fn(A) -> (Seq<B>, W::V),
    h: spec_fn(B) -> (Seq<C>, W::V),
)
    requires
        forall|a: A| (#[trigger] k(a)).0.len() > 0,
    ensures
        wt_bind::<B, C, W>(wt_bind::<A, B, W>(m, k), h) == wt_bind::<A, C, W>(
            m,
            |a: A| wt_bind::<B, C, W>(k(a), h),
        ),
{
    let k0 = |a: A| k(a).0;
    let h0 = |b: B| h(b).0;
    let kh = |a: A| wt_bind::<B, C, W>(k(a), h);
    let kh0 = |a: A| kh(a).0;
    crate::monad::lemma_seq_assoc(m.0, k0, h0);
    assert(kh0 =~= |a: A| crate::monad::seq_bind(k0(a), h0));
    assert(wt_bind::<B, C, W>(wt_bind::<A, B, W>(m, k), h).0 =~= wt_bind::<A, C, W>(m, kh).0);
    if m.0.len() == 0 {
        assert(m.0.flat_map(k0) =~= Seq::<B>::empty());
    } else {
        let a0 = m.0[0];
        crate::monad::lemma_flat_map_first(m.0, k0);
        assert(m.0.flat_map(k0)[0] == k0(a0)[0]);
        assert(m.0.flat_map(k0).len() > 0);
        W::lemma_sapp_assoc(m.1, k(a0).1, h(k(a0).0[0]).1);
    }
}

/// Bridge from the contract of `WriterT::bind` to the model: when every
/// outcome of the continuation is `k` of its argument, the parts `bind`
/// combines give exactly `wt_bind` of the models.
pub proof fn lemma_writer_trans_bind_deterministic<A, B, W: Monoid, G>(
    m: WriterT<A, W>,
    f: G,
    k: spec_fn(A) -> (Seq<B>, W::V),
    r: WriterT<B, W>,
    parts: Seq<WriterT<B, W>>,
) where G: Fn(A) -> WriterT<B, W>
    requires
        forall|x: A, out: WriterT<B, W>|
            call_ensures(f, (x,), out) ==> (out.run_writer_t.0@, out.run_writer_t.1@) == k(x),
        parts.len() == m.run_writer_t.0@.len(),
        forall|i: int|
            0 <= i < parts.len() ==> call_ensures(f, (m.run_writer_t.0@[i],), #[trigger] parts[i]),
        r.run_writer_t.0@ == parts.map_values(|t: WriterT<B, W>| t.run_writer_t.0@).flatten(),
        r.run_writer_t.1@ == if parts.len() == 0 {
            m.run_writer_t.1@
        } else {
            W::sapp(m.run_writer_t.1@, parts[0].run_writer_t.1@)
        },
    ensures
        (r.run_writer_t.0@, r.run_writer_t.1@) == wt_bind::<A, B, W>(
            (m.run_writer_t.0@, m.run_writer_t.1@),
            k,
        ),
{
    assert(parts.map_values(|t: WriterT<B, W>| t.run_writer_t.0@) =~= m.run_writer_t.0@.map_values(
        |a: A| k(a).0,
    ));
}

} // verus!

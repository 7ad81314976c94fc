//! The Writer effect: a computation paired with an accumulated log drawn from
//! a monoid.
//!
//! A computation owns its `(result, log)` pair outright; `bind` runs the
//! continuation and appends its log to the accumulated one. `listen` exposes
//! the log alongside the result, `listens` a projection of it, and `censor`
//! (through `pass`) rewrites the log after the fact without touching the
//! result. The mathematical model of the effect is the pair of the result and
//! the log's view; the monad laws are proved over that model at the bottom of
//! this module.

use vstd::prelude::*;
use crate::monad::Bind;
use crate::monoid::{Monoid, Semigroup};

verus! {

/// A log-accumulating computation: a result paired with a monoid log.
pub struct Writer<A, W = String> {
    pub run_writer: (A, W),
}

/// A one-shot cursor over the single result of a `Writer` computation.
pub struct WriterIterator<A> {
    pub traversed: bool,
    pub value: A,
}

impl<A: Copy> WriterIterator<A> {
    /// The value on the first call, nothing afterwards.
    pub fn next(&mut self) -> (r: Option<A>)
        ensures
            old(self).traversed ==> r is None && *final(self) == *old(self),
            !old(self).traversed ==> r == Some(old(self).value) && final(self).traversed
                && final(self).value == old(self).value,
    {
        if self.traversed {
            None
        } else {
            self.traversed = true;
            Some(self.value)
        }
    }
}

impl<A, W> Writer<A, W> {
    /// Consume the computation into a one-shot cursor over its result,
    /// discarding the log.
    pub fn into_iter(self) -> (it: WriterIterator<A>)
        ensures
            !it.traversed,
            it.value == self.run_writer.0,
    {
        let (a, _w) = self.run_writer;
        WriterIterator { traversed: false, value: a }
    }
}

impl<A, W> Bind for Writer<A, W> {
    type Item = A;

    open spec fn items(&self) -> Seq<A> {
        seq![self.run_writer.0]
    }

    fn to_items(self) -> (v: Vec<A>) {
        let (a, _w) = self.run_writer;
        let mut v: Vec<A> = Vec::new();
        v.push(a);
        v
    }
}

impl<A, G, W: Monoid> Writer<(A, G), W> where G: FnOnce(W) -> W {
    /// Run a computation whose result carries a pending log transform, and
    /// apply that transform to the accumulated log. The result value is kept;
    /// only the log changes.
    pub fn pass(self) -> (r: Writer<A, W>)
        requires
            call_requires(self.run_writer.0.1, (self.run_writer.1,)),
        ensures
            r.run_writer.0 == self.run_writer.0.0,
            call_ensures(self.run_writer.0.1, (self.run_writer.1,), r.run_writer.1),
    {
        let ((a, f), w) = self.run_writer;
        Writer { run_writer: (a, f(w)) }
    }
}

impl<A, W: Monoid> Writer<A, W> {
    /// Sequence `self` into the continuation `f`: the result of `self` is
    /// handed to `f`, and the log of `f`'s outcome is appended to the log of
    /// `self`.
    pub fn bind<B, G>(self, f: G) -> (r: Writer<B, W>) where
        G: FnOnce(A) -> Writer<B, W>,

        requires
            call_requires(f, (self.run_writer.0,)),
        ensures
            exists|m2: Writer<B, W>|
                call_ensures(f, (self.run_writer.0,), m2) && r.run_writer.0 == m2.run_writer.0
                    && r.run_writer.1@ == W::sapp(self.run_writer.1@, m2.run_writer.1@),
    {
        let (a, w) = self.run_writer;
        let m2 = f(a);
        let (a1, mut w1) = m2.run_writer;
        Writer { run_writer: (a1, w.mappend(&mut w1)) }
    }

    /// The computation that yields `x` with the empty log.
    pub fn pure(x: A) -> (r: Self)
        ensures
            r.run_writer.0 == x,
            r.run_writer.1@ == W::munit(),
    {
        Writer { run_writer: (x, W::mempty()) }
    }

    /// Replace the result with `x`, keeping the accumulated log.
    pub fn lift<B>(self, x: B) -> (r: Writer<B, W>)
        ensures
            r.run_writer.0 == x,
            r.run_writer.1 == self.run_writer.1,
    {
        Writer { run_writer: (x, self.run_writer.1) }
    }

    /// The `(result, log)` pair.
    pub fn unwrap_pair(self) -> (r: (A, W))
        ensures
            r == self.run_writer,
    {
        self.run_writer
    }

    /// The result alone, discarding the log.
    pub fn unwrap(self) -> (r: A)
        ensures
            r == self.run_writer.0,
    {
        let (a, _w) = self.run_writer;
        a
    }

    /// Expose the accumulated log alongside the result, while still
    /// propagating it outward unchanged.
    pub fn listen(self) -> (r: Writer<(A, W), W>)
        ensures
            r.run_writer.0.0 == self.run_writer.0,
            r.run_writer.0.1@ == self.run_writer.1@,
            r.run_writer.1 == self.run_writer.1,
    {
        let (a, w) = self.run_writer;
        let w1 = w.dup();
        Writer { run_writer: ((a, w1), w) }
    }

    /// Expose a projection of the accumulated log alongside the result.
    pub fn listens<T, G>(self, f: G) -> (r: Writer<(A, T), W>) where
        G: FnOnce(W) -> T,

        requires
            call_requires(f, (self.run_writer.1,)),
        ensures
            r.run_writer.0.0 == self.run_writer.0,
            r.run_writer.1@ == self.run_writer.1@,
            call_ensures(f, (self.run_writer.1,), r.run_writer.0.1),
    {
        let (a, w) = self.run_writer;
        let w1 = w.dup();
        let t = f(w);
        Writer { run_writer: ((a, t), w1) }
    }

    /// Rewrite the accumulated log with `f`. The result value is untouched;
    /// only the log the continuation steps will see appended changes.
    pub fn censor<G>(self, f: G) -> (r: Writer<A, W>) where
        G: FnOnce(W) -> W,

        requires
            call_requires(f, (self.run_writer.1,)),
        ensures
            r.run_writer.0 == self.run_writer.0,
            call_ensures(f, (self.run_writer.1,), r.run_writer.1),
    {
        let (a, w) = self.run_writer;
        Writer { run_writer: ((a, f), w) }.pass()
    }
}

/// The computation with unit result and `w` as its whole log.
pub fn tell<W>(w: W) -> (r: Writer<(), W>)
    ensures
        r.run_writer == ((), w),
{
    Writer { run_writer: ((), w) }
}

/// `tell` for a string log.
pub fn tell_str(s: &str) -> (r: Writer<(), String>)
    ensures
        r.run_writer.0 == (),
        r.run_writer.1@ == s@,
{
    Writer { run_writer: ((), s.to_owned()) }
}

/// `tell` for an array log.
pub fn tell_array<T: Copy>(v: &[T]) -> (r: Writer<(), Vec<T>>)
    ensures
        r.run_writer.0 == (),
        r.run_writer.1@ == v@,
{
    Writer { run_writer: ((), vstd::slice::slice_to_vec(v)) }
}

// ----- the mathematical model of the effect, and its laws -----

/// The model of a writer computation: the result paired with the log's view.
pub open spec fn pure_sem<A, W: Monoid>(x: A) -> (A, W::V) {
    (x, W::munit())
}

/// The model of `bind`: the continuation's result, the logs appended.
pub open spec fn bind_sem<A, B, W: Monoid>(m: (A, W::V), k: spec_fn(A) -> (B, W::V)) -> (B, W::V) {
    (k(m.0).0, W::sapp(m.1, k(m.0).1))
}

/// The model of `tell(w)`: unit result, `w` as the log.
pub open spec fn tell_sem<W: Monoid>(w: W::V) -> ((), W::V) {
    ((), w)
}

/// The model of `censor`: the log rewritten, the result untouched.
pub open spec fn censor_sem<A, W: Monoid>(g: spec_fn(W::V) -> W::V, m: (A, W::V)) -> (A, W::V) {
    (m.0, g(m.1))
}

/// Law: binding a pure computation applies the continuation directly.
pub proof fn lemma_writer_left_identity<A, B, W: Monoid>(x: A, k: spec_fn(A) -> (B, W::V))
    ensures
        bind_sem::<A, B, W>(pure_sem::<A, W>(x), k) == k(x),
{
    W::lemma_munit_left(k(x).1);
}

/// Law: binding into `pure` returns the computation unchanged.
pub proof fn lemma_writer_right_identity<A, W: Monoid>(m: (A, W::V))
    ensures
        bind_sem::<A, A, W>(m, |a: A| pure_sem::<A, W>(a)) == m,
{
    W::lemma_munit_right(m.1);
}

/// Law: `bind` is associative.
pub proof fn lemma_writer_assoc<A, B, C, W: Monoid>(
    m: (A, W::V),
    k: spec_fn(A) -> (B, W::V),
    h: spec_fn(B) -> (C, W::V),
)
    ensures
        bind_sem::<B, C, W>(bind_sem::<A, B, W>(m, k), h) == bind_sem::<A, C, W>(
            m,
            |a: A| bind_sem::<B, C, W>(k(a), h),
        ),
{
    W::lemma_sapp_assoc(m.1, k(m.0).1, h(k(m.0).0).1);
}

/// Law: telling `w1` and then `w2` accumulates their append, with the unit
/// result.
pub proof fn lemma_tell_tell<W: Monoid>(w1: W::V, w2: W::V)
    ensures
        bind_sem::<(), (), W>(tell_sem::<W>(w1), |u: ()| tell_sem::<W>(w2)) == (
            (),
            W::sapp(w1, w2),
        ),
{
}

/// Law: `censor` changes only the log component, never the result.
pub proof fn lemma_censor_keeps_result<A, W: Monoid>(g: spec_fn(W::V) -> W::V, m: (A, W::V))
    ensures
        censor_sem::<A, W>(g, m).0 == m.0,
        censor_sem::<A, W>(g, m).1 == g(m.1),
{
}

/// Bridge from the contract of `Writer::bind` to the model: when every
/// outcome of the continuation is `k` of its argument, the pair `bind`
/// produces is `bind_sem` of the models.
pub proof fn lemma_writer_bind_deterministic<A, B, W: Monoid, G>(
    m: Writer<A, W>,
    f: G,
    k: spec_fn(A) -> (B, W::V),
    r: Writer<B, W>,
    m2: Writer<B, W>,
) where G: FnOnce(A) -> Writer<B, W>
    requires
        forall|x: A, out: Writer<B, W>|
            call_ensures(f, (x,), out) ==> (out.run_writer.0, out.run_writer.1@) == k(x),
        call_ensures(f, (m.run_writer.0,), m2),
        r.run_writer.0 == m2.run_writer.0,
        r.run_writer.1@ == W::sapp(m.run_writer.1@, m2.run_writer.1@),
    ensures
        (r.run_writer.0, r.run_writer.1@) == bind_sem::<A, B, W>(
            (m.run_writer.0, m.run_writer.1@),
            k,
        ),
{
}

} // verus!

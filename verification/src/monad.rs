//! The capability contract shared by the base effects: `Bind` and `Monad`,
//! together with the zero and choice operations of `MZero` and `MPlus`.
//!
//! A base effect owns zero or more result values directly; its view is the
//! sequence of those values, given by `items`. `bind` sequences a computation
//! into a continuation by applying the continuation to each produced value in
//! order and concatenating what comes back. The monad laws for the
//! multi-result and optional effects, and the zero/plus laws, are proved over
//! the sequence and option models at the bottom of this module.

use vstd::prelude::*;
use std::collections::VecDeque;

verus! {

/// A computation that owns its results directly: `items` is the ordered
/// sequence of the values it produces.
pub trait Bind: Sized {
    type Item;

    /// The ordered results of the computation.
    spec fn items(&self) -> Seq<Self::Item>;

    /// The results, handed out as a vector, in order.
    fn to_items(self) -> (v: Vec<Self::Item>)
        ensures
            v@ == self.items(),
    ;

    /// Apply `f` to each produced value in order and concatenate the results.
    fn bind<B, F: Fn(Self::Item) -> Vec<B>>(self, f: F) -> (r: Vec<B>)
        requires
            forall|i: int|
                0 <= i < self.items().len() ==> call_requires(f, (#[trigger] self.items()[i],)),
        ensures
            exists|parts: Seq<Vec<B>>|
                {
                    &&& parts.len() == self.items().len()
                    &&& forall|i: int|
                        0 <= i < parts.len() ==> call_ensures(
                            f,
                            (self.items()[i],),
                            #[trigger] parts[i],
                        )
                    &&& r@ == parts.map_values(|v: Vec<B>| v@).flatten()
                },
    {
        let ghost gitems = self.items();
        let mut rest = self.to_items();
        let mut r: Vec<B> = Vec::new();
        let ghost mut parts: Seq<Vec<B>> = Seq::empty();
        let mut i: usize = 0;
        let n = rest.len();
        proof {
            assert(rest@ == gitems.skip(0));
            assert(gitems.len() == n as int);
            assert(parts.map_values(|v: Vec<B>| v@).flatten() =~= Seq::<B>::empty());
        }
        while rest.len() > 0
            invariant
                parts.len() == i as int,
                gitems.len() <= usize::MAX,
                i as int + rest@.len() == gitems.len(),
                rest@ == gitems.skip(i as int),
                forall|j: int| 0 <= j < gitems.len() ==> call_requires(f, (#[trigger] gitems[j],)),
                forall|j: int| 0 <= j < i ==> call_ensures(f, (gitems[j],), #[trigger] parts[j]),
                r@ == parts.map_values(|v: Vec<B>| v@).flatten(),
            decreases rest@.len(),
        {
            proof {
                assert(gitems.skip(i as int)[0] == gitems[i as int]);
            }
            let x = rest.remove(0);
            let mut vb = f(x);
            let ghost gvb = vb;
            r.append(&mut vb);
            proof {
                let prev = parts;
                parts = parts.push(gvb);
                assert(parts.map_values(|v: Vec<B>| v@) =~= prev.map_values(|v: Vec<B>| v@).push(
                    gvb@,
                ));
                prev.map_values(|v: Vec<B>| v@).lemma_flatten_push(gvb@);
                assert(rest@ =~= gitems.skip(i as int + 1));
            }
            i += 1;
        }
        proof {
            assert(parts.len() == gitems.len());
            assert(exists|p: Seq<Vec<B>>|
                {
                    &&& p.len() == gitems.len()
                    &&& forall|j: int|
                        0 <= j < p.len() ==> call_ensures(f, (gitems[j],), #[trigger] p[j])
                    &&& r@ == p.map_values(|v: Vec<B>| v@).flatten()
                }) by {
                assert(parts.len() == gitems.len() && (forall|j: int|
                    0 <= j < parts.len() ==> call_ensures(f, (gitems[j],), #[trigger] parts[j]))
                    && r@ == parts.map_values(|v: Vec<B>| v@).flatten());
            }
        }
        r
    }
}

/// A `Bind` computation with `pure`: the minimal computation yielding exactly
/// one given value.
pub trait Monad: Bind {
    fn pure(x: Self::Item) -> (r: Self)
        ensures
            r.items() == seq![x],
    ;
}

/// A `Monad` with a zero: the computation that yields no value at all.
pub trait MZero: Monad {
    fn mzero() -> (r: Self)
        ensures
            r.items() == Seq::<Self::Item>::empty(),
    ;
}

/// An `MZero` with a choice operation that accumulates the results of both
/// operands, in order.
pub trait MPlus: MZero {
    fn mplus(&mut self, other: &mut Self)
        ensures
            final(self).items() == old(self).items() + old(other).items(),
    ;
}

impl<T> Bind for Option<T> {
    type Item = T;

    open spec fn items(&self) -> Seq<T> {
        match *self {
            Option::Some(x) => seq![x],
            Option::None => Seq::empty(),
        }
    }

    fn to_items(self) -> (v: Vec<T>) {
        let mut v: Vec<T> = Vec::new();
        match self {
            Option::Some(x) => {
                v.push(x);
            },
            Option::None => {},
        }
        v
    }
}

impl<T> Monad for Option<T> {
    fn pure(x: T) -> (r: Self) {
        Some(x)
    }
}

impl<T> MZero for Option<T> {
    fn mzero() -> (r: Self) {
        None
    }
}

impl<T, E> Bind for Result<T, E> {
    type Item = T;

    open spec fn items(&self) -> Seq<T> {
        match *self {
            Result::Ok(x) => seq![x],
            Result::Err(_) => Seq::empty(),
        }
    }

    fn to_items(self) -> (v: Vec<T>) {
        let mut v: Vec<T> = Vec::new();
        match self {
            Result::Ok(x) => {
                v.push(x);
            },
            Result::Err(_) => {},
        }
        v
    }
}

impl<T, E> Monad for Result<T, E> {
    fn pure(x: T) -> (r: Self) {
        Ok(x)
    }
}

impl<T> Bind for Vec<T> {
    type Item = T;

    open spec fn items(&self) -> Seq<T> {
        self@
    }

    fn to_items(self) -> (v: Vec<T>) {
        self
    }
}

impl<T> Monad for Vec<T> {
    fn pure(x: T) -> (r: Self) {
        let mut v: Vec<T> = Vec::new();
        v.push(x);
        v
    }
}

impl<T> MZero for Vec<T> {
    fn mzero() -> (r: Self) {
        Vec::new()
    }
}

impl<T> MPlus for Vec<T> {
    fn mplus(&mut self, other: &mut Self) {
        self.append(other);
    }
}

impl<T> Bind for VecDeque<T> {
    type Item = T;

    open spec fn items(&self) -> Seq<T> {
        self@
    }

    fn to_items(self) -> (v: Vec<T>) {
        let ghost gitems = self@;
        let mut q = self;
        let mut v: Vec<T> = Vec::new();
        while q.len() > 0
            invariant
                v@ + q@ == gitems,
            decreases q@.len(),
        {
            let x = q.pop_front().unwrap();
            v.push(x);
            proof {
                assert(v@ + q@ =~= gitems);
            }
        }
        proof {
            assert(v@ =~= v@ + q@);
        }
        v
    }
}

impl<T> Monad for VecDeque<T> {
    fn pure(x: T) -> (r: Self) {
        let mut q: VecDeque<T> = VecDeque::new();
        q.push_front(x);
        proof {
            assert(q@ =~= seq![x]);
        }
        q
    }
}

impl<T> MZero for VecDeque<T> {
    fn mzero() -> (r: Self) {
        VecDeque::new()
    }
}

impl<T> MPlus for VecDeque<T> {
    fn mplus(&mut self, other: &mut Self) {
        self.append(other);
    }
}

/// The left-catch choice for the optional effect: the first computation wins
/// whenever it yields a value.
pub fn option_plus<T>(a: Option<T>, b: Option<T>) -> (r: Option<T>)
    ensures
        r == opt_plus(a, b),
{
    match a {
        Option::Some(x) => Some(x),
        Option::None => b,
    }
}

// ----- the sequence model of the multi-result effects, and its laws -----

/// The model of `pure` for a multi-result effect: the singleton sequence.
pub open spec fn seq_pure<A>(x: A) -> Seq<A> {
    seq![x]
}

/// The model of `bind` for a multi-result effect: flat-map.
pub open spec fn seq_bind<A, B>(s: Seq<A>, k: spec_fn(A) -> Seq<B>) -> Seq<B> {
    s.flat_map(k)
}

/// Law: binding a pure computation applies the continuation directly.
pub proof fn lemma_seq_left_identity<A, B>(x: A, k: spec_fn(A) -> Seq<B>)
    ensures
        seq_bind(seq_pure(x), k) == k(x),
{
    seq_pure(x).lemma_flat_map_singleton(k);
}

/// Law: binding into `pure` returns the computation unchanged.
pub proof fn lemma_seq_right_identity<A>(s: Seq<A>)
    ensures
        seq_bind(s, |x: A| seq_pure(x)) == s,
    decreases s.len(),
{
    let k = |x: A| seq_pure(x);
    if s.len() == 0 {
        assert(s.flat_map(k) =~= s);
    } else {
        let s0 = s.drop_last();
        lemma_seq_right_identity(s0);
        s0.lemma_flat_map_push(k, s.last());
        assert(s0.push(s.last()) =~= s);
        assert(s0.flat_map(k) + k(s.last()) =~= s);
    }
}

/// Law: `bind` distributes on the left over appending of multi-result
/// computations.
pub proof fn lemma_seq_bind_distributes<A, B>(a: Seq<A>, b: Seq<A>, k: spec_fn(A) -> Seq<B>)
    ensures
        seq_bind(a + b, k) == seq_bind(a, k) + seq_bind(b, k),
    decreases b.len(),
{
    if b.len() == 0 {
        assert(a + b =~= a);
        assert(seq_bind(b, k) =~= Seq::<B>::empty());
        assert(seq_bind(a, k) + seq_bind(b, k) =~= seq_bind(a, k));
    } else {
        let b0 = b.drop_last();
        lemma_seq_bind_distributes(a, b0, k);
        b0.lemma_flat_map_push(k, b.last());
        (a + b0).lemma_flat_map_push(k, b.last());
        assert((a + b0).push(b.last()) =~= a + b);
        assert(b0.push(b.last()) =~= b);
        assert(seq_bind(a + b, k) =~= seq_bind(a, k) + seq_bind(b, k));
    }
}

/// Law: `bind` is associative.
pub proof fn lemma_seq_assoc<A, B, C>(s: Seq<A>, k: spec_fn(A) -> Seq<B>, h: spec_fn(B) -> Seq<C>)
    ensures
        seq_bind(seq_bind(s, k), h) == seq_bind(s, |x: A| seq_bind(k(x), h)),
    decreases s.len(),
{
    let kh = |x: A| seq_bind(k(x), h);
    if s.len() == 0 {
        assert(seq_bind(s, k) =~= Seq::<B>::empty());
        assert(seq_bind(seq_bind(s, k), h) =~= Seq::<C>::empty());
        assert(seq_bind(s, kh) =~= Seq::<C>::empty());
    } else {
        let s0 = s.drop_last();
        let x = s.last();
        lemma_seq_assoc(s0, k, h);
        s0.lemma_flat_map_push(k, x);
        assert(s0.push(x) =~= s);
        lemma_seq_bind_distributes(seq_bind(s0, k), k(x), h);
        s0.lemma_flat_map_push(kh, x);
        assert(seq_bind(seq_bind(s, k), h) =~= seq_bind(s, kh));
    }
}

/// Law: the empty computation is a left unit for the choice operation.
pub proof fn lemma_seq_plus_zero_left<A>(a: Seq<A>)
    ensures
        Seq::<A>::empty() + a == a,
{
    assert(Seq::<A>::empty() + a =~= a);
}

/// Law: the empty computation is a right unit for the choice operation.
pub proof fn lemma_seq_plus_zero_right<A>(a: Seq<A>)
    ensures
        a + Seq::<A>::empty() == a,
{
    assert(a + Seq::<A>::empty() =~= a);
}

/// Law: the choice operation is associative.
pub proof fn lemma_seq_plus_assoc<A>(a: Seq<A>, b: Seq<A>, c: Seq<A>)
    ensures
        (a + b) + c == a + (b + c),
{
    assert((a + b) + c =~= a + (b + c));
}

/// Bridge from the contract of `Bind::bind` to the sequence model: when every
/// outcome of the continuation has `k` of its argument as its view, the parts
/// that `bind` concatenates flatten to exactly `seq_bind` of the model.
pub proof fn lemma_bind_deterministic<M: Bind, B, F: Fn(M::Item) -> Vec<B>>(
    m: M,
    f: F,
    k: spec_fn(M::Item) -> Seq<B>,
    r: Vec<B>,
    parts: Seq<Vec<B>>,
)
    requires
        forall|x: M::Item, out: Vec<B>| call_ensures(f, (x,), out) ==> out@ == k(x),
        parts.len() == m.items().len(),
        forall|i: int|
            0 <= i < parts.len() ==> call_ensures(f, (m.items()[i],), #[trigger] parts[i]),
        r@ == parts.map_values(|v: Vec<B>| v@).flatten(),
    ensures
        r@ == seq_bind(m.items(), k),
{
    assert(parts.map_values(|v: Vec<B>| v@) =~= m.items().map_values(k));
}

/// For a non-empty sequence, the flat-map starts with the image of the first
/// element.
pub proof fn lemma_flat_map_first<A, B>(s: Seq<A>, f: spec_fn(A) -> Seq<B>)
    requires
        s.len() > 0,
    ensures
        s.flat_map(f) == f(s[0]) + s.skip(1).flat_map(f),
    decreases s.len(),
{
    let mapped = s.map_values(f);
    assert(mapped.len() > 0);
    assert(mapped.first() == f(s[0]));
    assert(mapped.drop_first() =~= s.skip(1).map_values(f));
    assert(s.flat_map(f) == f(s[0]) + s.skip(1).flat_map(f));
}

// ----- the option model of the optional effect, and its laws -----

/// The model of `pure` for the optional effect.
pub open spec fn opt_pure<A>(x: A) -> Option<A> {
    Some(x)
}

/// The model of `bind` for the optional effect.
pub open spec fn opt_bind<A, B>(m: Option<A>, k: spec_fn(A) -> Option<B>) -> Option<B> {
    match m {
        Option::Some(x) => k(x),
        Option::None => None,
    }
}

/// The model of the left-catch choice for the optional effect.
pub open spec fn opt_plus<A>(a: Option<A>, b: Option<A>) -> Option<A> {
    match a {
        Option::Some(_) => a,
        Option::None => b,
    }
}

/// Law: binding a pure optional computation applies the continuation
/// directly.
pub proof fn lemma_opt_left_identity<A, B>(x: A, k: spec_fn(A) -> Option<B>)
    ensures
        opt_bind(opt_pure(x), k) == k(x),
{
}

/// Law: binding into `pure` returns the optional computation unchanged.
pub proof fn lemma_opt_right_identity<A>(m: Option<A>)
    ensures
        opt_bind(m, |x: A| opt_pure(x)) == m,
{
}

/// Law: `bind` for the optional effect is associative.
pub proof fn lemma_opt_assoc<A, B, C>(
    m: Option<A>,
    k: spec_fn(A) -> Option<B>,
    h: spec_fn(B) -> Option<C>,
)
    ensures
        opt_bind(opt_bind(m, k), h) == opt_bind(m, |x: A| opt_bind(k(x), h)),
{
}

/// Law: `None` is a left unit for the left-catch choice.
pub proof fn lemma_opt_plus_zero_left<A>(a: Option<A>)
    ensures
        opt_plus(None, a) == a,
{
}

/// Law: `None` is a right unit for the left-catch choice.
pub proof fn lemma_opt_plus_zero_right<A>(a: Option<A>)
    ensures
        opt_plus(a, None) == a,
{
}

/// Law: the left-catch choice is associative.
pub proof fn lemma_opt_plus_assoc<A>(a: Option<A>, b: Option<A>, c: Option<A>)
    ensures
        opt_plus(opt_plus(a, b), c) == opt_plus(a, opt_plus(b, c)),
{
}

/// Law: for the left-catch optional effect, a pure computation on the left
/// wins outright.
pub proof fn lemma_opt_left_catch<A>(x: A, b: Option<A>)
    ensures
        opt_plus(opt_pure(x), b) == opt_pure(x),
{
}

} // verus!

//! Semigroup and Monoid to use with Writer.
//!
//! The append operation is described through the view of the carrier type, so
//! that the Writer contracts can say exactly which log a computation produces.
//! Every implementation owes the algebraic laws as proof obligations:
//! associativity of `sapp`, and `munit` as a left and right unit.

use vstd::prelude::*;
use vstd::string::StringExecFns;

verus! {

/// A type with an associative append, described at the level of its view.
pub trait Semigroup: View + Sized {
    /// What `mappend` does to the views of its operands.
    spec fn sapp(a: Self::V, b: Self::V) -> Self::V;

    /// Law: `sapp` is associative.
    proof fn lemma_sapp_assoc(a: Self::V, b: Self::V, c: Self::V)
        ensures
            Self::sapp(Self::sapp(a, b), c) == Self::sapp(a, Self::sapp(b, c)),
    ;

    /// Append `other` to `self`, yielding a value whose view is the `sapp` of
    /// the two input views. `other` may be drained in the process.
    fn mappend(self, other: &mut Self) -> (r: Self)
        ensures
            r@ == Self::sapp(self@, old(other)@),
    ;

    /// An equal copy, so that a log can be both kept and exposed.
    fn dup(&self) -> (r: Self)
        ensures
            r@ == self@,
    ;
}

/// A semigroup with a neutral element.
pub trait Monoid: Semigroup {
    /// The view of the neutral element.
    spec fn munit() -> Self::V;

    /// Law: `munit` is a left unit for `sapp`.
    proof fn lemma_munit_left(a: Self::V)
        ensures
            Self::sapp(Self::munit(), a) == a,
    ;

    /// Law: `munit` is a right unit for `sapp`.
    proof fn lemma_munit_right(a: Self::V)
        ensures
            Self::sapp(a, Self::munit()) == a,
    ;

    /// The neutral element.
    fn mempty() -> (r: Self)
        ensures
            r@ == Self::munit(),
    ;
}

impl Semigroup for String {
    open spec fn sapp(a: Seq<char>, b: Seq<char>) -> Seq<char> {
        a + b
    }

    proof fn lemma_sapp_assoc(a: Seq<char>, b: Seq<char>, c: Seq<char>) {
        assert((a + b) + c =~= a + (b + c));
    }

    fn mappend(self, other: &mut Self) -> (r: Self) {
        let mut s = self;
        s.append(other.as_str());
        s
    }

    fn dup(&self) -> (r: Self) {
        self.clone()
    }
}

impl Monoid for String {
    open spec fn munit() -> Seq<char> {
        Seq::empty()
    }

    proof fn lemma_munit_left(a: Seq<char>) {
        assert(Seq::<char>::empty() + a =~= a);
    }

    proof fn lemma_munit_right(a: Seq<char>) {
        assert(a + Seq::<char>::empty() =~= a);
    }

    fn mempty() -> (r: Self) {
        String::new()
    }
}

impl<T: Copy> Semigroup for Vec<T> {
    open spec fn sapp(a: Seq<T>, b: Seq<T>) -> Seq<T> {
        a + b
    }

    proof fn lemma_sapp_assoc(a: Seq<T>, b: Seq<T>, c: Seq<T>) {
        assert((a + b) + c =~= a + (b + c));
    }

    fn mappend(self, other: &mut Self) -> (r: Self) {
        let mut v = self;
        v.append(other);
        v
    }

    fn dup(&self) -> (r: Self) {
        let mut r: Vec<T> = Vec::new();
        let mut i: usize = 0;
        while i < self.len()
            invariant
                i <= self.len(),
                r@ == self@.take(i as int),
            decreases self.len() - i,
        {
            let x = self[i];
            r.push(x);
            proof {
                assert(self@.take(i + 1 as int) =~= self@.take(i as int).push(self@[i as int]));
            }
            i += 1;
        }
        proof {
            assert(self@.take(self.len() as int) =~= self@);
        }
        r
    }
}

impl<T: Copy> Monoid for Vec<T> {
    open spec fn munit() -> Seq<T> {
        Seq::empty()
    }

    proof fn lemma_munit_left(a: Seq<T>) {
        assert(Seq::<T>::empty() + a =~= a);
    }

    proof fn lemma_munit_right(a: Seq<T>) {
        assert(a + Seq::<T>::empty() =~= a);
    }

    fn mempty() -> (r: Self) {
        Vec::new()
    }
}

} // verus!

use monadic::monad::{option_plus, Bind, Monad, MPlus, MZero};
use std::collections::VecDeque;

#[test]
fn vec_bind_flat_maps() {
    let v: Vec<i64> = vec![1, 2, 3];
    let r = v.bind(|x: i64| vec![x, x * 10]);
    assert_eq!(r, vec![1, 10, 2, 20, 3, 30]);
}

#[test]
fn vec_monad_left_identity_scenario() {
    let f = |x: i64| vec![x, x + 1];
    let lhs = Vec::pure(5).bind(f);
    let rhs = f(5);
    assert_eq!(lhs, rhs);
}

#[test]
fn vec_monad_right_identity_scenario() {
    let m: Vec<i64> = vec![4, 7];
    let r = m.clone().bind(|x: i64| Vec::pure(x));
    assert_eq!(r, m);
}

#[test]
fn vec_monad_associativity_scenario() {
    let m: Vec<i64> = vec![1, 2];
    let f = |x: i64| vec![x, x + 10];
    let g = |x: i64| vec![x * 2];
    let lhs = m.clone().bind(f).bind(g);
    let rhs = m.bind(|x: i64| f(x).bind(g));
    assert_eq!(lhs, rhs);
}

#[test]
fn option_bind_and_identities() {
    let some = Option::pure(3);
    assert_eq!(some.bind(|x: i64| vec![x + 1]), vec![4]);
    let none: Option<i64> = Option::mzero();
    assert_eq!(none.bind(|x: i64| vec![x + 1]), Vec::<i64>::new());
}

#[test]
fn result_pure_is_ok() {
    let r: Result<i64, String> = Result::pure(9);
    assert_eq!(r, Ok(9));
    let e: Result<i64, String> = Err(String::from("bad"));
    assert_eq!(e.to_items(), Vec::<i64>::new());
}

#[test]
fn vec_mplus_appends() {
    let mut a: Vec<i64> = vec![1, 2];
    let mut b: Vec<i64> = vec![3];
    a.mplus(&mut b);
    assert_eq!(a, vec![1, 2, 3]);
}

#[test]
fn vec_mplus_zero_laws_scenario() {
    let mut z: Vec<i64> = Vec::mzero();
    let mut a: Vec<i64> = vec![5, 6];
    z.mplus(&mut a);
    assert_eq!(z, vec![5, 6]);
    let mut a2: Vec<i64> = vec![5, 6];
    let mut z2: Vec<i64> = Vec::mzero();
    a2.mplus(&mut z2);
    assert_eq!(a2, vec![5, 6]);
}

#[test]
fn vec_bind_distributes_over_mplus_scenario() {
    // bind(plus(a, b), k) == plus(bind(a, k), bind(b, k))
    let k = |x: i64| vec![x, -x];
    let mut ab: Vec<i64> = vec![1, 2];
    let mut b: Vec<i64> = vec![3];
    ab.mplus(&mut b);
    let lhs = ab.bind(k);
    let mut left: Vec<i64> = vec![1i64, 2].bind(k);
    let mut right: Vec<i64> = vec![3i64].bind(k);
    left.mplus(&mut right);
    assert_eq!(lhs, left);
}

#[test]
fn vecdeque_monad_scenarios() {
    let q: VecDeque<i64> = VecDeque::pure(4);
    assert_eq!(q.to_items(), vec![4]);
    let z: VecDeque<i64> = VecDeque::mzero();
    assert_eq!(z.to_items(), Vec::<i64>::new());
    let mut a: VecDeque<i64> = VecDeque::pure(1);
    let mut b: VecDeque<i64> = VecDeque::pure(2);
    a.mplus(&mut b);
    assert_eq!(a.to_items(), vec![1, 2]);
}

#[test]
fn option_plus_left_catch() {
    // plus(pure(x), b) == pure(x)
    assert_eq!(option_plus(Option::pure(1), Some(2)), Some(1));
    assert_eq!(option_plus(Option::pure(1), None), Some(1));
}

#[test]
fn option_plus_zero_and_assoc() {
    assert_eq!(option_plus(None, Some(7)), Some(7));
    assert_eq!(option_plus(Some(7), None), Some(7));
    let n: Option<i64> = None;
    assert_eq!(option_plus(n, None), None);
    let (a, b, c) = (None, Some(1), Some(2));
    assert_eq!(
        option_plus(option_plus(a, b), c),
        option_plus(a, option_plus(b, c))
    );
}

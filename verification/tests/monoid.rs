use monadic::monoid::{Monoid, Semigroup};

#[test]
fn string_monoid_units() {
    // append(neutral, x) == x and append(x, neutral) == x
    let mut x = String::from("log");
    let r = String::mempty().mappend(&mut x);
    assert_eq!(r, "log");
    let mut e = String::mempty();
    let r2 = String::from("log").mappend(&mut e);
    assert_eq!(r2, "log");
}

#[test]
fn string_monoid_associativity() {
    let abc = String::from("a")
        .mappend(&mut String::from("b"))
        .mappend(&mut String::from("c"));
    let abc2 = String::from("a").mappend(&mut String::from("b").mappend(&mut String::from("c")));
    assert_eq!(abc, abc2);
    assert_eq!(abc, "abc");
}

#[test]
fn vec_monoid_units_and_assoc() {
    let mut x: Vec<i64> = vec![1, 2];
    let r = Vec::mempty().mappend(&mut x);
    assert_eq!(r, vec![1, 2]);
    let r2 = vec![1i64, 2].mappend(&mut Vec::mempty());
    assert_eq!(r2, vec![1, 2]);
    let abc = vec![1i64].mappend(&mut vec![2]).mappend(&mut vec![3]);
    let abc2 = vec![1i64].mappend(&mut vec![2].mappend(&mut vec![3]));
    assert_eq!(abc, abc2);
    assert_eq!(abc, vec![1, 2, 3]);
}

#[test]
fn dup_copies() {
    let s = String::from("kept");
    assert_eq!(s.dup(), s);
    let v: Vec<i64> = vec![9, 8];
    assert_eq!(v.dup(), v);
}

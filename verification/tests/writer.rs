use monadic::util::{concat_string_str, concat_vec_array};
use monadic::writer::{tell, tell_array, tell_str, Writer};

#[test]
fn tell_then_tell_appends_logs() {
    // unwrap_pair(bind(tell(w1), _ -> tell(w2))) == ((), append(w1, w2))
    let m = tell(String::from("first ")).bind(|_u: ()| tell(String::from("second")));
    let (a, w) = m.unwrap_pair();
    assert_eq!(a, ());
    assert_eq!(w, "first second");
}

#[test]
fn censor_changes_only_the_log() {
    let m = tell_str("log").bind(|_u: ()| Writer::pure(5i64));
    let before = m.unwrap_pair();
    let m2 = tell_str("log").bind(|_u: ()| Writer::pure(5i64));
    let after = m2.censor(|w: String| concat_string_str(w, "!")).unwrap_pair();
    assert_eq!(after.0, before.0);
    assert_eq!(after.1, "log!");
}

#[test]
fn pure_has_empty_log() {
    let m: Writer<i64, String> = Writer::pure(3);
    let (a, w) = m.unwrap_pair();
    assert_eq!(a, 3);
    assert_eq!(w, "");
}

#[test]
fn listen_exposes_the_log() {
    let m = tell_str("seen").bind(|_u: ()| Writer::pure(1i64));
    let ((a, exposed), kept) = m.listen().unwrap_pair();
    assert_eq!(a, 1);
    assert_eq!(exposed, "seen");
    assert_eq!(kept, "seen");
}

#[test]
fn listens_exposes_a_projection() {
    let m = tell_str("four").bind(|_u: ()| Writer::pure(1i64));
    let ((a, n), kept) = m.listens(|w: String| w.len()).unwrap_pair();
    assert_eq!(a, 1);
    assert_eq!(n, 4);
    assert_eq!(kept, "four");
}

#[test]
fn lift_replaces_result_keeps_log() {
    let m = tell_str("kept").lift(9i64);
    let (a, w) = m.unwrap_pair();
    assert_eq!(a, 9);
    assert_eq!(w, "kept");
}

#[test]
fn unwrap_drops_log() {
    let m = tell_str("gone").lift(7i64);
    assert_eq!(m.unwrap(), 7);
}

#[test]
fn tell_array_logs_items() {
    let m = tell_array(&[1i64, 2]).bind(|_u: ()| tell(vec![3i64]));
    let (a, w) = m.unwrap_pair();
    assert_eq!(a, ());
    assert_eq!(w, vec![1, 2, 3]);
}

#[test]
fn concat_helpers_append() {
    assert_eq!(concat_vec_array(vec![1i64], &[2, 3]), vec![1, 2, 3]);
    assert_eq!(concat_string_str(String::from("ab"), "cd"), "abcd");
}

#[test]
fn writer_iterator_yields_once() {
    let m: Writer<i64, String> = Writer::pure(11);
    let mut it = m.into_iter();
    assert_eq!(it.next(), Some(11));
    assert_eq!(it.next(), None);
}

#[test]
fn writer_monad_identity_scenarios() {
    let f = |x: i64| tell_str("f ").lift(x * 2);
    let lhs = Writer::<i64, String>::pure(4).bind(f);
    let rhs = f(4);
    assert_eq!(lhs.unwrap_pair(), rhs.unwrap_pair());
    let m = tell_str("m").lift(6i64);
    let r = m.bind(|x: i64| Writer::pure(x));
    assert_eq!(r.unwrap_pair(), (6, String::from("m")));
}

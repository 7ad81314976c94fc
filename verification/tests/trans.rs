use monadic::reader_trans;
use monadic::state_trans;
use monadic::writer_trans::{censor, listen, listens, tell, tell_array, tell_str, WriterT};

#[test]
fn reader_trans_ask_and_bind() {
    // v <- ask(); lift [v, v + 1]
    let m = reader_trans::ask::<i64>().bind(|v: i64| reader_trans::lift(vec![v, v + 1]));
    assert_eq!(m.initial_env(10), vec![10, 11]);
}

#[test]
fn reader_trans_pure_and_lift_iter() {
    let m = reader_trans::pure::<i64, i64>(3);
    assert_eq!(m.initial_env(0), vec![3]);
    let m2 = reader_trans::lift_iter::<i64, i64>(&[7, 8]);
    assert_eq!(m2.initial_env(0), vec![7, 8]);
}

#[test]
fn reader_trans_local_modifies_environment() {
    let m = reader_trans::local(|e: i64| e + 1, reader_trans::ask::<i64>());
    assert_eq!(m.initial_env(41), vec![42]);
}

#[test]
fn reader_trans_bind_concatenates() {
    // x <- lift [1, 2]; lift [x * 10, x * 10 + 1]
    let m = reader_trans::lift::<i64, i64>(vec![1, 2])
        .bind(|x: i64| reader_trans::lift(vec![x * 10, x * 10 + 1]));
    assert_eq!(m.initial_env(0), vec![10, 11, 20, 21]);
}

#[test]
fn state_trans_get_put_thread() {
    // _ <- put(5); v <- get(); pure v
    let m = state_trans::put(5i64)
        .bind(|_u: ()| state_trans::get())
        .bind(|v: i64| state_trans::pure(v));
    assert_eq!(m.initial_state(0), vec![(5, 5)]);
}

#[test]
fn state_trans_lift_pairs_with_state() {
    let m = state_trans::lift::<i64, i64>(vec![1, 2]);
    assert_eq!(m.initial_state(9), vec![(1, 9), (2, 9)]);
    let m2 = state_trans::lift_iter::<i64, i64>(&[4]);
    assert_eq!(m2.initial_state(0), vec![(4, 0)]);
}

#[test]
fn state_trans_bind_threads_each_branch() {
    // x <- lift [1, 2]; _ <- put(x); v <- get(); pure v
    let m = state_trans::lift::<i64, i64>(vec![1, 2])
        .bind(|x: i64| state_trans::put(x))
        .bind(|_u: ()| state_trans::get());
    assert_eq!(m.initial_state(0), vec![(1, 1), (2, 2)]);
}

#[test]
fn writer_trans_tell_then_tell() {
    let m = tell(String::from("a")).bind(|_u: ()| tell(String::from("b")));
    let (inner, log) = m.unwrap_pair();
    assert_eq!(inner, vec![()]);
    assert_eq!(log, "ab");
}

#[test]
fn writer_trans_bind_keeps_first_log() {
    // two inner results; the log of the first outcome is the one appended
    let m = WriterT::<i64, String>::lift(vec![1, 2]).bind(|x: i64| {
        let word = if x == 1 { "one" } else { "two" };
        tell_str(word).bind(move |_u: ()| WriterT::<i64, String>::pure(x * 10))
    });
    let (inner, log) = m.unwrap_pair();
    assert_eq!(inner, vec![10, 20]);
    assert_eq!(log, "one");
}

#[test]
fn writer_trans_empty_inner_keeps_log() {
    let m = tell_str("kept").bind(|_u: ()| WriterT::<i64, String>::lift(Vec::new()));
    let (inner, log) = m.unwrap_pair();
    assert_eq!(inner, Vec::<i64>::new());
    assert_eq!(log, "kept");
}

#[test]
fn writer_trans_listen_pairs_results_with_log() {
    let m = tell_str("L").bind(|_u: ()| WriterT::<i64, String>::lift(vec![1, 2]));
    let (pairs, log) = listen(m).unwrap_pair();
    assert_eq!(
        pairs,
        vec![(1, String::from("L")), (2, String::from("L"))]
    );
    assert_eq!(log, "L");
}

#[test]
fn writer_trans_listens_projects_log() {
    let m = tell_str("abc").bind(|_u: ()| WriterT::<i64, String>::lift(vec![5]));
    let (pairs, log) = listens(m, |w: &String| w.len()).unwrap_pair();
    assert_eq!(pairs, vec![(5, 3)]);
    assert_eq!(log, "abc");
}

#[test]
fn writer_trans_censor_rewrites_log() {
    let m = tell_str("abc").censor(|w: String| {
        let mut w2 = w;
        w2.push('!');
        w2
    });
    let (inner, log) = m.unwrap_pair();
    assert_eq!(inner, vec![()]);
    assert_eq!(log, "abc!");
    let m2 = censor(|w: String| w, tell_str("same"));
    assert_eq!(m2.unwrap_pair().1, "same");
}

#[test]
fn writer_trans_pure_and_unwrap() {
    let m = WriterT::<i64, String>::pure(8);
    assert_eq!(m.unwrap(), vec![8]);
    let m2 = tell_array(&[1i64]).bind(|_u: ()| WriterT::<i64, Vec<i64>>::pure(2));
    let (inner, log) = m2.unwrap_pair();
    assert_eq!(inner, vec![2]);
    assert_eq!(log, vec![1]);
}

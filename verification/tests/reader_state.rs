use monadic::reader;
use monadic::state;

#[test]
fn reader_local_ask_applies_modification() {
    // initial_env(local(f, ask()), e) == f(e)
    let f = |x: i64| x + 10;
    let m = reader::local(f, reader::ask());
    assert_eq!(m.initial_env(42), 52);
}

#[test]
fn reader_nested_local_composes() {
    // local(f, local(g, ask())) reads g(f(e))
    let f = |x: i64| x * 2;
    let g = |x: i64| x + 1;
    let m = reader::local(f, reader::local(g, reader::ask()));
    assert_eq!(m.initial_env(10), 21);
    let composed = reader::local(|x: i64| (x * 2) + 1, reader::ask());
    assert_eq!(composed.initial_env(10), 21);
}

#[test]
fn reader_pure_ignores_environment() {
    let m = reader::pure::<i64, i64>(7);
    assert_eq!(m.initial_env(1000), 7);
}

#[test]
fn reader_bind_threads_environment() {
    // bind(ask(), v -> pure(v + 1)) reads e + 1
    let m = reader::ask::<i64>().bind(|v: i64| reader::pure(v + 1));
    assert_eq!(m.initial_env(4), 5);
}

#[test]
fn reader_monad_identities_scenario() {
    let f = |v: i64| reader::pure::<i64, i64>(v * 3);
    let lhs = reader::pure::<i64, i64>(5).bind(f);
    let rhs = f(5);
    assert_eq!(lhs.initial_env(0), rhs.initial_env(0));
    let m = reader::ask::<i64>().bind(|v: i64| reader::pure(v));
    assert_eq!(m.initial_env(33), 33);
}

#[test]
fn state_put_then_get() {
    // initial_state(bind(put(5), _ -> get()), 0) == (5, 5)
    let m = state::put(5i64).bind(|_u: ()| state::get());
    assert_eq!(m.initial_state(0), (5, 5));
}

#[test]
fn state_pure_keeps_state() {
    let m = state::pure::<i64, i64>(9);
    assert_eq!(m.initial_state(3), (9, 3));
}

#[test]
fn state_threads_left_to_right() {
    // get, double it into the state, read it back
    let m = state::get::<i64>()
        .bind(|v: i64| state::put(v * 2))
        .bind(|_u: ()| state::get());
    assert_eq!(m.initial_state(21), (42, 42));
}

#[test]
fn state_monad_identities_scenario() {
    let f = |v: i64| state::pure::<i64, i64>(v + 100);
    let lhs = state::pure::<i64, i64>(1).bind(f);
    assert_eq!(lhs.initial_state(0), (101, 0));
    let m = state::get::<i64>().bind(|v: i64| state::pure(v));
    assert_eq!(m.initial_state(8), (8, 8));
}

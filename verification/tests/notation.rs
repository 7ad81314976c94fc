use monadic::notation::{
    expand, expand_reader, expand_reader_trans, expand_state, expand_state_trans, expand_writer,
    expand_writer_trans, Block, Cond, Expr, ExpandError, MExpr, RdBlock, RdStatement, RdtBlock,
    RdtStatement, Statement, StBlock, StStatement, SttBlock, SttStatement, WrBlock, WrStatement,
    WrtBlock, WrtStatement,
};

#[test]
fn end_to_end_comprehension() {
    // x <- 1..7; y <- 1..x; guard odd(y); let z = y + 1; pure (x, z)
    let block = Block {
        stmts: vec![
            Statement::Bind(MExpr::Range(Expr::Lit(1), Expr::Lit(7))),
            Statement::Bind(MExpr::Range(Expr::Lit(1), Expr::Var(0))),
            Statement::Guard(Cond::Odd(Expr::Var(1))),
            Statement::Let(Expr::Add(Box::new(Expr::Var(1)), Box::new(Expr::Lit(1)))),
        ],
        result: vec![Expr::Var(0), Expr::Var(2)],
    };
    let rows = expand(&block).unwrap();
    let pairs = rows.into_iter().map(|r| (r[0], r[1])).collect::<Vec<(i64, i64)>>();
    // the literal pairs of nested filtering and mapping over the two ranges
    let expected = vec![
        (2, 2),
        (3, 2),
        (4, 2),
        (4, 4),
        (5, 2),
        (5, 4),
        (6, 2),
        (6, 4),
        (6, 6),
    ];
    assert_eq!(pairs, expected);
    // x = 3, y = 1 gives z = 2 and is included; x = 3, y = 2 is filtered out
    assert!(pairs.contains(&(3, 2)));
    assert_eq!(pairs.iter().filter(|p| p.0 == 3).count(), 1);
}

#[test]
fn bind_ignore_keeps_multiplicity() {
    // _ <- [10, 20]; pure 7  — two results, the bound values ignored
    let block = Block {
        stmts: vec![Statement::BindIgnore(MExpr::Items(vec![10, 20]))],
        result: vec![Expr::Lit(7)],
    };
    let rows = expand(&block).unwrap();
    assert_eq!(rows, vec![vec![7], vec![7]]);
}

#[test]
fn guard_false_yields_zero() {
    let block = Block {
        stmts: vec![
            Statement::Bind(MExpr::Items(vec![1, 2, 3])),
            Statement::Guard(Cond::Even(Expr::Lit(1))),
        ],
        result: vec![Expr::Var(0)],
    };
    let rows = expand(&block).unwrap();
    assert!(rows.is_empty());
}

#[test]
fn unbound_slot_is_refused() {
    let block = Block {
        stmts: vec![Statement::Bind(MExpr::Items(vec![1]))],
        result: vec![Expr::Var(1)],
    };
    match expand(&block) {
        Err(ExpandError::UnboundVar) => {}
        Ok(_) => panic!("a block reading an unbound slot must be refused"),
    }
}

#[test]
fn pure_binding_binds_one_value() {
    // v <- pure 21; pure v * 2
    let block = Block {
        stmts: vec![Statement::BindPure(Expr::Lit(21))],
        result: vec![Expr::Mul(Box::new(Expr::Var(0)), Box::new(Expr::Lit(2)))],
    };
    let rows = expand(&block).unwrap();
    assert_eq!(rows, vec![vec![42]]);
}

#[test]
fn reader_block_reads_environment() {
    // v <- ask(); let w = v + 1; pure w
    let block = RdBlock {
        stmts: vec![
            RdStatement::BindAsk,
            RdStatement::Let(Expr::Add(Box::new(Expr::Var(0)), Box::new(Expr::Lit(1)))),
        ],
        result: Expr::Var(1),
    };
    let rdr = expand_reader(block).unwrap();
    assert_eq!(rdr.initial_env(41), 42);
}

#[test]
fn reader_block_unbound_slot_is_refused() {
    let block = RdBlock {
        stmts: vec![RdStatement::BindAsk],
        result: Expr::Var(3),
    };
    assert!(matches!(expand_reader(block), Err(ExpandError::UnboundVar)));
}

#[test]
fn state_block_puts_then_gets() {
    // _ <- put(5); v <- get(); pure v
    let block = StBlock {
        stmts: vec![StStatement::Put(Expr::Lit(5)), StStatement::BindGet],
        result: Expr::Var(0),
    };
    let st = expand_state(block).unwrap();
    assert_eq!(st.initial_state(0), (5, 5));
}

#[test]
fn writer_block_accumulates_log() {
    // _ <- tell(1); v <- pure 10; _ <- tell(v); pure v
    let block = WrBlock {
        stmts: vec![
            WrStatement::Tell(Expr::Lit(1)),
            WrStatement::BindPure(Expr::Lit(10)),
            WrStatement::Tell(Expr::Var(0)),
        ],
        result: Expr::Var(0),
    };
    let w = expand_writer(&block).unwrap();
    let (a, log) = w.unwrap_pair();
    assert_eq!(a, 10);
    assert_eq!(log, vec![1, 10]);
}

#[test]
fn state_trans_block_forks_and_threads() {
    // x <- lift_iter [1, 2, 3]; guard odd(x); _ <- put(x); v <- get(); pure v * 10
    let block = SttBlock {
        stmts: vec![
            SttStatement::LiftIter(MExpr::Items(vec![1, 2, 3])),
            SttStatement::Guard(Cond::Odd(Expr::Var(0))),
            SttStatement::Put(Expr::Var(0)),
            SttStatement::BindGet,
        ],
        result: Expr::Mul(Box::new(Expr::Var(1)), Box::new(Expr::Lit(10))),
    };
    let st = expand_state_trans(block).unwrap();
    assert_eq!(st.initial_state(0), vec![(10, 1), (30, 3)]);
}

#[test]
fn reader_trans_block_reads_and_forks() {
    // v <- ask(); x <- lift_iter 1..v; guard even(x); pure x
    let block = RdtBlock {
        stmts: vec![
            RdtStatement::BindAsk,
            RdtStatement::LiftIter(MExpr::Range(Expr::Lit(1), Expr::Var(0))),
            RdtStatement::Guard(Cond::Even(Expr::Var(1))),
        ],
        result: Expr::Var(1),
    };
    let rdr = expand_reader_trans(block).unwrap();
    assert_eq!(rdr.initial_env(5), vec![2, 4]);
}

#[test]
fn writer_trans_block_logs_first_branch() {
    // _ <- tell(1); x <- lift_iter [10, 20]; _ <- tell(x); pure x
    let block = WrtBlock {
        stmts: vec![
            WrtStatement::Tell(Expr::Lit(1)),
            WrtStatement::LiftIter(MExpr::Items(vec![10, 20])),
            WrtStatement::Tell(Expr::Var(0)),
        ],
        result: Expr::Var(0),
    };
    let w = expand_writer_trans(&block).unwrap();
    let (inner, log) = w.unwrap_pair();
    assert_eq!(inner, vec![10, 20]);
    assert_eq!(log, vec![1, 10]);
}

#[test]
fn writer_trans_block_guard_false_is_zero() {
    let block = WrtBlock {
        stmts: vec![
            WrtStatement::Tell(Expr::Lit(9)),
            WrtStatement::Guard(Cond::Lt(Expr::Lit(2), Expr::Lit(1))),
        ],
        result: Expr::Lit(0),
    };
    let w = expand_writer_trans(&block).unwrap();
    let (inner, log) = w.unwrap_pair();
    assert_eq!(inner, Vec::<i64>::new());
    assert_eq!(log, vec![9]);
}

#[test]
fn empty_statement_list_yields_one_row() {
    let block = Block {
        stmts: vec![],
        result: vec![Expr::Lit(3), Expr::Lit(4)],
    };
    let rows = expand(&block).unwrap();
    assert_eq!(rows, vec![vec![3, 4]]);
}

#[test]
fn empty_range_yields_no_row() {
    let block = Block {
        stmts: vec![Statement::Bind(MExpr::Range(Expr::Lit(5), Expr::Lit(5)))],
        result: vec![Expr::Var(0)],
    };
    let rows = expand(&block).unwrap();
    assert!(rows.is_empty());
}

#[test]
fn arithmetic_wraps_on_overflow() {
    let block = Block {
        stmts: vec![Statement::Let(Expr::Add(
            Box::new(Expr::Lit(i64::MAX)),
            Box::new(Expr::Lit(1)),
        ))],
        result: vec![Expr::Var(0)],
    };
    let rows = expand(&block).unwrap();
    assert_eq!(rows, vec![vec![i64::MIN]]);
}

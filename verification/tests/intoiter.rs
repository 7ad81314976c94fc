use monadic::notation::{expand, Block, Cond, Expr, MExpr, Statement};

#[test]
fn it_works() {
    let xs = (1..6).collect::<Vec<i64>>();
    // as iterator
    let zs = (&xs)
        .into_iter()
        .filter(|&v| v < &4)
        .map(|v| v * 2)
        .collect::<Vec<i64>>();
    // as a notation block: &v <- &xs; guard v < 4; pure v * 2
    let block = Block {
        stmts: vec![
            Statement::Bind(MExpr::Items(xs)),
            Statement::Guard(Cond::Lt(Expr::Var(0), Expr::Lit(4))),
        ],
        result: vec![Expr::Mul(Box::new(Expr::Var(0)), Box::new(Expr::Lit(2)))],
    };
    let rows = expand(&block).unwrap();
    let ys = rows.into_iter().map(|r| r[0]).collect::<Vec<i64>>();

    assert_eq!(ys, zs);
}

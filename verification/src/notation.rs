//! The notation expander: a flat, ordered block of binding statements is
//! expanded into the nested composition the effect's semantics asks for.
//!
//! A `Block` is a list of statements — monadic bindings, pure bindings, let
//! bindings and guards — closed by one result tuple. Variables are slots: the
//! k-th binding statement of the block binds slot `k`, and `Expr::Var(k)`
//! reads it. A block that ends in a bare computation rather than a result
//! tuple is written by binding the computation and returning the bound slot.
//! A malformed block — one that reads a slot no binding statement provides —
//! is reported at expansion time, never at run time; the shape errors of a
//! statement list (a guard or let in final position) cannot be written at
//! all, since the result stands apart from the statements.
//!
//! The expansion for the multi-result effect is specified by `block_sem`,
//! which rewrites the block right to left: every binding statement becomes a
//! bind over the values its source produces, with the remaining statements as
//! the continuation; a guard collapses the current branch to the zero
//! computation when its condition fails. `expand` is the executable expander,
//! proved to produce exactly `block_sem`. The comprehension law — a
//! bind-guard-pure block equals filtering the source and mapping the result —
//! is proved at the bottom of the module.

use vstd::prelude::*;

verus! {

/// An arithmetic expression over the slots bound earlier in the block.
/// Arithmetic wraps around on overflow.
pub enum Expr {
    Lit(i64),
    Var(usize),
    Add(Box<Expr>, Box<Expr>),
    Sub(Box<Expr>, Box<Expr>),
    Mul(Box<Expr>, Box<Expr>),
}

/// A guard condition over the slots bound earlier in the block.
pub enum Cond {
    Odd(Expr),
    Even(Expr),
    Lt(Expr, Expr),
    Le(Expr, Expr),
    Eq(Expr, Expr),
    Not(Box<Cond>),
}

/// A source of values for a monadic binding in the multi-result effect: a
/// half-open range, or a literal list of items.
pub enum MExpr {
    Range(Expr, Expr),
    Items(Vec<i64>),
}

/// One statement of a block. `Bind`, `BindPure` and `Let` bind the next slot;
/// `BindIgnore` and `Guard` bind nothing.
pub enum Statement {
    /// `v <- m`: bind each value the source produces in turn. The values of
    /// the block language are plain integers, so binding by reference
    /// (`&v <- &m`) is the same statement.
    Bind(MExpr),
    /// `_ <- m`: run the source for its multiplicity, ignoring its values.
    BindIgnore(MExpr),
    /// `v <- pure e`: bind the value of `e`.
    BindPure(Expr),
    /// `let v = e`: bind the value of `e`.
    Let(Expr),
    /// `guard c`: collapse this branch to the zero computation unless `c`
    /// holds.
    Guard(Cond),
}

/// An ordered statement list closed by one result tuple.
pub struct Block {
    pub stmts: Vec<Statement>,
    pub result: Vec<Expr>,
}

/// The one structural error a block can carry: a variable slot that no
/// binding statement provides.
#[derive(Debug)]
pub enum ExpandError {
    UnboundVar,
}

// ----- the semantics of expressions -----

/// The value of an expression under an environment of bound slots. An
/// unbound slot reads as zero; well-formed blocks never read one.
pub open spec fn eval_expr(e: Expr, env: Seq<i64>) -> i64
    decreases e,
{
    match e {
        Expr::Lit(n) => n,
        Expr::Var(i) => if (i as int) < env.len() {
            env[i as int]
        } else {
            0
        },
        Expr::Add(a, b) => eval_expr(*a, env).wrapping_add(eval_expr(*b, env)),
        Expr::Sub(a, b) => eval_expr(*a, env).wrapping_sub(eval_expr(*b, env)),
        Expr::Mul(a, b) => eval_expr(*a, env).wrapping_mul(eval_expr(*b, env)),
    }
}

/// The truth of a condition under an environment of bound slots.
pub open spec fn eval_cond(c: Cond, env: Seq<i64>) -> bool
    decreases c,
{
    match c {
        Cond::Odd(e) => eval_expr(e, env) % 2 != 0,
        Cond::Even(e) => eval_expr(e, env) % 2 == 0,
        Cond::Lt(a, b) => eval_expr(a, env) < eval_expr(b, env),
        Cond::Le(a, b) => eval_expr(a, env) <= eval_expr(b, env),
        Cond::Eq(a, b) => eval_expr(a, env) == eval_expr(b, env),
        Cond::Not(c1) => !eval_cond(*c1, env),
    }
}

/// The integers of the half-open range `l..h`, in order.
pub open spec fn range_seq(l: int, h: int) -> Seq<i64> {
    if l < h {
        Seq::new((h - l) as nat, |k: int| (l + k) as i64)
    } else {
        Seq::empty()
    }
}

/// The values a binding source produces under an environment.
pub open spec fn eval_mexpr(m: MExpr, env: Seq<i64>) -> Seq<i64> {
    match m {
        MExpr::Range(lo, hi) => range_seq(eval_expr(lo, env) as int, eval_expr(hi, env) as int),
        MExpr::Items(v) => v@,
    }
}

/// The row an environment yields for the result tuple.
pub open spec fn eval_tuple(res: Seq<Expr>, env: Seq<i64>) -> Seq<i64> {
    res.map_values(|e: Expr| eval_expr(e, env))
}

// ----- well-formedness: every slot read is bound -----

pub open spec fn wf_expr(e: Expr, nbound: nat) -> bool
    decreases e,
{
    match e {
        Expr::Lit(_) => true,
        Expr::Var(i) => (i as nat) < nbound,
        Expr::Add(a, b) => wf_expr(*a, nbound) && wf_expr(*b, nbound),
        Expr::Sub(a, b) => wf_expr(*a, nbound) && wf_expr(*b, nbound),
        Expr::Mul(a, b) => wf_expr(*a, nbound) && wf_expr(*b, nbound),
    }
}

pub open spec fn wf_cond(c: Cond, nbound: nat) -> bool
    decreases c,
{
    match c {
        Cond::Odd(e) => wf_expr(e, nbound),
        Cond::Even(e) => wf_expr(e, nbound),
        Cond::Lt(a, b) => wf_expr(a, nbound) && wf_expr(b, nbound),
        Cond::Le(a, b) => wf_expr(a, nbound) && wf_expr(b, nbound),
        Cond::Eq(a, b) => wf_expr(a, nbound) && wf_expr(b, nbound),
        Cond::Not(c1) => wf_cond(*c1, nbound),
    }
}

pub open spec fn wf_mexpr(m: MExpr, nbound: nat) -> bool {
    match m {
        MExpr::Range(lo, hi) => wf_expr(lo, nbound) && wf_expr(hi, nbound),
        MExpr::Items(_) => true,
    }
}

/// Whether a statement binds the next slot.
pub open spec fn stmt_binds(s: Statement) -> bool {
    match s {
        Statement::Bind(_) => true,
        Statement::BindIgnore(_) => false,
        Statement::BindPure(_) => true,
        Statement::Let(_) => true,
        Statement::Guard(_) => false,
    }
}

/// The expression or condition of a statement reads only bound slots.
pub open spec fn wf_stmt(s: Statement, nbound: nat) -> bool {
    match s {
        Statement::Bind(m) => wf_mexpr(m, nbound),
        Statement::BindIgnore(m) => wf_mexpr(m, nbound),
        Statement::BindPure(e) => wf_expr(e, nbound),
        Statement::Let(e) => wf_expr(e, nbound),
        Statement::Guard(c) => wf_cond(c, nbound),
    }
}

/// Every statement reads only slots bound before it.
pub open spec fn wf_stmts(stmts: Seq<Statement>, nbound: nat) -> bool
    decreases stmts.len(),
{
    if stmts.len() == 0 {
        true
    } else {
        wf_stmt(stmts[0], nbound) && wf_stmts(
            stmts.skip(1),
            nbound + if stmt_binds(stmts[0]) {
                1nat
            } else {
                0nat
            },
        )
    }
}

/// The number of slots bound once all the statements have run.
pub open spec fn binders_total(stmts: Seq<Statement>, nbound: nat) -> nat
    decreases stmts.len(),
{
    if stmts.len() == 0 {
        nbound
    } else {
        binders_total(
            stmts.skip(1),
            nbound + if stmt_binds(stmts[0]) {
                1nat
            } else {
                0nat
            },
        )
    }
}

/// A block is well-formed when every statement and every result expression
/// reads only bound slots.
pub open spec fn wf_block(b: Block) -> bool {
    &&& wf_stmts(b.stmts@, 0)
    &&& forall|i: int|
        0 <= i < b.result@.len() ==> wf_expr(#[trigger] b.result@[i], binders_total(b.stmts@, 0))
}

// ----- the semantics of a block over the multi-result effect -----

/// The rows a block produces under an environment: the syntax-directed
/// rewrite of the statement list into nested binds, one rule per statement
/// kind.
pub open spec fn block_sem(stmts: Seq<Statement>, res: Seq<Expr>, env: Seq<i64>) -> Seq<Seq<i64>>
    decreases stmts.len(), 0nat,
{
    if stmts.len() == 0 {
        seq![eval_tuple(res, env)]
    } else {
        let rest = stmts.skip(1);
        match stmts[0] {
            Statement::Bind(m) => bind_values(eval_mexpr(m, env), true, rest, res, env),
            Statement::BindIgnore(m) => bind_values(eval_mexpr(m, env), false, rest, res, env),
            Statement::BindPure(e) => block_sem(rest, res, env.push(eval_expr(e, env))),
            Statement::Let(e) => block_sem(rest, res, env.push(eval_expr(e, env))),
            Statement::Guard(c) => if eval_cond(c, env) {
                block_sem(rest, res, env)
            } else {
                Seq::empty()
            },
        }
    }
}

/// The bind of the multi-result effect, over the rest of a block: the rows
/// of the continuation for each value in turn, concatenated. When `binds` is
/// false the value is run for its multiplicity and not bound.
pub open spec fn bind_values(
    vals: Seq<i64>,
    binds: bool,
    stmts: Seq<Statement>,
    res: Seq<Expr>,
    env: Seq<i64>,
) -> Seq<Seq<i64>>
    decreases stmts.len(), vals.len() + 1,
{
    if vals.len() == 0 {
        Seq::empty()
    } else {
        let head_env = if binds {
            env.push(vals[0])
        } else {
            env
        };
        block_sem(stmts, res, head_env) + bind_values(vals.skip(1), binds, stmts, res, env)
    }
}

// ----- the executable expander -----

/// The value of an expression, computed.
pub fn eval_expr_x(e: &Expr, env: &Vec<i64>) -> (r: i64)
    requires
        wf_expr(*e, env@.len() as nat),
    ensures
        r == eval_expr(*e, env@),
    decreases *e,
{
    match e {
        Expr::Lit(n) => *n,
        Expr::Var(i) => env[*i],
        Expr::Add(a, b) => eval_expr_x(a, env).wrapping_add(eval_expr_x(b, env)),
        Expr::Sub(a, b) => eval_expr_x(a, env).wrapping_sub(eval_expr_x(b, env)),
        Expr::Mul(a, b) => eval_expr_x(a, env).wrapping_mul(eval_expr_x(b, env)),
    }
}

/// The truth of a condition, computed.
pub fn eval_cond_x(c: &Cond, env: &Vec<i64>) -> (r: bool)
    requires
        wf_cond(*c, env@.len() as nat),
    ensures
        r == eval_cond(*c, env@),
    decreases *c,
{
    match c {
        Cond::Odd(e) => eval_expr_x(e, env) % 2 != 0,
        Cond::Even(e) => eval_expr_x(e, env) % 2 == 0,
        Cond::Lt(a, b) => eval_expr_x(a, env) < eval_expr_x(b, env),
        Cond::Le(a, b) => eval_expr_x(a, env) <= eval_expr_x(b, env),
        Cond::Eq(a, b) => eval_expr_x(a, env) == eval_expr_x(b, env),
        Cond::Not(c1) => !eval_cond_x(c1, env),
    }
}

/// The values of a binding source, computed.
pub fn eval_mexpr_x(m: &MExpr, env: &Vec<i64>) -> (v: Vec<i64>)
    requires
        wf_mexpr(*m, env@.len() as nat),
    ensures
        v@ == eval_mexpr(*m, env@),
{
    match m {
        MExpr::Range(lo, hi) => {
            let l = eval_expr_x(lo, env);
            let h = eval_expr_x(hi, env);
            let mut v: Vec<i64> = Vec::new();
            if l >= h {
                return v;
            }
            let mut x = l;
            while x < h
                invariant
                    l <= x <= h,
                    l < h,
                    v@ == range_seq(l as int, x as int),
                decreases h - x,
            {
                v.push(x);
                proof {
                    assert(range_seq(l as int, x as int + 1) =~= range_seq(
                        l as int,
                        x as int,
                    ).push(x));
                }
                x = x + 1;
            }
            v
        },
        MExpr::Items(items) => {
            let v = vstd::slice::slice_to_vec(items.as_slice());
            v
        },
    }
}

/// Whether an expression reads only slots under `nbound`, computed.
pub fn check_expr(e: &Expr, nbound: usize) -> (r: bool)
    ensures
        r == wf_expr(*e, nbound as nat),
    decreases *e,
{
    match e {
        Expr::Lit(_) => true,
        Expr::Var(i) => *i < nbound,
        Expr::Add(a, b) => check_expr(a, nbound) && check_expr(b, nbound),
        Expr::Sub(a, b) => check_expr(a, nbound) && check_expr(b, nbound),
        Expr::Mul(a, b) => check_expr(a, nbound) && check_expr(b, nbound),
    }
}

/// Whether a condition reads only slots under `nbound`, computed.
pub fn check_cond(c: &Cond, nbound: usize) -> (r: bool)
    ensures
        r == wf_cond(*c, nbound as nat),
    decreases *c,
{
    match c {
        Cond::Odd(e) => check_expr(e, nbound),
        Cond::Even(e) => check_expr(e, nbound),
        Cond::Lt(a, b) => check_expr(a, nbound) && check_expr(b, nbound),
        Cond::Le(a, b) => check_expr(a, nbound) && check_expr(b, nbound),
        Cond::Eq(a, b) => check_expr(a, nbound) && check_expr(b, nbound),
        Cond::Not(c1) => check_cond(c1, nbound),
    }
}

/// Whether a statement reads only slots under `nbound`, computed.
fn check_stmt(s: &Statement, nbound: usize) -> (r: bool)
    ensures
        r == wf_stmt(*s, nbound as nat),
{
    match s {
        Statement::Bind(m) => match m {
            MExpr::Range(lo, hi) => check_expr(lo, nbound) && check_expr(hi, nbound),
            MExpr::Items(_) => true,
        },
        Statement::BindIgnore(m) => match m {
            MExpr::Range(lo, hi) => check_expr(lo, nbound) && check_expr(hi, nbound),
            MExpr::Items(_) => true,
        },
        Statement::BindPure(e) => check_expr(e, nbound),
        Statement::Let(e) => check_expr(e, nbound),
        Statement::Guard(c) => check_cond(c, nbound),
    }
}

/// Whether the whole block reads only bound slots, computed.
pub fn check_block(b: &Block) -> (r: bool)
    ensures
        r == wf_block(*b),
{
    let mut i: usize = 0;
    let mut nbound: usize = 0;
    let mut ok = true;
    while i < b.stmts.len()
        invariant
            i <= b.stmts.len(),
            nbound <= i,
            nbound as nat == binders_total(b.stmts@.take(i as int), 0),
            ok == wf_stmts(b.stmts@.take(i as int), 0),
        decreases b.stmts.len() - i,
    {
        let s = &b.stmts[i];
        let here = check_stmt(s, nbound);
        proof {
            lemma_wf_stmts_snoc(b.stmts@.take(i as int), *s, 0);
            lemma_binders_total_snoc(b.stmts@.take(i as int), *s, 0);
            assert(b.stmts@.take(i as int).push(b.stmts@[i as int]) =~= b.stmts@.take(
                i as int + 1,
            ));
        }
        ok = ok && here;
        if match s {
            Statement::Bind(_) => true,
            Statement::BindPure(_) => true,
            Statement::Let(_) => true,
            Statement::BindIgnore(_) => false,
            Statement::Guard(_) => false,
        } {
            nbound = nbound + 1;
        }
        i = i + 1;
    }
    proof {
        assert(b.stmts@.take(b.stmts@.len() as int) =~= b.stmts@);
    }
    let mut j: usize = 0;
    let mut res_ok = true;
    while j < b.result.len()
        invariant
            j <= b.result.len(),
            nbound as nat == binders_total(b.stmts@, 0),
            res_ok == (forall|k: int|
                0 <= k < j ==> wf_expr(#[trigger] b.result@[k], binders_total(b.stmts@, 0))),
        decreases b.result.len() - j,
    {
        let here = check_expr(&b.result[j], nbound);
        res_ok = res_ok && here;
        j = j + 1;
    }
    ok && res_ok
}

/// Appending one statement to a well-formedness check extends it by that
/// statement's own check, under the slots bound so far.
proof fn lemma_wf_stmts_snoc(stmts: Seq<Statement>, s: Statement, nbound: nat)
    ensures
        wf_stmts(stmts.push(s), nbound) == (wf_stmts(stmts, nbound) && wf_stmt(
            s,
            binders_total(stmts, nbound),
        )),
    decreases stmts.len(),
{
    if stmts.len() == 0 {
        assert(stmts.push(s).skip(1) =~= Seq::<Statement>::empty());
        assert(wf_stmts(stmts.push(s), nbound) == (wf_stmt(s, nbound) && wf_stmts(
            stmts.push(s).skip(1),
            nbound + if stmt_binds(s) {
                1nat
            } else {
                0nat
            },
        )));
    } else {
        assert(stmts.push(s).skip(1) =~= stmts.skip(1).push(s));
        lemma_wf_stmts_snoc(
            stmts.skip(1),
            s,
            nbound + if stmt_binds(stmts[0]) {
                1nat
            } else {
                0nat
            },
        );
    }
}

/// Appending one statement adds its binder, if any, to the total.
proof fn lemma_binders_total_snoc(stmts: Seq<Statement>, s: Statement, nbound: nat)
    ensures
        binders_total(stmts.push(s), nbound) == binders_total(stmts, nbound) + if stmt_binds(s) {
            1nat
        } else {
            0nat
        },
    decreases stmts.len(),
{
    if stmts.len() == 0 {
        assert(stmts.push(s)[0] == s);
        assert(stmts.push(s).skip(1) =~= Seq::<Statement>::empty());
        assert(binders_total(stmts.push(s), nbound) == binders_total(
            Seq::<Statement>::empty(),
            nbound + if stmt_binds(s) {
                1nat
            } else {
                0nat
            },
        ));
    } else {
        assert(stmts.push(s)[0] == stmts[0]);
        assert(stmts.push(s).skip(1) =~= stmts.skip(1).push(s));
        lemma_binders_total_snoc(
            stmts.skip(1),
            s,
            nbound + if stmt_binds(stmts[0]) {
                1nat
            } else {
                0nat
            },
        );
    }
}

/// A copy of the environment, slot for slot.
fn copy_env(env: &Vec<i64>) -> (r: Vec<i64>)
    ensures
        r@ == env@,
{
    vstd::slice::slice_to_vec(env.as_slice())
}

/// The row of the result tuple, computed.
fn eval_tuple_x(res: &Vec<Expr>, env: &Vec<i64>) -> (row: Vec<i64>)
    requires
        forall|k: int| 0 <= k < res@.len() ==> wf_expr(#[trigger] res@[k], env@.len() as nat),
    ensures
        row@ == eval_tuple(res@, env@),
{
    let mut row: Vec<i64> = Vec::new();
    let mut j: usize = 0;
    while j < res.len()
        invariant
            j <= res.len(),
            forall|k: int| 0 <= k < res@.len() ==> wf_expr(#[trigger] res@[k], env@.len() as nat),
            row@ == res@.take(j as int).map_values(|e: Expr| eval_expr(e, env@)),
        decreases res.len() - j,
    {
        let v = eval_expr_x(&res[j], env);
        row.push(v);
        proof {
            assert(res@.take(j as int + 1).map_values(|e: Expr| eval_expr(e, env@)) =~= res@.take(
                j as int,
            ).map_values(|e: Expr| eval_expr(e, env@)).push(eval_expr(res@[j as int], env@)));
        }
        j = j + 1;
    }
    proof {
        assert(res@.take(res@.len() as int) =~= res@);
    }
    row
}

/// Binding one more value at the end appends the rows of its branch.
proof fn lemma_bind_values_snoc(
    vals: Seq<i64>,
    v: i64,
    binds: bool,
    stmts: Seq<Statement>,
    res: Seq<Expr>,
    env: Seq<i64>,
)
    ensures
        bind_values(vals.push(v), binds, stmts, res, env) == bind_values(
            vals,
            binds,
            stmts,
            res,
            env,
        ) + block_sem(
            stmts,
            res,
            if binds {
                env.push(v)
            } else {
                env
            },
        ),
    decreases vals.len(),
{
    let tail = if binds {
        env.push(v)
    } else {
        env
    };
    if vals.len() == 0 {
        assert(vals.push(v).skip(1) =~= Seq::<i64>::empty());
        assert(bind_values(vals, binds, stmts, res, env) + block_sem(stmts, res, tail)
            =~= block_sem(stmts, res, tail));
        assert(block_sem(stmts, res, tail) + bind_values(
            vals.push(v).skip(1),
            binds,
            stmts,
            res,
            env,
        ) =~= block_sem(stmts, res, tail));
    } else {
        assert(vals.push(v).skip(1) =~= vals.skip(1).push(v));
        lemma_bind_values_snoc(vals.skip(1), v, binds, stmts, res, env);
        let head_env = if binds {
            env.push(vals[0])
        } else {
            env
        };
        assert(bind_values(vals.push(v), binds, stmts, res, env) =~= bind_values(
            vals,
            binds,
            stmts,
            res,
            env,
        ) + block_sem(stmts, res, tail));
    }
}

/// Run the statements of `b` from position `i` under `env`, producing the
/// rows of `block_sem`.
fn run_block(b: &Block, i: usize, env: Vec<i64>) -> (rows: Vec<Vec<i64>>)
    requires
        i <= b.stmts@.len(),
        wf_stmts(b.stmts@.skip(i as int), env@.len() as nat),
        forall|k: int|
            0 <= k < b.result@.len() ==> wf_expr(
                #[trigger] b.result@[k],
                binders_total(b.stmts@.skip(i as int), env@.len() as nat),
            ),
    ensures
        rows@.map_values(|v: Vec<i64>| v@) == block_sem(b.stmts@.skip(i as int), b.result@, env@),
    decreases b.stmts@.len() - i,
{
    if i == b.stmts.len() {
        proof {
            assert(b.stmts@.skip(i as int) =~= Seq::<Statement>::empty());
        }
        let row = eval_tuple_x(&b.result, &env);
        let mut rows: Vec<Vec<i64>> = Vec::new();
        rows.push(row);
        proof {
            assert(rows@.map_values(|v: Vec<i64>| v@) =~= seq![eval_tuple(b.result@, env@)]);
        }
        rows
    } else {
        proof {
            assert(b.stmts@.skip(i as int)[0] == b.stmts@[i as int]);
            assert(b.stmts@.skip(i as int).skip(1) =~= b.stmts@.skip(i as int + 1));
        }
        let s = &b.stmts[i];
        match s {
            Statement::Bind(m) => {
                let vals = eval_mexpr_x(m, &env);
                bind_loop(b, i, env, vals, true)
            },
            Statement::BindIgnore(m) => {
                let vals = eval_mexpr_x(m, &env);
                bind_loop(b, i, env, vals, false)
            },
            Statement::BindPure(e) => {
                let v = eval_expr_x(e, &env);
                let mut env2 = env;
                env2.push(v);
                run_block(b, i + 1, env2)
            },
            Statement::Let(e) => {
                let v = eval_expr_x(e, &env);
                let mut env2 = env;
                env2.push(v);
                run_block(b, i + 1, env2)
            },
            Statement::Guard(c) => {
                if eval_cond_x(c, &env) {
                    run_block(b, i + 1, env)
                } else {
                    let rows: Vec<Vec<i64>> = Vec::new();
                    proof {
                        assert(rows@.map_values(|v: Vec<i64>| v@) =~= Seq::<Seq<i64>>::empty());
                    }
                    rows
                }
            },
        }
    }
}

/// The bind step of `run_block`: expand the rest of the block once per value.
fn bind_loop(b: &Block, i: usize, env: Vec<i64>, vals: Vec<i64>, binds: bool) -> (rows: Vec<
    Vec<i64>,
>)
    requires
        i < b.stmts@.len(),
        wf_stmts(
            b.stmts@.skip(i as int + 1),
            env@.len() as nat + if binds {
                1nat
            } else {
                0nat
            },
        ),
        forall|k: int|
            0 <= k < b.result@.len() ==> wf_expr(
                #[trigger] b.result@[k],
                binders_total(
                    b.stmts@.skip(i as int + 1),
                    env@.len() as nat + if binds {
                        1nat
                    } else {
                        0nat
                    },
                ),
            ),
    ensures
        rows@.map_values(|v: Vec<i64>| v@) == bind_values(
            vals@,
            binds,
            b.stmts@.skip(i as int + 1),
            b.result@,
            env@,
        ),
    decreases b.stmts@.len() - i, vals@.len(),
{
    let ghost gvals = vals@;
    let n_st = b.stmts.len();
    let mut rows: Vec<Vec<i64>> = Vec::new();
    let mut j: usize = 0;
    proof {
        assert(b.stmts@.len() == n_st as int);
        assert(rows@.map_values(|v: Vec<i64>| v@) =~= Seq::<Seq<i64>>::empty());
        assert(gvals.take(0) =~= Seq::<i64>::empty());
    }
    while j < vals.len()
        invariant
            j <= vals.len(),
            i < b.stmts@.len(),
            b.stmts@.len() == n_st as int,
            vals@ == gvals,
            wf_stmts(
                b.stmts@.skip(i as int + 1),
                env@.len() as nat + if binds {
                    1nat
                } else {
                    0nat
                },
            ),
            forall|k: int|
                0 <= k < b.result@.len() ==> wf_expr(
                    #[trigger] b.result@[k],
                    binders_total(
                        b.stmts@.skip(i as int + 1),
                        env@.len() as nat + if binds {
                            1nat
                        } else {
                            0nat
                        },
                    ),
                ),
            rows@.map_values(|v: Vec<i64>| v@) == bind_values(
                gvals.take(j as int),
                binds,
                b.stmts@.skip(i as int + 1),
                b.result@,
                env@,
            ),
        decreases vals@.len() - j,
    {
        let v = vals[j];
        let mut env2 = copy_env(&env);
        if binds {
            env2.push(v);
        }
        let mut branch = run_block(b, i + 1, env2);
        let ghost gbranch = branch;
        rows.append(&mut branch);
        proof {
            lemma_bind_values_snoc(
                gvals.take(j as int),
                v,
                binds,
                b.stmts@.skip(i as int + 1),
                b.result@,
                env@,
            );
            assert(gvals.take(j as int).push(v) =~= gvals.take(j as int + 1));
            assert(rows@.map_values(|v2: Vec<i64>| v2@) =~= bind_values(
                gvals.take(j as int),
                binds,
                b.stmts@.skip(i as int + 1),
                b.result@,
                env@,
            ) + gbranch@.map_values(|v2: Vec<i64>| v2@));
        }
        j = j + 1;
    }
    proof {
        assert(gvals.take(gvals.len() as int) =~= gvals);
    }
    rows
}

/// Expand a block over the multi-result effect: check it, then produce the
/// rows of its semantics under the empty environment. A block that reads an
/// unbound slot is refused, and only such a block is.
pub fn expand(b: &Block) -> (r: Result<Vec<Vec<i64>>, ExpandError>)
    ensures
        match r {
            Ok(rows) => wf_block(*b) && rows@.map_values(|v: Vec<i64>| v@) == block_sem(
                b.stmts@,
                b.result@,
                Seq::empty(),
            ),
            Err(_) => !wf_block(*b),
        },
{
    if !check_block(b) {
        return Err(ExpandError::UnboundVar);
    }
    proof {
        assert(b.stmts@.skip(0) =~= b.stmts@);
    }
    let rows = run_block(b, 0, Vec::new());
    Ok(rows)
}

// ----- the comprehension law -----

/// Comprehension equivalence: binding every value of a source, guarding by a
/// condition on the bound value, and producing a result tuple from it equals
/// filtering the source by the condition and mapping the tuple over what is
/// left.
pub proof fn lemma_comprehension_equivalence(vals: Seq<i64>, c: Cond, res: Seq<Expr>)
    ensures
        bind_values(vals, true, seq![Statement::Guard(c)], res, Seq::empty())
            == vals.filter(|v: i64| eval_cond(c, seq![v])).map_values(
            |v: i64| eval_tuple(res, seq![v]),
        ),
    decreases vals.len(),
{
    let pred = |v: i64| eval_cond(c, seq![v]);
    let tup = |v: i64| eval_tuple(res, seq![v]);
    if vals.len() == 0 {
        reveal(Seq::filter);
        assert(vals.filter(pred) =~= Seq::<i64>::empty());
        assert(vals.filter(pred).map_values(tup) =~= Seq::<Seq<i64>>::empty());
    } else {
        let v0 = vals[0];
        let tail = vals.skip(1);
        lemma_comprehension_equivalence(tail, c, res);
        assert(Seq::<i64>::empty().push(v0) =~= seq![v0]);
        let guard_rows = block_sem(seq![Statement::Guard(c)], res, seq![v0]);
        assert(seq![Statement::Guard(c)][0] == Statement::Guard(c));
        assert(seq![Statement::Guard(c)].skip(1) =~= Seq::<Statement>::empty());
        assert(block_sem(Seq::<Statement>::empty(), res, seq![v0]) == seq![
            eval_tuple(res, seq![v0]),
        ]);
        if eval_cond(c, seq![v0]) {
            assert(guard_rows == seq![eval_tuple(res, seq![v0])]);
        } else {
            assert(guard_rows == Seq::<Seq<i64>>::empty());
        }
        assert(seq![v0] + tail =~= vals);
        Seq::filter_distributes_over_add(seq![v0], tail, pred);
        reveal_with_fuel(Seq::filter, 2);
        assert(seq![v0].drop_last() =~= Seq::<i64>::empty());
        assert(seq![v0].last() == v0);
        assert(Seq::<i64>::empty().filter(pred) == Seq::<i64>::empty());
        assert(seq![v0].filter(pred) == if pred(v0) {
            seq![v0]
        } else {
            Seq::<i64>::empty()
        });
        assert(vals.filter(pred) == seq![v0].filter(pred) + tail.filter(pred));
        assert(vals.filter(pred).map_values(tup) =~= seq![v0].filter(pred).map_values(tup)
            + tail.filter(pred).map_values(tup));
        if pred(v0) {
            assert(seq![v0].filter(pred).map_values(tup) =~= seq![tup(v0)]);
            assert(guard_rows =~= seq![tup(v0)]);
        } else {
            assert(seq![v0].filter(pred).map_values(tup) =~= Seq::<Seq<i64>>::empty());
        }
        assert(bind_values(vals, true, seq![Statement::Guard(c)], res, Seq::empty())
            =~= guard_rows + bind_values(tail, true, seq![Statement::Guard(c)], res, Seq::empty()));
        assert(bind_values(vals, true, seq![Statement::Guard(c)], res, Seq::empty())
            =~= vals.filter(pred).map_values(tup));
    }
}

/// The same law, at the level of a whole bind-guard-result block.
pub proof fn lemma_comprehension_block(m: MExpr, c: Cond, res: Seq<Expr>)
    ensures
        block_sem(seq![Statement::Bind(m), Statement::Guard(c)], res, Seq::empty())
            == eval_mexpr(m, Seq::empty()).filter(|v: i64| eval_cond(c, seq![v])).map_values(
            |v: i64| eval_tuple(res, seq![v]),
        ),
{
    let stmts = seq![Statement::Bind(m), Statement::Guard(c)];
    assert(stmts.skip(1) =~= seq![Statement::Guard(c)]);
    assert(Seq::<i64>::empty().push(0i64) =~= seq![0i64]);
    lemma_comprehension_equivalence(eval_mexpr(m, Seq::empty()), c, res);
}

// ----- the reader notation: ask, pure bindings and let bindings -----

/// One statement of a reader block; every statement binds the next slot.
pub enum RdStatement {
    /// `v <- ask()`: bind the environment.
    BindAsk,
    /// `v <- pure e`: bind the value of `e`.
    BindPure(Expr),
    /// `let v = e`: bind the value of `e`.
    Let(Expr),
}

/// An ordered reader statement list closed by one result expression.
pub struct RdBlock {
    pub stmts: Vec<RdStatement>,
    pub result: Expr,
}

/// The value a reader block produces under an environment of bound slots and
/// the reader environment `e`.
pub open spec fn rd_block_sem(stmts: Seq<RdStatement>, res: Expr, env: Seq<i64>, e: i64) -> i64
    decreases stmts.len(),
{
    if stmts.len() == 0 {
        eval_expr(res, env)
    } else {
        let v = match stmts[0] {
            RdStatement::BindAsk => e,
            RdStatement::BindPure(x) => eval_expr(x, env),
            RdStatement::Let(x) => eval_expr(x, env),
        };
        rd_block_sem(stmts.skip(1), res, env.push(v), e)
    }
}

pub open spec fn wf_rd_stmts(stmts: Seq<RdStatement>, nbound: nat) -> bool
    decreases stmts.len(),
{
    if stmts.len() == 0 {
        true
    } else {
        let ok = match stmts[0] {
            RdStatement::BindAsk => true,
            RdStatement::BindPure(x) => wf_expr(x, nbound),
            RdStatement::Let(x) => wf_expr(x, nbound),
        };
        ok && wf_rd_stmts(stmts.skip(1), nbound + 1)
    }
}

pub open spec fn wf_rd_block(b: RdBlock) -> bool {
    wf_rd_stmts(b.stmts@, 0) && wf_expr(b.result, b.stmts@.len() as nat)
}

fn check_rd_stmts(stmts: &Vec<RdStatement>, i: usize, nbound: usize) -> (r: bool)
    requires
        i <= stmts@.len(),
        nbound as int == i as int,
    ensures
        r == wf_rd_stmts(stmts@.skip(i as int), nbound as nat),
    decreases stmts@.len() - i,
{
    if i == stmts.len() {
        proof {
            assert(stmts@.skip(i as int) =~= Seq::<RdStatement>::empty());
        }
        true
    } else {
        proof {
            assert(stmts@.skip(i as int)[0] == stmts@[i as int]);
            assert(stmts@.skip(i as int).skip(1) =~= stmts@.skip(i as int + 1));
        }
        let ok = match &stmts[i] {
            RdStatement::BindAsk => true,
            RdStatement::BindPure(x) => check_expr(x, nbound),
            RdStatement::Let(x) => check_expr(x, nbound),
        };
        ok && check_rd_stmts(stmts, i + 1, nbound + 1)
    }
}

fn run_rd_block(b: &RdBlock, i: usize, env: Vec<i64>, e: i64) -> (a: i64)
    requires
        i <= b.stmts@.len(),
        env@.len() == i as int,
        wf_rd_stmts(b.stmts@.skip(i as int), env@.len() as nat),
        wf_expr(b.result, b.stmts@.len() as nat),
    ensures
        a == rd_block_sem(b.stmts@.skip(i as int), b.result, env@, e),
    decreases b.stmts@.len() - i,
{
    if i == b.stmts.len() {
        proof {
            assert(b.stmts@.skip(i as int) =~= Seq::<RdStatement>::empty());
        }
        eval_expr_x(&b.result, &env)
    } else {
        proof {
            assert(b.stmts@.skip(i as int)[0] == b.stmts@[i as int]);
            assert(b.stmts@.skip(i as int).skip(1) =~= b.stmts@.skip(i as int + 1));
        }
        let v = match &b.stmts[i] {
            RdStatement::BindAsk => e,
            RdStatement::BindPure(x) => eval_expr_x(x, &env),
            RdStatement::Let(x) => eval_expr_x(x, &env),
        };
        let mut env2 = env;
        env2.push(v);
        run_rd_block(b, i + 1, env2, e)
    }
}

/// Expand a reader block into a Reader computation: driving the computation
/// with an environment yields the value of the block's semantics. A block
/// that reads an unbound slot is refused, and only such a block is.
pub fn expand_reader(b: RdBlock) -> (r: Result<
    crate::reader::Reader<i64, i64, impl FnOnce(i64) -> i64>,
    ExpandError,
>)
    ensures
        match r {
            Ok(rdr) => {
                &&& wf_rd_block(b)
                &&& forall|e: i64| #[trigger] call_requires(rdr.run_reader, (e,))
                &&& forall|e: i64, a: i64|
                    call_ensures(rdr.run_reader, (e,), a) ==> a == rd_block_sem(
                        b.stmts@,
                        b.result,
                        Seq::empty(),
                        e,
                    )
            },
            Err(_) => !wf_rd_block(b),
        },
{
    proof {
        assert(b.stmts@.skip(0) =~= b.stmts@);
    }
    if !(check_rd_stmts(&b.stmts, 0, 0) && check_expr(&b.result, b.stmts.len())) {
        return Err(ExpandError::UnboundVar);
    }
    let ghost gb = b;
    Ok(
        crate::reader::Reader {
            run_reader: (move |e: i64| -> (a: i64)
                ensures
                    a == rd_block_sem(gb.stmts@, gb.result, Seq::empty(), e),
                {
                    proof {
                        assert(b.stmts@.skip(0) =~= b.stmts@);
                    }
                    run_rd_block(&b, 0, Vec::new(), e)
                }),
            phantom: core::marker::PhantomData,
        },
    )
}

// ----- the state notation: get, put, pure bindings and let bindings -----

/// One statement of a state block; all but `Put` bind the next slot.
pub enum StStatement {
    /// `v <- get()`: bind the current state.
    BindGet,
    /// `_ <- put(e)`: replace the state with the value of `e`.
    Put(Expr),
    /// `v <- pure e`: bind the value of `e`.
    BindPure(Expr),
    /// `let v = e`: bind the value of `e`.
    Let(Expr),
}

/// An ordered state statement list closed by one result expression.
pub struct StBlock {
    pub stmts: Vec<StStatement>,
    pub result: Expr,
}

/// Whether a state statement binds the next slot.
pub open spec fn st_stmt_binds(s: StStatement) -> bool {
    match s {
        StStatement::BindGet => true,
        StStatement::Put(_) => false,
        StStatement::BindPure(_) => true,
        StStatement::Let(_) => true,
    }
}

/// The `(result, final state)` pair a state block produces, threading the
/// state strictly left to right.
pub open spec fn st_block_sem(stmts: Seq<StStatement>, res: Expr, env: Seq<i64>, s: i64) -> (
    i64,
    i64,
)
    decreases stmts.len(),
{
    if stmts.len() == 0 {
        (eval_expr(res, env), s)
    } else {
        match stmts[0] {
            StStatement::BindGet => st_block_sem(stmts.skip(1), res, env.push(s), s),
            StStatement::Put(x) => st_block_sem(stmts.skip(1), res, env, eval_expr(x, env)),
            StStatement::BindPure(x) => st_block_sem(
                stmts.skip(1),
                res,
                env.push(eval_expr(x, env)),
                s,
            ),
            StStatement::Let(x) => st_block_sem(stmts.skip(1), res, env.push(eval_expr(x, env)), s),
        }
    }
}

pub open spec fn wf_st_stmts(stmts: Seq<StStatement>, nbound: nat) -> bool
    decreases stmts.len(),
{
    if stmts.len() == 0 {
        true
    } else {
        let ok = match stmts[0] {
            StStatement::BindGet => true,
            StStatement::Put(x) => wf_expr(x, nbound),
            StStatement::BindPure(x) => wf_expr(x, nbound),
            StStatement::Let(x) => wf_expr(x, nbound),
        };
        ok && wf_st_stmts(
            stmts.skip(1),
            nbound + if st_stmt_binds(stmts[0]) {
                1nat
            } else {
                0nat
            },
        )
    }
}

/// The number of slots a state block has bound once all statements have run.
pub open spec fn st_binders_total(stmts: Seq<StStatement>, nbound: nat) -> nat
    decreases stmts.len(),
{
    if stmts.len() == 0 {
        nbound
    } else {
        st_binders_total(
            stmts.skip(1),
            nbound + if st_stmt_binds(stmts[0]) {
                1nat
            } else {
                0nat
            },
        )
    }
}

pub open spec fn wf_st_block(b: StBlock) -> bool {
    wf_st_stmts(b.stmts@, 0) && wf_expr(b.result, st_binders_total(b.stmts@, 0))
}

fn check_st_stmts(stmts: &Vec<StStatement>, i: usize, nbound: usize) -> (r: (bool, usize))
    requires
        i <= stmts@.len(),
        nbound as int <= i as int,
    ensures
        r.0 == wf_st_stmts(stmts@.skip(i as int), nbound as nat),
        r.1 as nat == st_binders_total(stmts@.skip(i as int), nbound as nat),
    decreases stmts@.len() - i,
{
    if i == stmts.len() {
        proof {
            assert(stmts@.skip(i as int) =~= Seq::<StStatement>::empty());
        }
        (true, nbound)
    } else {
        proof {
            assert(stmts@.skip(i as int)[0] == stmts@[i as int]);
            assert(stmts@.skip(i as int).skip(1) =~= stmts@.skip(i as int + 1));
        }
        let ok = match &stmts[i] {
            StStatement::BindGet => true,
            StStatement::Put(x) => check_expr(x, nbound),
            StStatement::BindPure(x) => check_expr(x, nbound),
            StStatement::Let(x) => check_expr(x, nbound),
        };
        let nb2 = match &stmts[i] {
            StStatement::BindGet => nbound + 1,
            StStatement::Put(_) => nbound,
            StStatement::BindPure(_) => nbound + 1,
            StStatement::Let(_) => nbound + 1,
        };
        let (ok_rest, total) = check_st_stmts(stmts, i + 1, nb2);
        (ok && ok_rest, total)
    }
}

fn run_st_block(b: &StBlock, i: usize, env: Vec<i64>, s: i64) -> (p: (i64, i64))
    requires
        i <= b.stmts@.len(),
        wf_st_stmts(b.stmts@.skip(i as int), env@.len() as nat),
        wf_expr(b.result, st_binders_total(b.stmts@.skip(i as int), env@.len() as nat)),
    ensures
        p == st_block_sem(b.stmts@.skip(i as int), b.result, env@, s),
    decreases b.stmts@.len() - i,
{
    if i == b.stmts.len() {
        proof {
            assert(b.stmts@.skip(i as int) =~= Seq::<StStatement>::empty());
        }
        (eval_expr_x(&b.result, &env), s)
    } else {
        proof {
            assert(b.stmts@.skip(i as int)[0] == b.stmts@[i as int]);
            assert(b.stmts@.skip(i as int).skip(1) =~= b.stmts@.skip(i as int + 1));
        }
        match &b.stmts[i] {
            StStatement::BindGet => {
                let mut env2 = env;
                env2.push(s);
                run_st_block(b, i + 1, env2, s)
            },
            StStatement::Put(x) => {
                let s2 = eval_expr_x(x, &env);
                run_st_block(b, i + 1, env, s2)
            },
            StStatement::BindPure(x) => {
                let v = eval_expr_x(x, &env);
                let mut env2 = env;
                env2.push(v);
                run_st_block(b, i + 1, env2, s)
            },
            StStatement::Let(x) => {
                let v = eval_expr_x(x, &env);
                let mut env2 = env;
                env2.push(v);
                run_st_block(b, i + 1, env2, s)
            },
        }
    }
}

/// Expand a state block into a State computation: driving the computation
/// with an initial state yields the `(result, final state)` pair of the
/// block's semantics. A block that reads an unbound slot is refused, and only
/// such a block is.
pub fn expand_state(b: StBlock) -> (r: Result<
    crate::state::State<i64, i64, impl FnOnce(i64) -> (i64, i64)>,
    ExpandError,
>)
    ensures
        match r {
            Ok(st) => {
                &&& wf_st_block(b)
                &&& forall|s: i64| #[trigger] call_requires(st.run_state, (s,))
                &&& forall|s: i64, p: (i64, i64)|
                    call_ensures(st.run_state, (s,), p) ==> p == st_block_sem(
                        b.stmts@,
                        b.result,
                        Seq::empty(),
                        s,
                    )
            },
            Err(_) => !wf_st_block(b),
        },
{
    proof {
        assert(b.stmts@.skip(0) =~= b.stmts@);
    }
    let (ok, total) = check_st_stmts(&b.stmts, 0, 0);
    if !(ok && check_expr(&b.result, total)) {
        return Err(ExpandError::UnboundVar);
    }
    let ghost gb = b;
    Ok(
        crate::state::State {
            run_state: (move |s: i64| -> (p: (i64, i64))
                ensures
                    p == st_block_sem(gb.stmts@, gb.result, Seq::empty(), s),
                {
                    proof {
                        assert(b.stmts@.skip(0) =~= b.stmts@);
                    }
                    run_st_block(&b, 0, Vec::new(), s)
                }),
            phantom: core::marker::PhantomData,
        },
    )
}

// ----- the writer notation: tell, pure bindings and let bindings -----

/// One statement of a writer block; all but `Tell` bind the next slot.
pub enum WrStatement {
    /// `_ <- tell(e)`: append the value of `e` to the log.
    Tell(Expr),
    /// `v <- pure e`: bind the value of `e`.
    BindPure(Expr),
    /// `let v = e`: bind the value of `e`.
    Let(Expr),
}

/// An ordered writer statement list closed by one result expression.
pub struct WrBlock {
    pub stmts: Vec<WrStatement>,
    pub result: Expr,
}

/// Whether a writer statement binds the next slot.
pub open spec fn wr_stmt_binds(s: WrStatement) -> bool {
    match s {
        WrStatement::Tell(_) => false,
        WrStatement::BindPure(_) => true,
        WrStatement::Let(_) => true,
    }
}

/// The `(result, log)` pair a writer block produces, the log accumulated
/// left to right.
pub open spec fn wr_block_sem(stmts: Seq<WrStatement>, res: Expr, env: Seq<i64>, log: Seq<i64>) -> (
    i64,
    Seq<i64>,
)
    decreases stmts.len(),
{
    if stmts.len() == 0 {
        (eval_expr(res, env), log)
    } else {
        match stmts[0] {
            WrStatement::Tell(x) => wr_block_sem(
                stmts.skip(1),
                res,
                env,
                log.push(eval_expr(x, env)),
            ),
            WrStatement::BindPure(x) => wr_block_sem(
                stmts.skip(1),
                res,
                env.push(eval_expr(x, env)),
                log,
            ),
            WrStatement::Let(x) => wr_block_sem(
                stmts.skip(1),
                res,
                env.push(eval_expr(x, env)),
                log,
            ),
        }
    }
}

pub open spec fn wf_wr_stmts(stmts: Seq<WrStatement>, nbound: nat) -> bool
    decreases stmts.len(),
{
    if stmts.len() == 0 {
        true
    } else {
        let ok = match stmts[0] {
            WrStatement::Tell(x) => wf_expr(x, nbound),
            WrStatement::BindPure(x) => wf_expr(x, nbound),
            WrStatement::Let(x) => wf_expr(x, nbound),
        };
        ok && wf_wr_stmts(
            stmts.skip(1),
            nbound + if wr_stmt_binds(stmts[0]) {
                1nat
            } else {
                0nat
            },
        )
    }
}

/// The number of slots a writer block has bound once all statements have run.
pub open spec fn wr_binders_total(stmts: Seq<WrStatement>, nbound: nat) -> nat
    decreases stmts.len(),
{
    if stmts.len() == 0 {
        nbound
    } else {
        wr_binders_total(
            stmts.skip(1),
            nbound + if wr_stmt_binds(stmts[0]) {
                1nat
            } else {
                0nat
            },
        )
    }
}

pub open spec fn wf_wr_block(b: WrBlock) -> bool {
    wf_wr_stmts(b.stmts@, 0) && wf_expr(b.result, wr_binders_total(b.stmts@, 0))
}

fn check_wr_stmts(stmts: &Vec<WrStatement>, i: usize, nbound: usize) -> (r: (bool, usize))
    requires
        i <= stmts@.len(),
        nbound as int <= i as int,
    ensures
        r.0 == wf_wr_stmts(stmts@.skip(i as int), nbound as nat),
        r.1 as nat == wr_binders_total(stmts@.skip(i as int), nbound as nat),
    decreases stmts@.len() - i,
{
    if i == stmts.len() {
        proof {
            assert(stmts@.skip(i as int) =~= Seq::<WrStatement>::empty());
        }
        (true, nbound)
    } else {
        proof {
            assert(stmts@.skip(i as int)[0] == stmts@[i as int]);
            assert(stmts@.skip(i as int).skip(1) =~= stmts@.skip(i as int + 1));
        }
        let ok = match &stmts[i] {
            WrStatement::Tell(x) => check_expr(x, nbound),
            WrStatement::BindPure(x) => check_expr(x, nbound),
            WrStatement::Let(x) => check_expr(x, nbound),
        };
        let nb2 = match &stmts[i] {
            WrStatement::Tell(_) => nbound,
            WrStatement::BindPure(_) => nbound + 1,
            WrStatement::Let(_) => nbound + 1,
        };
        let (ok_rest, total) = check_wr_stmts(stmts, i + 1, nb2);
        (ok && ok_rest, total)
    }
}

fn run_wr_block(b: &WrBlock, i: usize, env: Vec<i64>, log: Vec<i64>) -> (p: (i64, Vec<i64>))
    requires
        i <= b.stmts@.len(),
        wf_wr_stmts(b.stmts@.skip(i as int), env@.len() as nat),
        wf_expr(b.result, wr_binders_total(b.stmts@.skip(i as int), env@.len() as nat)),
    ensures
        p.0 == wr_block_sem(b.stmts@.skip(i as int), b.result, env@, log@).0,
        p.1@ == wr_block_sem(b.stmts@.skip(i as int), b.result, env@, log@).1,
    decreases b.stmts@.len() - i,
{
    if i == b.stmts.len() {
        proof {
            assert(b.stmts@.skip(i as int) =~= Seq::<WrStatement>::empty());
        }
        (eval_expr_x(&b.result, &env), log)
    } else {
        proof {
            assert(b.stmts@.skip(i as int)[0] == b.stmts@[i as int]);
            assert(b.stmts@.skip(i as int).skip(1) =~= b.stmts@.skip(i as int + 1));
        }
        match &b.stmts[i] {
            WrStatement::Tell(x) => {
                let v = eval_expr_x(x, &env);
                let mut log2 = log;
                log2.push(v);
                run_wr_block(b, i + 1, env, log2)
            },
            WrStatement::BindPure(x) => {
                let v = eval_expr_x(x, &env);
                let mut env2 = env;
                env2.push(v);
                run_wr_block(b, i + 1, env2, log)
            },
            WrStatement::Let(x) => {
                let v = eval_expr_x(x, &env);
                let mut env2 = env;
                env2.push(v);
                run_wr_block(b, i + 1, env2, log)
            },
        }
    }
}

/// Expand a writer block into a Writer computation over an integer log: the
/// result and log are those of the block's semantics. A block that reads an
/// unbound slot is refused, and only such a block is.
pub fn expand_writer(b: &WrBlock) -> (r: Result<crate::writer::Writer<i64, Vec<i64>>, ExpandError>)
    ensures
        match r {
            Ok(w) => {
                &&& wf_wr_block(*b)
                &&& w.run_writer.0 == wr_block_sem(b.stmts@, b.result, Seq::empty(), Seq::empty()).0
                &&& w.run_writer.1@ == wr_block_sem(
                    b.stmts@,
                    b.result,
                    Seq::empty(),
                    Seq::empty(),
                ).1
            },
            Err(_) => !wf_wr_block(*b),
        },
{
    proof {
        assert(b.stmts@.skip(0) =~= b.stmts@);
    }
    let (ok, total) = check_wr_stmts(&b.stmts, 0, 0);
    if !(ok && check_expr(&b.result, total)) {
        return Err(ExpandError::UnboundVar);
    }
    let (a, log) = run_wr_block(b, 0, Vec::new(), Vec::new());
    Ok(crate::writer::Writer { run_writer: (a, log) })
}

// ----- the state-transformer notation: get, put, lift, guard and bindings -----

/// One statement of a state-transformer block. `LiftIter`, `BindGet` and the
/// pure and let bindings bind the next slot; `Put` and `Guard` bind nothing.
pub enum SttStatement {
    /// `v <- lift_iter m`: bind each value the source produces in turn, the
    /// branch state threading on independently per value.
    LiftIter(MExpr),
    /// `guard c`: collapse this branch to the zero computation unless `c`
    /// holds.
    Guard(Cond),
    /// `v <- get()`: bind the current branch state.
    BindGet,
    /// `_ <- put(e)`: replace the branch state with the value of `e`.
    Put(Expr),
    /// `v <- pure e`: bind the value of `e`.
    BindPure(Expr),
    /// `let v = e`: bind the value of `e`.
    Let(Expr),
}

/// An ordered state-transformer statement list closed by one result
/// expression.
pub struct SttBlock {
    pub stmts: Vec<SttStatement>,
    pub result: Expr,
}

/// Whether a state-transformer statement binds the next slot.
pub open spec fn stt_stmt_binds(s: SttStatement) -> bool {
    match s {
        SttStatement::LiftIter(_) => true,
        SttStatement::Guard(_) => false,
        SttStatement::BindGet => true,
        SttStatement::Put(_) => false,
        SttStatement::BindPure(_) => true,
        SttStatement::Let(_) => true,
    }
}

/// The `(result, final state)` pairs a state-transformer block produces:
/// every binding over a source forks one branch per value, and each branch
/// threads its own state from there on.
pub open spec fn stt_block_sem(stmts: Seq<SttStatement>, res: Expr, env: Seq<i64>, s: i64) -> Seq<
    (i64, i64),
>
    decreases stmts.len(), 0nat,
{
    if stmts.len() == 0 {
        seq![(eval_expr(res, env), s)]
    } else {
        let rest = stmts.skip(1);
        match stmts[0] {
            SttStatement::LiftIter(m) => stt_bind_values(eval_mexpr(m, env), rest, res, env, s),
            SttStatement::Guard(c) => if eval_cond(c, env) {
                stt_block_sem(rest, res, env, s)
            } else {
                Seq::empty()
            },
            SttStatement::BindGet => stt_block_sem(rest, res, env.push(s), s),
            SttStatement::Put(x) => stt_block_sem(rest, res, env, eval_expr(x, env)),
            SttStatement::BindPure(x) => stt_block_sem(rest, res, env.push(eval_expr(x, env)), s),
            SttStatement::Let(x) => stt_block_sem(rest, res, env.push(eval_expr(x, env)), s),
        }
    }
}

/// The bind of the state-transformer over the rest of a block: the pairs of
/// the continuation for each value in turn, concatenated, every branch
/// starting from the same state.
pub open spec fn stt_bind_values(
    vals: Seq<i64>,
    stmts: Seq<SttStatement>,
    res: Expr,
    env: Seq<i64>,
    s: i64,
) -> Seq<(i64, i64)>
    decreases stmts.len(), vals.len() + 1,
{
    if vals.len() == 0 {
        Seq::empty()
    } else {
        stt_block_sem(stmts, res, env.push(vals[0]), s) + stt_bind_values(
            vals.skip(1),
            stmts,
            res,
            env,
            s,
        )
    }
}

pub open spec fn wf_stt_stmts(stmts: Seq<SttStatement>, nbound: nat) -> bool
    decreases stmts.len(),
{
    if stmts.len() == 0 {
        true
    } else {
        let ok = match stmts[0] {
            SttStatement::LiftIter(m) => wf_mexpr(m, nbound),
            SttStatement::Guard(c) => wf_cond(c, nbound),
            SttStatement::BindGet => true,
            SttStatement::Put(x) => wf_expr(x, nbound),
            SttStatement::BindPure(x) => wf_expr(x, nbound),
            SttStatement::Let(x) => wf_expr(x, nbound),
        };
        ok && wf_stt_stmts(
            stmts.skip(1),
            nbound + if stt_stmt_binds(stmts[0]) {
                1nat
            } else {
                0nat
            },
        )
    }
}

/// The number of slots a state-transformer block has bound once all
/// statements have run.
pub open spec fn stt_binders_total(stmts: Seq<SttStatement>, nbound: nat) -> nat
    decreases stmts.len(),
{
    if stmts.len() == 0 {
        nbound
    } else {
        stt_binders_total(
            stmts.skip(1),
            nbound + if stt_stmt_binds(stmts[0]) {
                1nat
            } else {
                0nat
            },
        )
    }
}

pub open spec fn wf_stt_block(b: SttBlock) -> bool {
    wf_stt_stmts(b.stmts@, 0) && wf_expr(b.result, stt_binders_total(b.stmts@, 0))
}

fn check_stt_stmts(stmts: &Vec<SttStatement>, i: usize, nbound: usize) -> (r: (bool, usize))
    requires
        i <= stmts@.len(),
        nbound as int <= i as int,
    ensures
        r.0 == wf_stt_stmts(stmts@.skip(i as int), nbound as nat),
        r.1 as nat == stt_binders_total(stmts@.skip(i as int), nbound as nat),
    decreases stmts@.len() - i,
{
    if i == stmts.len() {
        proof {
            assert(stmts@.skip(i as int) =~= Seq::<SttStatement>::empty());
        }
        (true, nbound)
    } else {
        proof {
            assert(stmts@.skip(i as int)[0] == stmts@[i as int]);
            assert(stmts@.skip(i as int).skip(1) =~= stmts@.skip(i as int + 1));
        }
        let ok = match &stmts[i] {
            SttStatement::LiftIter(m) => match m {
                MExpr::Range(lo, hi) => check_expr(lo, nbound) && check_expr(hi, nbound),
                MExpr::Items(_) => true,
            },
            SttStatement::Guard(c) => check_cond(c, nbound),
            SttStatement::BindGet => true,
            SttStatement::Put(x) => check_expr(x, nbound),
            SttStatement::BindPure(x) => check_expr(x, nbound),
            SttStatement::Let(x) => check_expr(x, nbound),
        };
        let nb2 = match &stmts[i] {
            SttStatement::LiftIter(_) => nbound + 1,
            SttStatement::Guard(_) => nbound,
            SttStatement::BindGet => nbound + 1,
            SttStatement::Put(_) => nbound,
            SttStatement::BindPure(_) => nbound + 1,
            SttStatement::Let(_) => nbound + 1,
        };
        let (ok_rest, total) = check_stt_stmts(stmts, i + 1, nb2);
        (ok && ok_rest, total)
    }
}

/// Binding one more value at the end appends the pairs of its branch.
proof fn lemma_stt_bind_values_snoc(
    vals: Seq<i64>,
    v: i64,
    stmts: Seq<SttStatement>,
    res: Expr,
    env: Seq<i64>,
    s: i64,
)
    ensures
        stt_bind_values(vals.push(v), stmts, res, env, s) == stt_bind_values(
            vals,
            stmts,
            res,
            env,
            s,
        ) + stt_block_sem(stmts, res, env.push(v), s),
    decreases vals.len(),
{
    if vals.len() == 0 {
        assert(vals.push(v).skip(1) =~= Seq::<i64>::empty());
        assert(stt_bind_values(vals, stmts, res, env, s) + stt_block_sem(stmts, res, env.push(v), s)
            =~= stt_block_sem(stmts, res, env.push(v), s));
        assert(stt_block_sem(stmts, res, env.push(v), s) + stt_bind_values(
            vals.push(v).skip(1),
            stmts,
            res,
            env,
            s,
        ) =~= stt_block_sem(stmts, res, env.push(v), s));
    } else {
        assert(vals.push(v).skip(1) =~= vals.skip(1).push(v));
        lemma_stt_bind_values_snoc(vals.skip(1), v, stmts, res, env, s);
        assert(stt_bind_values(vals.push(v), stmts, res, env, s) =~= stt_bind_values(
            vals,
            stmts,
            res,
            env,
            s,
        ) + stt_block_sem(stmts, res, env.push(v), s));
    }
}

/// Run the statements of `b` from position `i` under `env`, the branch state
/// being `s`, producing the pairs of `stt_block_sem`.
fn run_stt_block(b: &SttBlock, i: usize, env: Vec<i64>, s: i64) -> (pairs: Vec<(i64, i64)>)
    requires
        i <= b.stmts@.len(),
        wf_stt_stmts(b.stmts@.skip(i as int), env@.len() as nat),
        wf_expr(b.result, stt_binders_total(b.stmts@.skip(i as int), env@.len() as nat)),
    ensures
        pairs@ == stt_block_sem(b.stmts@.skip(i as int), b.result, env@, s),
    decreases b.stmts@.len() - i, 1nat,
{
    if i == b.stmts.len() {
        proof {
            assert(b.stmts@.skip(i as int) =~= Seq::<SttStatement>::empty());
        }
        let a = eval_expr_x(&b.result, &env);
        let mut pairs: Vec<(i64, i64)> = Vec::new();
        pairs.push((a, s));
        proof {
            assert(pairs@ =~= seq![(eval_expr(b.result, env@), s)]);
        }
        pairs
    } else {
        proof {
            assert(b.stmts@.skip(i as int)[0] == b.stmts@[i as int]);
            assert(b.stmts@.skip(i as int).skip(1) =~= b.stmts@.skip(i as int + 1));
        }
        match &b.stmts[i] {
            SttStatement::LiftIter(m) => {
                let vals = eval_mexpr_x(m, &env);
                stt_bind_loop(b, i, env, vals, s)
            },
            SttStatement::Guard(c) => {
                if eval_cond_x(c, &env) {
                    run_stt_block(b, i + 1, env, s)
                } else {
                    let pairs: Vec<(i64, i64)> = Vec::new();
                    proof {
                        assert(pairs@ =~= Seq::<(i64, i64)>::empty());
                    }
                    pairs
                }
            },
            SttStatement::BindGet => {
                let mut env2 = env;
                env2.push(s);
                run_stt_block(b, i + 1, env2, s)
            },
            SttStatement::Put(x) => {
                let s2 = eval_expr_x(x, &env);
                run_stt_block(b, i + 1, env, s2)
            },
            SttStatement::BindPure(x) => {
                let v = eval_expr_x(x, &env);
                let mut env2 = env;
                env2.push(v);
                run_stt_block(b, i + 1, env2, s)
            },
            SttStatement::Let(x) => {
                let v = eval_expr_x(x, &env);
                let mut env2 = env;
                env2.push(v);
                run_stt_block(b, i + 1, env2, s)
            },
        }
    }
}

/// The bind step of `run_stt_block`: expand the rest of the block once per
/// value, every branch starting from the same state.
fn stt_bind_loop(b: &SttBlock, i: usize, env: Vec<i64>, vals: Vec<i64>, s: i64) -> (pairs: Vec<
    (i64, i64),
>)
    requires
        i < b.stmts@.len(),
        wf_stt_stmts(b.stmts@.skip(i as int + 1), env@.len() as nat + 1),
        wf_expr(
            b.result,
            stt_binders_total(b.stmts@.skip(i as int + 1), env@.len() as nat + 1),
        ),
    ensures
        pairs@ == stt_bind_values(vals@, b.stmts@.skip(i as int + 1), b.result, env@, s),
    decreases b.stmts@.len() - i, 0nat,
{
    let ghost gvals = vals@;
    let n_st = b.stmts.len();
    let mut pairs: Vec<(i64, i64)> = Vec::new();
    let mut j: usize = 0;
    proof {
        assert(b.stmts@.len() == n_st as int);
        assert(pairs@ =~= Seq::<(i64, i64)>::empty());
        assert(gvals.take(0) =~= Seq::<i64>::empty());
        assert(stt_bind_values(gvals.take(0), b.stmts@.skip(i as int + 1), b.result, env@, s)
            =~= Seq::<(i64, i64)>::empty());
    }
    while j < vals.len()
        invariant
            j <= vals.len(),
            i < b.stmts@.len(),
            b.stmts@.len() == n_st as int,
            vals@ == gvals,
            wf_stt_stmts(b.stmts@.skip(i as int + 1), env@.len() as nat + 1),
            wf_expr(
                b.result,
                stt_binders_total(b.stmts@.skip(i as int + 1), env@.len() as nat + 1),
            ),
            pairs@ == stt_bind_values(
                gvals.take(j as int),
                b.stmts@.skip(i as int + 1),
                b.result,
                env@,
                s,
            ),
        decreases vals@.len() - j,
    {
        let v = vals[j];
        let mut env2 = copy_env(&env);
        env2.push(v);
        let mut branch = run_stt_block(b, i + 1, env2, s);
        pairs.append(&mut branch);
        proof {
            lemma_stt_bind_values_snoc(
                gvals.take(j as int),
                v,
                b.stmts@.skip(i as int + 1),
                b.result,
                env@,
                s,
            );
            assert(gvals.take(j as int).push(v) =~= gvals.take(j as int + 1));
        }
        j = j + 1;
    }
    proof {
        assert(gvals.take(gvals.len() as int) =~= gvals);
    }
    pairs
}

/// Expand a state-transformer block into a StateT computation over the
/// multi-result inner effect: driving the computation with an initial state
/// yields the pairs of the block's semantics. A block that reads an unbound
/// slot is refused, and only such a block is.
pub fn expand_state_trans(b: SttBlock) -> (r: Result<
    crate::state_trans::StateT<i64, i64, impl FnOnce(i64) -> Vec<(i64, i64)>>,
    ExpandError,
>)
    ensures
        match r {
            Ok(st) => {
                &&& wf_stt_block(b)
                &&& forall|s: i64| #[trigger] call_requires(st.run_state_t, (s,))
                &&& forall|s: i64, m: Vec<(i64, i64)>|
                    call_ensures(st.run_state_t, (s,), m) ==> m@ == stt_block_sem(
                        b.stmts@,
                        b.result,
                        Seq::empty(),
                        s,
                    )
            },
            Err(_) => !wf_stt_block(b),
        },
{
    proof {
        assert(b.stmts@.skip(0) =~= b.stmts@);
    }
    let (ok, total) = check_stt_stmts(&b.stmts, 0, 0);
    if !(ok && check_expr(&b.result, total)) {
        return Err(ExpandError::UnboundVar);
    }
    let ghost gb = b;
    Ok(
        crate::state_trans::StateT {
            run_state_t: (move |s: i64| -> (m: Vec<(i64, i64)>)
                ensures
                    m@ == stt_block_sem(gb.stmts@, gb.result, Seq::empty(), s),
                {
                    proof {
                        assert(b.stmts@.skip(0) =~= b.stmts@);
                    }
                    run_stt_block(&b, 0, Vec::new(), s)
                }),
            phantom: core::marker::PhantomData,
        },
    )
}

// ----- the reader-transformer notation: ask, lift, guard and bindings -----

/// One statement of a reader-transformer block. All but `Guard` bind the
/// next slot.
pub enum RdtStatement {
    /// `v <- ask()`: bind the environment.
    BindAsk,
    /// `v <- lift_iter m`: bind each value the source produces in turn.
    LiftIter(MExpr),
    /// `guard c`: collapse this branch to the zero computation unless `c`
    /// holds.
    Guard(Cond),
    /// `v <- pure e`: bind the value of `e`.
    BindPure(Expr),
    /// `let v = e`: bind the value of `e`.
    Let(Expr),
}

/// An ordered reader-transformer statement list closed by one result
/// expression.
pub struct RdtBlock {
    pub stmts: Vec<RdtStatement>,
    pub result: Expr,
}

/// Whether a reader-transformer statement binds the next slot.
pub open spec fn rdt_stmt_binds(s: RdtStatement) -> bool {
    match s {
        RdtStatement::BindAsk => true,
        RdtStatement::LiftIter(_) => true,
        RdtStatement::Guard(_) => false,
        RdtStatement::BindPure(_) => true,
        RdtStatement::Let(_) => true,
    }
}

/// The values a reader-transformer block produces: every binding over a
/// source forks one branch per value; all branches read the same, unmodified
/// environment.
pub open spec fn rdt_block_sem(stmts: Seq<RdtStatement>, res: Expr, env: Seq<i64>, e: i64) -> Seq<
    i64,
>
    decreases stmts.len(), 0nat,
{
    if stmts.len() == 0 {
        seq![eval_expr(res, env)]
    } else {
        let rest = stmts.skip(1);
        match stmts[0] {
            RdtStatement::BindAsk => rdt_block_sem(rest, res, env.push(e), e),
            RdtStatement::LiftIter(m) => rdt_bind_values(eval_mexpr(m, env), rest, res, env, e),
            RdtStatement::Guard(c) => if eval_cond(c, env) {
                rdt_block_sem(rest, res, env, e)
            } else {
                Seq::empty()
            },
            RdtStatement::BindPure(x) => rdt_block_sem(rest, res, env.push(eval_expr(x, env)), e),
            RdtStatement::Let(x) => rdt_block_sem(rest, res, env.push(eval_expr(x, env)), e),
        }
    }
}

/// The bind of the reader-transformer over the rest of a block: the values of
/// the continuation for each bound value in turn, concatenated.
pub open spec fn rdt_bind_values(
    vals: Seq<i64>,
    stmts: Seq<RdtStatement>,
    res: Expr,
    env: Seq<i64>,
    e: i64,
) -> Seq<i64>
    decreases stmts.len(), vals.len() + 1,
{
    if vals.len() == 0 {
        Seq::empty()
    } else {
        rdt_block_sem(stmts, res, env.push(vals[0]), e) + rdt_bind_values(
            vals.skip(1),
            stmts,
            res,
            env,
            e,
        )
    }
}

pub open spec fn wf_rdt_stmts(stmts: Seq<RdtStatement>, nbound: nat) -> bool
    decreases stmts.len(),
{
    if stmts.len() == 0 {
        true
    } else {
        let ok = match stmts[0] {
            RdtStatement::BindAsk => true,
            RdtStatement::LiftIter(m) => wf_mexpr(m, nbound),
            RdtStatement::Guard(c) => wf_cond(c, nbound),
            RdtStatement::BindPure(x) => wf_expr(x, nbound),
            RdtStatement::Let(x) => wf_expr(x, nbound),
        };
        ok && wf_rdt_stmts(
            stmts.skip(1),
            nbound + if rdt_stmt_binds(stmts[0]) {
                1nat
            } else {
                0nat
            },
        )
    }
}

/// The number of slots a reader-transformer block has bound once all
/// statements have run.
pub open spec fn rdt_binders_total(stmts: Seq<RdtStatement>, nbound: nat) -> nat
    decreases stmts.len(),
{
    if stmts.len() == 0 {
        nbound
    } else {
        rdt_binders_total(
            stmts.skip(1),
            nbound + if rdt_stmt_binds(stmts[0]) {
                1nat
            } else {
                0nat
            },
        )
    }
}

pub open spec fn wf_rdt_block(b: RdtBlock) -> bool {
    wf_rdt_stmts(b.stmts@, 0) && wf_expr(b.result, rdt_binders_total(b.stmts@, 0))
}

fn check_rdt_stmts(stmts: &Vec<RdtStatement>, i: usize, nbound: usize) -> (r: (bool, usize))
    requires
        i <= stmts@.len(),
        nbound as int <= i as int,
    ensures
        r.0 == wf_rdt_stmts(stmts@.skip(i as int), nbound as nat),
        r.1 as nat == rdt_binders_total(stmts@.skip(i as int), nbound as nat),
    decreases stmts@.len() - i,
{
    if i == stmts.len() {
        proof {
            assert(stmts@.skip(i as int) =~= Seq::<RdtStatement>::empty());
        }
        (true, nbound)
    } else {
        proof {
            assert(stmts@.skip(i as int)[0] == stmts@[i as int]);
            assert(stmts@.skip(i as int).skip(1) =~= stmts@.skip(i as int + 1));
        }
        let ok = match &stmts[i] {
            RdtStatement::BindAsk => true,
            RdtStatement::LiftIter(m) => match m {
                MExpr::Range(lo, hi) => check_expr(lo, nbound) && check_expr(hi, nbound),
                MExpr::Items(_) => true,
            },
            RdtStatement::Guard(c) => check_cond(c, nbound),
            RdtStatement::BindPure(x) => check_expr(x, nbound),
            RdtStatement::Let(x) => check_expr(x, nbound),
        };
        let nb2 = match &stmts[i] {
            RdtStatement::BindAsk => nbound + 1,
            RdtStatement::LiftIter(_) => nbound + 1,
            RdtStatement::Guard(_) => nbound,
            RdtStatement::BindPure(_) => nbound + 1,
            RdtStatement::Let(_) => nbound + 1,
        };
        let (ok_rest, total) = check_rdt_stmts(stmts, i + 1, nb2);
        (ok && ok_rest, total)
    }
}

/// Binding one more value at the end appends the values of its branch.
proof fn lemma_rdt_bind_values_snoc(
    vals: Seq<i64>,
    v: i64,
    stmts: Seq<RdtStatement>,
    res: Expr,
    env: Seq<i64>,
    e: i64,
)
    ensures
        rdt_bind_values(vals.push(v), stmts, res, env, e) == rdt_bind_values(
            vals,
            stmts,
            res,
            env,
            e,
        ) + rdt_block_sem(stmts, res, env.push(v), e),
    decreases vals.len(),
{
    if vals.len() == 0 {
        assert(vals.push(v).skip(1) =~= Seq::<i64>::empty());
        assert(rdt_bind_values(vals, stmts, res, env, e) + rdt_block_sem(stmts, res, env.push(v), e)
            =~= rdt_block_sem(stmts, res, env.push(v), e));
        assert(rdt_block_sem(stmts, res, env.push(v), e) + rdt_bind_values(
            vals.push(v).skip(1),
            stmts,
            res,
            env,
            e,
        ) =~= rdt_block_sem(stmts, res, env.push(v), e));
    } else {
        assert(vals.push(v).skip(1) =~= vals.skip(1).push(v));
        lemma_rdt_bind_values_snoc(vals.skip(1), v, stmts, res, env, e);
        assert(rdt_bind_values(vals.push(v), stmts, res, env, e) =~= rdt_bind_values(
            vals,
            stmts,
            res,
            env,
            e,
        ) + rdt_block_sem(stmts, res, env.push(v), e));
    }
}

/// Run the statements of `b` from position `i` under `env` and the
/// environment `e`, producing the values of `rdt_block_sem`.
fn run_rdt_block(b: &RdtBlock, i: usize, env: Vec<i64>, e: i64) -> (vals: Vec<i64>)
    requires
        i <= b.stmts@.len(),
        wf_rdt_stmts(b.stmts@.skip(i as int), env@.len() as nat),
        wf_expr(b.result, rdt_binders_total(b.stmts@.skip(i as int), env@.len() as nat)),
    ensures
        vals@ == rdt_block_sem(b.stmts@.skip(i as int), b.result, env@, e),
    decreases b.stmts@.len() - i, 1nat,
{
    if i == b.stmts.len() {
        proof {
            assert(b.stmts@.skip(i as int) =~= Seq::<RdtStatement>::empty());
        }
        let a = eval_expr_x(&b.result, &env);
        let mut vals: Vec<i64> = Vec::new();
        vals.push(a);
        proof {
            assert(vals@ =~= seq![eval_expr(b.result, env@)]);
        }
        vals
    } else {
        proof {
            assert(b.stmts@.skip(i as int)[0] == b.stmts@[i as int]);
            assert(b.stmts@.skip(i as int).skip(1) =~= b.stmts@.skip(i as int + 1));
        }
        match &b.stmts[i] {
            RdtStatement::BindAsk => {
                let mut env2 = env;
                env2.push(e);
                run_rdt_block(b, i + 1, env2, e)
            },
            RdtStatement::LiftIter(m) => {
                let vs = eval_mexpr_x(m, &env);
                rdt_bind_loop(b, i, env, vs, e)
            },
            RdtStatement::Guard(c) => {
                if eval_cond_x(c, &env) {
                    run_rdt_block(b, i + 1, env, e)
                } else {
                    let vals: Vec<i64> = Vec::new();
                    proof {
                        assert(vals@ =~= Seq::<i64>::empty());
                    }
                    vals
                }
            },
            RdtStatement::BindPure(x) => {
                let v = eval_expr_x(x, &env);
                let mut env2 = env;
                env2.push(v);
                run_rdt_block(b, i + 1, env2, e)
            },
            RdtStatement::Let(x) => {
                let v = eval_expr_x(x, &env);
                let mut env2 = env;
                env2.push(v);
                run_rdt_block(b, i + 1, env2, e)
            },
        }
    }
}

/// The bind step of `run_rdt_block`: expand the rest of the block once per
/// value, all under the same environment.
fn rdt_bind_loop(b: &RdtBlock, i: usize, env: Vec<i64>, vs: Vec<i64>, e: i64) -> (vals: Vec<i64>)
    requires
        i < b.stmts@.len(),
        wf_rdt_stmts(b.stmts@.skip(i as int + 1), env@.len() as nat + 1),
        wf_expr(
            b.result,
            rdt_binders_total(b.stmts@.skip(i as int + 1), env@.len() as nat + 1),
        ),
    ensures
        vals@ == rdt_bind_values(vs@, b.stmts@.skip(i as int + 1), b.result, env@, e),
    decreases b.stmts@.len() - i, 0nat,
{
    let ghost gvs = vs@;
    let n_st = b.stmts.len();
    let mut vals: Vec<i64> = Vec::new();
    let mut j: usize = 0;
    proof {
        assert(b.stmts@.len() == n_st as int);
        assert(vals@ =~= Seq::<i64>::empty());
        assert(gvs.take(0) =~= Seq::<i64>::empty());
        assert(rdt_bind_values(gvs.take(0), b.stmts@.skip(i as int + 1), b.result, env@, e)
            =~= Seq::<i64>::empty());
    }
    while j < vs.len()
        invariant
            j <= vs.len(),
            i < b.stmts@.len(),
            b.stmts@.len() == n_st as int,
            vs@ == gvs,
            wf_rdt_stmts(b.stmts@.skip(i as int + 1), env@.len() as nat + 1),
            wf_expr(
                b.result,
                rdt_binders_total(b.stmts@.skip(i as int + 1), env@.len() as nat + 1),
            ),
            vals@ == rdt_bind_values(
                gvs.take(j as int),
                b.stmts@.skip(i as int + 1),
                b.result,
                env@,
                e,
            ),
        decreases vs@.len() - j,
    {
        let v = vs[j];
        let mut env2 = copy_env(&env);
        env2.push(v);
        let mut branch = run_rdt_block(b, i + 1, env2, e);
        vals.append(&mut branch);
        proof {
            lemma_rdt_bind_values_snoc(
                gvs.take(j as int),
                v,
                b.stmts@.skip(i as int + 1),
                b.result,
                env@,
                e,
            );
            assert(gvs.take(j as int).push(v) =~= gvs.take(j as int + 1));
        }
        j = j + 1;
    }
    proof {
        assert(gvs.take(gvs.len() as int) =~= gvs);
    }
    vals
}

/// Expand a reader-transformer block into a ReaderT computation over the
/// multi-result inner effect: driving the computation with an environment
/// yields the values of the block's semantics. A block that reads an unbound
/// slot is refused, and only such a block is.
pub fn expand_reader_trans(b: RdtBlock) -> (r: Result<
    crate::reader_trans::ReaderT<i64, i64, impl FnOnce(i64) -> Vec<i64>>,
    ExpandError,
>)
    ensures
        match r {
            Ok(rdr) => {
                &&& wf_rdt_block(b)
                &&& forall|e: i64| #[trigger] call_requires(rdr.run_reader_t, (e,))
                &&& forall|e: i64, m: Vec<i64>|
                    call_ensures(rdr.run_reader_t, (e,), m) ==> m@ == rdt_block_sem(
                        b.stmts@,
                        b.result,
                        Seq::empty(),
                        e,
                    )
            },
            Err(_) => !wf_rdt_block(b),
        },
{
    proof {
        assert(b.stmts@.skip(0) =~= b.stmts@);
    }
    let (ok, total) = check_rdt_stmts(&b.stmts, 0, 0);
    if !(ok && check_expr(&b.result, total)) {
        return Err(ExpandError::UnboundVar);
    }
    let ghost gb = b;
    Ok(
        crate::reader_trans::ReaderT {
            run_reader_t: (move |e: i64| -> (m: Vec<i64>)
                ensures
                    m@ == rdt_block_sem(gb.stmts@, gb.result, Seq::empty(), e),
                {
                    proof {
                        assert(b.stmts@.skip(0) =~= b.stmts@);
                    }
                    run_rdt_block(&b, 0, Vec::new(), e)
                }),
            phantom: core::marker::PhantomData,
        },
    )
}

// ----- the writer-transformer notation: tell, lift, guard and bindings -----

/// One statement of a writer-transformer block. `LiftIter` and the pure and
/// let bindings bind the next slot; `Tell` and `Guard` bind nothing.
pub enum WrtStatement {
    /// `_ <- tell(e)`: append the value of `e` to the log.
    Tell(Expr),
    /// `v <- lift_iter m`: bind each value the source produces in turn.
    LiftIter(MExpr),
    /// `guard c`: collapse this branch to the zero computation unless `c`
    /// holds.
    Guard(Cond),
    /// `v <- pure e`: bind the value of `e`.
    BindPure(Expr),
    /// `let v = e`: bind the value of `e`.
    Let(Expr),
}

/// An ordered writer-transformer statement list closed by one result
/// expression.
pub struct WrtBlock {
    pub stmts: Vec<WrtStatement>,
    pub result: Expr,
}

/// Whether a writer-transformer statement binds the next slot.
pub open spec fn wrt_stmt_binds(s: WrtStatement) -> bool {
    match s {
        WrtStatement::Tell(_) => false,
        WrtStatement::LiftIter(_) => true,
        WrtStatement::Guard(_) => false,
        WrtStatement::BindPure(_) => true,
        WrtStatement::Let(_) => true,
    }
}

/// The `(inner results, log contributed from here on)` of a
/// writer-transformer block. A binding over a source forks one branch per
/// value and concatenates the inner results; the log follows the first
/// branch alone, as the transformer's `bind` keeps the log of the first
/// outcome. With no branch at all nothing is contributed.
pub open spec fn wrt_block_sem(stmts: Seq<WrtStatement>, res: Expr, env: Seq<i64>) -> (
    Seq<i64>,
    Seq<i64>,
)
    decreases stmts.len(), 0nat,
{
    if stmts.len() == 0 {
        (seq![eval_expr(res, env)], Seq::empty())
    } else {
        let rest = stmts.skip(1);
        match stmts[0] {
            WrtStatement::Tell(x) => {
                let tail = wrt_block_sem(rest, res, env);
                (tail.0, seq![eval_expr(x, env)] + tail.1)
            },
            WrtStatement::LiftIter(m) => wrt_bind_values(eval_mexpr(m, env), rest, res, env),
            WrtStatement::Guard(c) => if eval_cond(c, env) {
                wrt_block_sem(rest, res, env)
            } else {
                (Seq::empty(), Seq::empty())
            },
            WrtStatement::BindPure(x) => wrt_block_sem(rest, res, env.push(eval_expr(x, env))),
            WrtStatement::Let(x) => wrt_block_sem(rest, res, env.push(eval_expr(x, env))),
        }
    }
}

/// The bind of the writer-transformer over the rest of a block: the inner
/// results of every branch concatenated, and the log of the first branch.
pub open spec fn wrt_bind_values(
    vals: Seq<i64>,
    stmts: Seq<WrtStatement>,
    res: Expr,
    env: Seq<i64>,
) -> (Seq<i64>, Seq<i64>)
    decreases stmts.len(), vals.len() + 1,
{
    if vals.len() == 0 {
        (Seq::empty(), Seq::empty())
    } else {
        let head = wrt_block_sem(stmts, res, env.push(vals[0]));
        let tail = wrt_bind_values(vals.skip(1), stmts, res, env);
        (head.0 + tail.0, head.1)
    }
}

pub open spec fn wf_wrt_stmts(stmts: Seq<WrtStatement>, nbound: nat) -> bool
    decreases stmts.len(),
{
    if stmts.len() == 0 {
        true
    } else {
        let ok = match stmts[0] {
            WrtStatement::Tell(x) => wf_expr(x, nbound),
            WrtStatement::LiftIter(m) => wf_mexpr(m, nbound),
            WrtStatement::Guard(c) => wf_cond(c, nbound),
            WrtStatement::BindPure(x) => wf_expr(x, nbound),
            WrtStatement::Let(x) => wf_expr(x, nbound),
        };
        ok && wf_wrt_stmts(
            stmts.skip(1),
            nbound + if wrt_stmt_binds(stmts[0]) {
                1nat
            } else {
                0nat
            },
        )
    }
}

/// The number of slots a writer-transformer block has bound once all
/// statements have run.
pub open spec fn wrt_binders_total(stmts: Seq<WrtStatement>, nbound: nat) -> nat
    decreases stmts.len(),
{
    if stmts.len() == 0 {
        nbound
    } else {
        wrt_binders_total(
            stmts.skip(1),
            nbound + if wrt_stmt_binds(stmts[0]) {
                1nat
            } else {
                0nat
            },
        )
    }
}

pub open spec fn wf_wrt_block(b: WrtBlock) -> bool {
    wf_wrt_stmts(b.stmts@, 0) && wf_expr(b.result, wrt_binders_total(b.stmts@, 0))
}

fn check_wrt_stmts(stmts: &Vec<WrtStatement>, i: usize, nbound: usize) -> (r: (bool, usize))
    requires
        i <= stmts@.len(),
        nbound as int <= i as int,
    ensures
        r.0 == wf_wrt_stmts(stmts@.skip(i as int), nbound as nat),
        r.1 as nat == wrt_binders_total(stmts@.skip(i as int), nbound as nat),
    decreases stmts@.len() - i,
{
    if i == stmts.len() {
        proof {
            assert(stmts@.skip(i as int) =~= Seq::<WrtStatement>::empty());
        }
        (true, nbound)
    } else {
        proof {
            assert(stmts@.skip(i as int)[0] == stmts@[i as int]);
            assert(stmts@.skip(i as int).skip(1) =~= stmts@.skip(i as int + 1));
        }
        let ok = match &stmts[i] {
            WrtStatement::Tell(x) => check_expr(x, nbound),
            WrtStatement::LiftIter(m) => match m {
                MExpr::Range(lo, hi) => check_expr(lo, nbound) && check_expr(hi, nbound),
                MExpr::Items(_) => true,
            },
            WrtStatement::Guard(c) => check_cond(c, nbound),
            WrtStatement::BindPure(x) => check_expr(x, nbound),
            WrtStatement::Let(x) => check_expr(x, nbound),
        };
        let nb2 = match &stmts[i] {
            WrtStatement::Tell(_) => nbound,
            WrtStatement::LiftIter(_) => nbound + 1,
            WrtStatement::Guard(_) => nbound,
            WrtStatement::BindPure(_) => nbound + 1,
            WrtStatement::Let(_) => nbound + 1,
        };
        let (ok_rest, total) = check_wrt_stmts(stmts, i + 1, nb2);
        (ok && ok_rest, total)
    }
}

/// Binding one more value at the end appends the inner results of its
/// branch; the log stays with the first branch.
proof fn lemma_wrt_bind_values_snoc(
    vals: Seq<i64>,
    v: i64,
    stmts: Seq<WrtStatement>,
    res: Expr,
    env: Seq<i64>,
)
    ensures
        wrt_bind_values(vals.push(v), stmts, res, env).0 == wrt_bind_values(
            vals,
            stmts,
            res,
            env,
        ).0 + wrt_block_sem(stmts, res, env.push(v)).0,
        wrt_bind_values(vals.push(v), stmts, res, env).1 == if vals.len() == 0 {
            wrt_block_sem(stmts, res, env.push(v)).1
        } else {
            wrt_bind_values(vals, stmts, res, env).1
        },
    decreases vals.len(),
{
    if vals.len() == 0 {
        assert(vals.push(v)[0] == v);
        assert(vals.push(v).skip(1) =~= Seq::<i64>::empty());
        assert(wrt_bind_values(vals.push(v).skip(1), stmts, res, env).0 =~= Seq::<i64>::empty());
        assert(wrt_bind_values(vals.push(v), stmts, res, env).0 =~= wrt_bind_values(
            vals,
            stmts,
            res,
            env,
        ).0 + wrt_block_sem(stmts, res, env.push(v)).0);
    } else {
        assert(vals.push(v)[0] == vals[0]);
        assert(vals.push(v).skip(1) =~= vals.skip(1).push(v));
        lemma_wrt_bind_values_snoc(vals.skip(1), v, stmts, res, env);
        assert(wrt_bind_values(vals.push(v), stmts, res, env).0 =~= wrt_bind_values(
            vals,
            stmts,
            res,
            env,
        ).0 + wrt_block_sem(stmts, res, env.push(v)).0);
    }
}

/// Run the statements of `b` from position `i` under `env`, producing the
/// inner results and contributed log of `wrt_block_sem`.
fn run_wrt_block(b: &WrtBlock, i: usize, env: Vec<i64>) -> (p: (Vec<i64>, Vec<i64>))
    requires
        i <= b.stmts@.len(),
        wf_wrt_stmts(b.stmts@.skip(i as int), env@.len() as nat),
        wf_expr(b.result, wrt_binders_total(b.stmts@.skip(i as int), env@.len() as nat)),
    ensures
        p.0@ == wrt_block_sem(b.stmts@.skip(i as int), b.result, env@).0,
        p.1@ == wrt_block_sem(b.stmts@.skip(i as int), b.result, env@).1,
    decreases b.stmts@.len() - i, 1nat,
{
    if i == b.stmts.len() {
        proof {
            assert(b.stmts@.skip(i as int) =~= Seq::<WrtStatement>::empty());
        }
        let a = eval_expr_x(&b.result, &env);
        let mut inner: Vec<i64> = Vec::new();
        inner.push(a);
        proof {
            assert(inner@ =~= seq![eval_expr(b.result, env@)]);
        }
        (inner, Vec::new())
    } else {
        proof {
            assert(b.stmts@.skip(i as int)[0] == b.stmts@[i as int]);
            assert(b.stmts@.skip(i as int).skip(1) =~= b.stmts@.skip(i as int + 1));
        }
        match &b.stmts[i] {
            WrtStatement::Tell(x) => {
                let v = eval_expr_x(x, &env);
                let (inner, tail_log) = run_wrt_block(b, i + 1, env);
                let mut log: Vec<i64> = Vec::new();
                log.push(v);
                let mut tail_log2 = tail_log;
                log.append(&mut tail_log2);
                proof {
                    assert(log@ =~= seq![v] + wrt_block_sem(
                        b.stmts@.skip(i as int + 1),
                        b.result,
                        env@,
                    ).1);
                }
                (inner, log)
            },
            WrtStatement::LiftIter(m) => {
                let vs = eval_mexpr_x(m, &env);
                wrt_bind_loop(b, i, env, vs)
            },
            WrtStatement::Guard(c) => {
                if eval_cond_x(c, &env) {
                    run_wrt_block(b, i + 1, env)
                } else {
                    let inner: Vec<i64> = Vec::new();
                    let log: Vec<i64> = Vec::new();
                    proof {
                        assert(inner@ =~= Seq::<i64>::empty());
                        assert(log@ =~= Seq::<i64>::empty());
                    }
                    (inner, log)
                }
            },
            WrtStatement::BindPure(x) => {
                let v = eval_expr_x(x, &env);
                let mut env2 = env;
                env2.push(v);
                run_wrt_block(b, i + 1, env2)
            },
            WrtStatement::Let(x) => {
                let v = eval_expr_x(x, &env);
                let mut env2 = env;
                env2.push(v);
                run_wrt_block(b, i + 1, env2)
            },
        }
    }
}

/// The bind step of `run_wrt_block`: expand the rest of the block once per
/// value, concatenating the inner results and keeping the log of the first
/// branch.
fn wrt_bind_loop(b: &WrtBlock, i: usize, env: Vec<i64>, vs: Vec<i64>) -> (p: (Vec<i64>, Vec<i64>))
    requires
        i < b.stmts@.len(),
        wf_wrt_stmts(b.stmts@.skip(i as int + 1), env@.len() as nat + 1),
        wf_expr(
            b.result,
            wrt_binders_total(b.stmts@.skip(i as int + 1), env@.len() as nat + 1),
        ),
    ensures
        p.0@ == wrt_bind_values(vs@, b.stmts@.skip(i as int + 1), b.result, env@).0,
        p.1@ == wrt_bind_values(vs@, b.stmts@.skip(i as int + 1), b.result, env@).1,
    decreases b.stmts@.len() - i, 0nat,
{
    let ghost gvs = vs@;
    let n_st = b.stmts.len();
    let mut inner: Vec<i64> = Vec::new();
    let mut log: Vec<i64> = Vec::new();
    let mut j: usize = 0;
    proof {
        assert(b.stmts@.len() == n_st as int);
        assert(inner@ =~= Seq::<i64>::empty());
        assert(gvs.take(0) =~= Seq::<i64>::empty());
    }
    while j < vs.len()
        invariant
            j <= vs.len(),
            i < b.stmts@.len(),
            b.stmts@.len() == n_st as int,
            vs@ == gvs,
            wf_wrt_stmts(b.stmts@.skip(i as int + 1), env@.len() as nat + 1),
            wf_expr(
                b.result,
                wrt_binders_total(b.stmts@.skip(i as int + 1), env@.len() as nat + 1),
            ),
            inner@ == wrt_bind_values(
                gvs.take(j as int),
                b.stmts@.skip(i as int + 1),
                b.result,
                env@,
            ).0,
            log@ == wrt_bind_values(
                gvs.take(j as int),
                b.stmts@.skip(i as int + 1),
                b.result,
                env@,
            ).1,
        decreases vs@.len() - j,
    {
        let v = vs[j];
        let mut env2 = copy_env(&env);
        env2.push(v);
        let (mut branch_inner, branch_log) = run_wrt_block(b, i + 1, env2);
        inner.append(&mut branch_inner);
        if j == 0 {
            log = branch_log;
        }
        proof {
            lemma_wrt_bind_values_snoc(
                gvs.take(j as int),
                v,
                b.stmts@.skip(i as int + 1),
                b.result,
                env@,
            );
            assert(gvs.take(j as int).push(v) =~= gvs.take(j as int + 1));
        }
        j = j + 1;
    }
    proof {
        assert(gvs.take(gvs.len() as int) =~= gvs);
    }
    (inner, log)
}

/// Expand a writer-transformer block into a WriterT computation over an
/// integer log: the inner results and log are those of the block's
/// semantics. A block that reads an unbound slot is refused, and only such a
/// block is.
pub fn expand_writer_trans(b: &WrtBlock) -> (r: Result<
    crate::writer_trans::WriterT<i64, Vec<i64>>,
    ExpandError,
>)
    ensures
        match r {
            Ok(w) => {
                &&& wf_wrt_block(*b)
                &&& w.run_writer_t.0@ == wrt_block_sem(b.stmts@, b.result, Seq::empty()).0
                &&& w.run_writer_t.1@ == wrt_block_sem(b.stmts@, b.result, Seq::empty()).1
            },
            Err(_) => !wf_wrt_block(*b),
        },
{
    proof {
        assert(b.stmts@.skip(0) =~= b.stmts@);
    }
    let (ok, total) = check_wrt_stmts(&b.stmts, 0, 0);
    if !(ok && check_expr(&b.result, total)) {
        return Err(ExpandError::UnboundVar);
    }
    let (inner, log) = run_wrt_block(b, 0, Vec::new());
    Ok(crate::writer_trans::WriterT { run_writer_t: (inner, log) })
}

// ----- the expansion rules are the effects' own bind -----

/// The binding statement of the multi-result expansion is the bind of the
/// multi-result effect: its rows are `seq_bind` of the source's values into
/// the expansion of the remaining block under the extended environment.
pub proof fn lemma_bind_statement_is_seq_bind(
    vals: Seq<i64>,
    stmts: Seq<Statement>,
    res: Seq<Expr>,
    env: Seq<i64>,
)
    ensures
        bind_values(vals, true, stmts, res, env) == crate::monad::seq_bind(
            vals,
            |v: i64| block_sem(stmts, res, env.push(v)),
        ),
    decreases vals.len(),
{
    let k = |v: i64| block_sem(stmts, res, env.push(v));
    if vals.len() == 0 {
        assert(vals.flat_map(k) =~= Seq::<Seq<i64>>::empty());
    } else {
        lemma_bind_statement_is_seq_bind(vals.skip(1), stmts, res, env);
        crate::monad::lemma_flat_map_first(vals, k);
    }
}

/// The binding statement of the reader-transformer expansion is the bind of
/// its inner multi-result effect.
pub proof fn lemma_rdt_bind_is_seq_bind(
    vals: Seq<i64>,
    stmts: Seq<RdtStatement>,
    res: Expr,
    env: Seq<i64>,
    e: i64,
)
    ensures
        rdt_bind_values(vals, stmts, res, env, e) == crate::monad::seq_bind(
            vals,
            |v: i64| rdt_block_sem(stmts, res, env.push(v), e),
        ),
    decreases vals.len(),
{
    let k = |v: i64| rdt_block_sem(stmts, res, env.push(v), e);
    if vals.len() == 0 {
        assert(vals.flat_map(k) =~= Seq::<i64>::empty());
    } else {
        lemma_rdt_bind_is_seq_bind(vals.skip(1), stmts, res, env, e);
        crate::monad::lemma_flat_map_first(vals, k);
    }
}

/// The binding statement of the state-transformer expansion is the bind of
/// its inner multi-result effect, every branch starting from the same state.
pub proof fn lemma_stt_bind_is_seq_bind(
    vals: Seq<i64>,
    stmts: Seq<SttStatement>,
    res: Expr,
    env: Seq<i64>,
    s: i64,
)
    ensures
        stt_bind_values(vals, stmts, res, env, s) == crate::monad::seq_bind(
            vals,
            |v: i64| stt_block_sem(stmts, res, env.push(v), s),
        ),
    decreases vals.len(),
{
    let k = |v: i64| stt_block_sem(stmts, res, env.push(v), s);
    if vals.len() == 0 {
        assert(vals.flat_map(k) =~= Seq::<(i64, i64)>::empty());
    } else {
        lemma_stt_bind_is_seq_bind(vals.skip(1), stmts, res, env, s);
        crate::monad::lemma_flat_map_first(vals, k);
    }
}

/// The inner results of the writer-transformer's binding statement are the
/// bind of its inner multi-result effect; the log side follows the first
/// branch, as the transformer's own bind does.
pub proof fn lemma_wrt_bind_is_seq_bind(
    vals: Seq<i64>,
    stmts: Seq<WrtStatement>,
    res: Expr,
    env: Seq<i64>,
)
    ensures
        wrt_bind_values(vals, stmts, res, env).0 == crate::monad::seq_bind(
            vals,
            |v: i64| wrt_block_sem(stmts, res, env.push(v)).0,
        ),
    decreases vals.len(),
{
    let k = |v: i64| wrt_block_sem(stmts, res, env.push(v)).0;
    if vals.len() == 0 {
        assert(vals.flat_map(k) =~= Seq::<i64>::empty());
    } else {
        lemma_wrt_bind_is_seq_bind(vals.skip(1), stmts, res, env);
        crate::monad::lemma_flat_map_first(vals, k);
    }
}

} // verus!

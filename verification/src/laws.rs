//! Laws of the language, stated over the semantics and proved once and
//! for all. The executable evaluator returns exactly what the semantics
//! says, so each law carries over to every run.

use vstd::prelude::*;

use crate::ast::AstS;
use crate::ast::BinOp;
use crate::data::DataS;
use crate::semantics::ArgsOutS;
use crate::semantics::CallOutS;
use crate::semantics::EvalError;
use crate::semantics::ExprOutS;
use crate::semantics::StateS;
use crate::semantics::StmtOutS;
use crate::semantics::eval_args_s;
use crate::semantics::eval_call_s;
use crate::semantics::eval_expr_s;
use crate::semantics::exec_stmt_s;
use crate::semantics::exec_stmts_s;
use crate::semantics::is_builtin_name;
use crate::semantics::run_for_s;

verus! {

/// Law: evaluating an integer literal yields exactly that integer and
/// leaves the state as it was, whatever the state.
pub proof fn law_int_literal(n: i64, st: StateS, depth: nat)
    ensures
        eval_expr_s(AstS::Int(n as int), st, depth) == ExprOutS::Val(st, DataS::Int(n as int)),
{
}

/// Law: an assignment whose expression yields a value binds the name to
/// that value, and reading the name immediately afterwards yields it back.
pub proof fn law_assign_then_lookup(id: Seq<char>, e: AstS, st: StateS, depth: nat)
    ensures
        ({
            match eval_expr_s(e, st, depth) {
                ExprOutS::Val(st1, v) => {
                    let st2 = StateS { env: st1.env.insert(id, v), ..st1 };
                    &&& exec_stmt_s(AstS::Assign { id, expr: Box::new(e) }, st, depth)
                        == StmtOutS::Next(st2)
                    &&& eval_expr_s(AstS::Identifier(id), st2, depth) == ExprOutS::Val(st2, v)
                },
                _ => true,
            }
        }),
{
}

/// Law: writing an array element through an in-range literal index and
/// then reading the same element yields the written value back.
pub proof fn law_index_roundtrip(x: Seq<char>, ve: AstS, i: i64, st: StateS, depth: nat)
    ensures
        ({
            match eval_expr_s(ve, st, depth) {
                ExprOutS::Val(st1, v) => if st1.env.contains_key(x) {
                    match st1.env[x] {
                        DataS::Arr(es) => (0 <= i < es.len()) ==> {
                            let stmt = AstS::IndexAssign {
                                id: x,
                                index: Box::new(AstS::Int(i as int)),
                                value: Box::new(ve),
                            };
                            let st2 = StateS {
                                env: st1.env.insert(x, DataS::Arr(es.update(i as int, v))),
                                ..st1
                            };
                            &&& exec_stmt_s(stmt, st, depth) == StmtOutS::Next(st2)
                            &&& eval_expr_s(
                                AstS::IndexAccess {
                                    target: Box::new(AstS::Identifier(x)),
                                    index: Box::new(AstS::Int(i as int)),
                                },
                                st2,
                                depth,
                            ) == ExprOutS::Val(st2, v)
                        },
                        _ => true,
                    }
                } else {
                    true
                },
                _ => true,
            }
        }),
{
    reveal_with_fuel(eval_expr_s, 3);
    reveal_with_fuel(exec_stmt_s, 2);
    match eval_expr_s(ve, st, depth) {
        ExprOutS::Val(st1, v) => {
            if st1.env.contains_key(x) {
                match st1.env[x] {
                    DataS::Arr(es) => {
                        if 0 <= i < es.len() {
                            let stmt = AstS::IndexAssign {
                                id: x,
                                index: Box::new(AstS::Int(i as int)),
                                value: Box::new(ve),
                            };
                            let st2 = StateS {
                                env: st1.env.insert(x, DataS::Arr(es.update(i as int, v))),
                                ..st1
                            };
                            assert(eval_expr_s(AstS::Int(i as int), st, depth) == ExprOutS::Val(
                                st,
                                DataS::Int(i as int),
                            ));
                            assert(exec_stmt_s(stmt, st, depth) == StmtOutS::Next(st2));
                            assert(st2.env.contains_key(x));
                            assert(st2.env[x] == DataS::Arr(es.update(i as int, v)));
                            assert(eval_expr_s(AstS::Identifier(x), st2, depth) == ExprOutS::Val(
                                st2,
                                DataS::Arr(es.update(i as int, v)),
                            ));
                            assert(es.update(i as int, v)[i as int] == v);
                        }
                    },
                    _ => {},
                }
            }
        },
        _ => {},
    }
}

/// Expressions never touch the environment or the registry: whatever the
/// outcome, its state carries the caller's bindings unchanged.
pub proof fn lemma_expr_keeps_env(e: AstS, st: StateS, depth: nat)
    ensures
        ({
            match eval_expr_s(e, st, depth) {
                ExprOutS::Val(st1, _v) => st1.env == st.env && st1.funcs == st.funcs,
                ExprOutS::Halt(st1, _c) => st1.env == st.env && st1.funcs == st.funcs,
                ExprOutS::Fail(st1, _er) => st1.env == st.env && st1.funcs == st.funcs,
            }
        }),
    decreases depth, e, 0int, 0int,
{
    match e {
        AstS::Array(elems) => {
            lemma_args_keep_env(elems, 0, st, depth);
        },
        AstS::BinaryOp { op, left, right } => {
            lemma_expr_keeps_env(*left, st, depth);
            match eval_expr_s(*left, st, depth) {
                ExprOutS::Val(st1, _v) => {
                    lemma_expr_keeps_env(*right, st1, depth);
                },
                _ => {},
            }
        },
        AstS::IndexAccess { target, index } => {
            lemma_expr_keeps_env(*target, st, depth);
            match eval_expr_s(*target, st, depth) {
                ExprOutS::Val(st1, _v) => {
                    lemma_expr_keeps_env(*index, st1, depth);
                },
                _ => {},
            }
        },
        AstS::FunctionCall { id, args } => {
            lemma_call_keeps_env(id, args, st, depth);
        },
        _ => {},
    }
}

/// Argument evaluation never touches the environment or the registry.
pub proof fn lemma_args_keep_env(es: Seq<AstS>, i: int, st: StateS, depth: nat)
    ensures
        ({
            match eval_args_s(es, i, st, depth) {
                ArgsOutS::Vals(st1, _vs) => st1.env == st.env && st1.funcs == st.funcs,
                ArgsOutS::Halt(st1, _c) => st1.env == st.env && st1.funcs == st.funcs,
                ArgsOutS::Fail(st1, _er) => st1.env == st.env && st1.funcs == st.funcs,
            }
        }),
    decreases depth, es, 0int, es.len() - i,
{
    if 0 <= i < es.len() {
        lemma_expr_keeps_env(es[i], st, depth);
        match eval_expr_s(es[i], st, depth) {
            ExprOutS::Val(st1, _v) => {
                lemma_args_keep_env(es, i + 1, st1, depth);
            },
            _ => {},
        }
    }
}

/// A call never touches the caller's environment or registry: built-ins
/// read input and write output only, and a called function's body runs
/// against its own fresh environment and registry copy, which are
/// discarded when it is done.
pub proof fn lemma_call_keeps_env(id: Seq<char>, args: Seq<AstS>, st: StateS, depth: nat)
    ensures
        ({
            match eval_call_s(id, args, st, depth) {
                CallOutS::Val(st1, _v) => st1.env == st.env && st1.funcs == st.funcs,
                CallOutS::Unit(st1) => st1.env == st.env && st1.funcs == st.funcs,
                CallOutS::Halt(st1, _c) => st1.env == st.env && st1.funcs == st.funcs,
                CallOutS::Fail(st1, _er) => st1.env == st.env && st1.funcs == st.funcs,
            }
        }),
    decreases depth, args, 1int, 0int,
{
    lemma_args_keep_env(args, 0, st, depth);
}

/// Law: a call used as a statement leaves every variable and every
/// registered function of the caller exactly as it was — a parameter that
/// shadows an outer variable cannot change it.
pub proof fn law_call_scope_isolated(id: Seq<char>, args: Seq<AstS>, st: StateS, depth: nat)
    ensures
        ({
            match exec_stmt_s(AstS::FunctionCall { id, args }, st, depth) {
                StmtOutS::Next(st1) => st1.env == st.env && st1.funcs == st.funcs,
                StmtOutS::Halt(st1, _c) => st1.env == st.env && st1.funcs == st.funcs,
                StmtOutS::Fail(st1, _er) => st1.env == st.env && st1.funcs == st.funcs,
            }
        }),
{
    lemma_call_keeps_env(id, args, st, depth);
}

/// Law: once a statement halts the program, the statements after it are
/// never executed: extending the program changes nothing about the run.
pub proof fn law_halt_stops_rest(ss: Seq<AstS>, more: Seq<AstS>, i: int, st: StateS, depth: nat)
    requires
        0 <= i <= ss.len(),
        exec_stmts_s(ss, i, st, depth) matches StmtOutS::Halt(_st1, _c),
    ensures
        exec_stmts_s(ss + more, i, st, depth) == exec_stmts_s(ss, i, st, depth),
    decreases ss.len() - i,
{
    assert((ss + more).len() == ss.len() + more.len());
    if i < ss.len() {
        assert((ss + more)[i] == ss[i]);
        match exec_stmt_s(ss[i], st, depth) {
            StmtOutS::Next(st1) => {
                law_halt_stops_rest(ss, more, i + 1, st1, depth);
            },
            _ => {},
        }
    }
}

/// Law: a division whose right operand is the literal zero fails with
/// `DivisionByZero` when the left operand yields an integer, and with
/// `TypeMismatch` when it yields text or an array.
pub proof fn law_division_by_zero(l: AstS, st: StateS, depth: nat)
    ensures
        ({
            match eval_expr_s(l, st, depth) {
                ExprOutS::Val(st1, v) => match v {
                    DataS::Int(a) => (i64::MIN <= a <= i64::MAX) ==> eval_expr_s(
                        AstS::BinaryOp {
                            op: BinOp::Div,
                            left: Box::new(l),
                            right: Box::new(AstS::Int(0)),
                        },
                        st,
                        depth,
                    ) == ExprOutS::Fail(st1, EvalError::DivisionByZero),
                    _ => eval_expr_s(
                        AstS::BinaryOp {
                            op: BinOp::Div,
                            left: Box::new(l),
                            right: Box::new(AstS::Int(0)),
                        },
                        st,
                        depth,
                    ) == ExprOutS::Fail(st1, EvalError::TypeMismatch),
                },
                _ => true,
            }
        }),
{
    match eval_expr_s(l, st, depth) {
        ExprOutS::Val(st1, v) => {
            assert(eval_expr_s(AstS::Int(0), st1, depth) == ExprOutS::Val(st1, DataS::Int(0)));
        },
        _ => {},
    }
}

/// Law: reading an array with a literal index below zero or at or beyond
/// the length fails with `IndexOutOfBounds`.
pub proof fn law_index_out_of_bounds(x: Seq<char>, i: i64, st: StateS, depth: nat)
    requires
        st.env.contains_key(x),
        st.env[x] matches DataS::Arr(es) && !(0 <= i < es.len()),
    ensures
        eval_expr_s(
            AstS::IndexAccess {
                target: Box::new(AstS::Identifier(x)),
                index: Box::new(AstS::Int(i as int)),
            },
            st,
            depth,
        ) == ExprOutS::Fail(st, EvalError::IndexOutOfBounds),
{
    reveal_with_fuel(eval_expr_s, 3);
}

/// Law: defining a function under a name that is already registered, or
/// that belongs to a built-in, fails with `DuplicateFunctionDefinition`
/// and changes nothing.
pub proof fn law_duplicate_definition(
    id: Seq<char>,
    params: Seq<Seq<char>>,
    body: Seq<AstS>,
    st: StateS,
    depth: nat,
)
    requires
        st.funcs.contains_key(id) || is_builtin_name(id),
    ensures
        exec_stmt_s(AstS::FunctionDefinition { id, params, body }, st, depth) == StmtOutS::Fail(
            st,
            EvalError::DuplicateFunctionDefinition,
        ),
{
}

/// Law: calling a registered function with too few or too many arguments
/// fails with `ArityMismatch`, before any argument is evaluated.
pub proof fn law_arity_mismatch(id: Seq<char>, args: Seq<AstS>, st: StateS, depth: nat)
    requires
        !is_builtin_name(id),
        st.funcs.contains_key(id),
        args.len() != st.funcs[id].params.len(),
    ensures
        eval_call_s(id, args, st, depth) == CallOutS::Fail(st, EvalError::ArityMismatch),
        exec_stmt_s(AstS::FunctionCall { id, args }, st, depth) == StmtOutS::Fail(
            st,
            EvalError::ArityMismatch,
        ),
{
}

/// Whether `b` carries every line of `a`, in order, at the front: output
/// only ever grows.
pub open spec fn extends_output(a: Seq<Seq<char>>, b: Seq<Seq<char>>) -> bool {
    b.len() >= a.len() && b.take(a.len() as int) == a
}

pub proof fn lemma_extends_refl(a: Seq<Seq<char>>)
    ensures
        extends_output(a, a),
{
    assert(a.take(a.len() as int) =~= a);
}

pub proof fn lemma_extends_app(a: Seq<Seq<char>>, b: Seq<Seq<char>>)
    ensures
        extends_output(a, a + b),
{
    assert((a + b).take(a.len() as int) =~= a);
}

pub proof fn lemma_extends_trans(a: Seq<Seq<char>>, b: Seq<Seq<char>>, c: Seq<Seq<char>>)
    requires
        extends_output(a, b),
        extends_output(b, c),
    ensures
        extends_output(a, c),
{
    assert(c.take(a.len() as int) =~= c.take(b.len() as int).take(a.len() as int));
}

/// The output of an expression outcome's state.
pub open spec fn expr_out_lines(o: ExprOutS) -> Seq<Seq<char>> {
    match o {
        ExprOutS::Val(st, _v) => st.output,
        ExprOutS::Halt(st, _c) => st.output,
        ExprOutS::Fail(st, _e) => st.output,
    }
}

pub open spec fn args_out_lines(o: ArgsOutS) -> Seq<Seq<char>> {
    match o {
        ArgsOutS::Vals(st, _v) => st.output,
        ArgsOutS::Halt(st, _c) => st.output,
        ArgsOutS::Fail(st, _e) => st.output,
    }
}

pub open spec fn call_out_lines(o: CallOutS) -> Seq<Seq<char>> {
    match o {
        CallOutS::Val(st, _v) => st.output,
        CallOutS::Unit(st) => st.output,
        CallOutS::Halt(st, _c) => st.output,
        CallOutS::Fail(st, _e) => st.output,
    }
}

pub open spec fn stmt_out_lines(o: StmtOutS) -> Seq<Seq<char>> {
    match o {
        StmtOutS::Next(st) => st.output,
        StmtOutS::Halt(st, _c) => st.output,
        StmtOutS::Fail(st, _e) => st.output,
    }
}

/// Evaluating an expression never drops an output line: whatever the
/// outcome, the lines written so far stay, in order.
pub proof fn lemma_expr_output_grows(e: AstS, st: StateS, depth: nat)
    ensures
        extends_output(st.output, expr_out_lines(eval_expr_s(e, st, depth))),
    decreases depth, e, 0int, 0int,
{
    lemma_extends_refl(st.output);
    match e {
        AstS::Array(elems) => {
            lemma_args_output_grows(elems, 0, st, depth);
        },
        AstS::BinaryOp { op, left, right } => {
            lemma_expr_output_grows(*left, st, depth);
            match eval_expr_s(*left, st, depth) {
                ExprOutS::Val(st1, _v) => {
                    lemma_expr_output_grows(*right, st1, depth);
                    lemma_extends_trans(
                        st.output,
                        st1.output,
                        expr_out_lines(eval_expr_s(*right, st1, depth)),
                    );
                },
                _ => {},
            }
        },
        AstS::IndexAccess { target, index } => {
            lemma_expr_output_grows(*target, st, depth);
            match eval_expr_s(*target, st, depth) {
                ExprOutS::Val(st1, _v) => {
                    lemma_expr_output_grows(*index, st1, depth);
                    lemma_extends_trans(
                        st.output,
                        st1.output,
                        expr_out_lines(eval_expr_s(*index, st1, depth)),
                    );
                },
                _ => {},
            }
        },
        AstS::FunctionCall { id, args } => {
            lemma_call_output_grows(id, args, st, depth);
        },
        _ => {},
    }
}

pub proof fn lemma_args_output_grows(es: Seq<AstS>, i: int, st: StateS, depth: nat)
    ensures
        extends_output(st.output, args_out_lines(eval_args_s(es, i, st, depth))),
    decreases depth, es, 0int, es.len() - i,
{
    lemma_extends_refl(st.output);
    if 0 <= i < es.len() {
        lemma_expr_output_grows(es[i], st, depth);
        match eval_expr_s(es[i], st, depth) {
            ExprOutS::Val(st1, _v) => {
                lemma_args_output_grows(es, i + 1, st1, depth);
                lemma_extends_trans(
                    st.output,
                    st1.output,
                    args_out_lines(eval_args_s(es, i + 1, st1, depth)),
                );
            },
            _ => {},
        }
    }
}

pub proof fn lemma_call_output_grows(id: Seq<char>, args: Seq<AstS>, st: StateS, depth: nat)
    ensures
        extends_output(st.output, call_out_lines(eval_call_s(id, args, st, depth))),
    decreases depth, args, 1int, 0int,
{
    lemma_extends_refl(st.output);
    lemma_args_output_grows(args, 0, st, depth);
    if is_builtin_name(id) {
        match eval_args_s(args, 0, st, depth) {
            ArgsOutS::Vals(st1, vs) => {
                if id == "print"@ {
                    lemma_extends_app(st1.output, crate::semantics::render_all(vs));
                    lemma_extends_trans(
                        st.output,
                        st1.output,
                        st1.output + crate::semantics::render_all(vs),
                    );
                }
            },
            _ => {},
        }
    } else if st.funcs.contains_key(id) {
        let def = st.funcs[id];
        if args.len() == def.params.len() {
            match eval_args_s(args, 0, st, depth) {
                ArgsOutS::Vals(st1, vs) => {
                    if depth > 0 {
                        let entry = StateS {
                            env: crate::semantics::bind_params(def.params, vs),
                            funcs: st1.funcs,
                            input: st1.input,
                            output: st1.output,
                        };
                        lemma_stmts_output_grow(def.body, 0, entry, (depth - 1) as nat);
                        lemma_extends_trans(
                            st.output,
                            st1.output,
                            stmt_out_lines(
                                exec_stmts_s(def.body, 0, entry, (depth - 1) as nat),
                            ),
                        );
                    }
                },
                _ => {},
            }
        }
    }
}

/// Executing a statement never drops an output line.
pub proof fn lemma_stmt_output_grows(s: AstS, st: StateS, depth: nat)
    ensures
        extends_output(st.output, stmt_out_lines(exec_stmt_s(s, st, depth))),
    decreases depth, s, 0int, 0int,
{
    lemma_extends_refl(st.output);
    match s {
        AstS::Assign { id, expr } => {
            lemma_expr_output_grows(*expr, st, depth);
        },
        AstS::IndexAssign { id, index, value } => {
            lemma_expr_output_grows(*index, st, depth);
            match eval_expr_s(*index, st, depth) {
                ExprOutS::Val(st1, _vi) => {
                    lemma_expr_output_grows(*value, st1, depth);
                    lemma_extends_trans(
                        st.output,
                        st1.output,
                        expr_out_lines(eval_expr_s(*value, st1, depth)),
                    );
                },
                _ => {},
            }
        },
        AstS::FunctionCall { id, args } => {
            lemma_call_output_grows(id, args, st, depth);
        },
        AstS::If { cond, body } => {
            lemma_expr_output_grows(*cond, st, depth);
            match eval_expr_s(*cond, st, depth) {
                ExprOutS::Val(st1, v) => match v {
                    DataS::Int(c) => {
                        if c != 0 {
                            lemma_stmts_output_grow(body, 0, st1, depth);
                            lemma_extends_trans(
                                st.output,
                                st1.output,
                                stmt_out_lines(exec_stmts_s(body, 0, st1, depth)),
                            );
                        }
                    },
                    _ => {},
                },
                _ => {},
            }
        },
        AstS::For { var, iter, body } => {
            lemma_expr_output_grows(*iter, st, depth);
            match eval_expr_s(*iter, st, depth) {
                ExprOutS::Val(st1, v) => match v {
                    DataS::Arr(es) => {
                        lemma_for_output_grows(var, es, 0, body, st1, depth);
                        lemma_extends_trans(
                            st.output,
                            st1.output,
                            stmt_out_lines(run_for_s(var, es, 0, body, st1, depth)),
                        );
                    },
                    _ => {},
                },
                _ => {},
            }
        },
        _ => {},
    }
}

pub proof fn lemma_for_output_grows(
    var: Seq<char>,
    elems: Seq<DataS>,
    idx: int,
    body: Seq<AstS>,
    st: StateS,
    depth: nat,
)
    ensures
        extends_output(st.output, stmt_out_lines(run_for_s(var, elems, idx, body, st, depth))),
    decreases depth, body, elems.len() - idx + 1, 0int,
{
    lemma_extends_refl(st.output);
    if 0 <= idx < elems.len() {
        let entry = StateS { env: st.env.insert(var, elems[idx]), ..st };
        lemma_stmts_output_grow(body, 0, entry, depth);
        match exec_stmts_s(body, 0, entry, depth) {
            StmtOutS::Next(st1) => {
                lemma_for_output_grows(var, elems, idx + 1, body, st1, depth);
                lemma_extends_trans(
                    st.output,
                    st1.output,
                    stmt_out_lines(run_for_s(var, elems, idx + 1, body, st1, depth)),
                );
            },
            _ => {},
        }
    }
}

/// Law: a run never drops an output line — every line written before the
/// run ends, normally, by `return` or by an error, is still there at the
/// end, in order.
pub proof fn lemma_stmts_output_grow(ss: Seq<AstS>, i: int, st: StateS, depth: nat)
    ensures
        extends_output(st.output, stmt_out_lines(exec_stmts_s(ss, i, st, depth))),
    decreases depth, ss, 0int, ss.len() - i,
{
    lemma_extends_refl(st.output);
    if 0 <= i < ss.len() {
        lemma_stmt_output_grows(ss[i], st, depth);
        match exec_stmt_s(ss[i], st, depth) {
            StmtOutS::Next(st1) => {
                lemma_stmts_output_grow(ss, i + 1, st1, depth);
                lemma_extends_trans(
                    st.output,
                    st1.output,
                    stmt_out_lines(exec_stmts_s(ss, i + 1, st1, depth)),
                );
            },
            _ => {},
        }
    }
}

} // verus!

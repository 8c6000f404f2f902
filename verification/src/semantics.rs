//! The meaning of a program, written as mathematics.
//!
//! These spec functions define, step by step, what evaluating an expression
//! and executing a statement does to the interpreter state: the variable
//! environment, the function registry, the remaining input lines and the
//! output lines. The executable evaluator is proved to return exactly what
//! these functions say.
//!
//! A distinctive, deliberate design choice of the language: `return(v)`
//! halts the whole program with exit status `v`, not just the enclosing
//! function. Every outcome type therefore has a `Halt` case that unwinds
//! through all nesting levels.

use vstd::prelude::*;

use crate::ast::AstS;
use crate::ast::BinOp;
use crate::ast::FnDefS;
use crate::data::DataS;
use crate::data::render_data;

verus! {

/// An evaluation-time failure. Every one of these aborts the whole run.
#[derive(Debug, PartialEq, Eq, Structural, Clone, Copy)]
pub enum EvalError {
    /// A name was read before any assignment bound it.
    UndefinedVariable,
    /// A call named neither a built-in nor a registered function.
    UndefinedFunction,
    /// A call supplied too few or too many arguments.
    ArityMismatch,
    /// A definition reused a registered name or a built-in name.
    DuplicateFunctionDefinition,
    /// An operation met a value of the wrong kind.
    TypeMismatch,
    /// A division had zero as its right operand.
    DivisionByZero,
    /// An array was indexed below zero or at or beyond its length.
    IndexOutOfBounds,
    /// A statement form reached the evaluator that it does not execute.
    UnhandledNodeKind,
    /// Nested calls went deeper than the fixed call-depth bound.
    RecursionLimitExceeded,
    /// A call used as an expression produced no value.
    NoValue,
}

/// The interpreter state: variables, registered functions, input lines not
/// yet read, and output lines written so far.
pub ghost struct StateS {
    pub env: Map<Seq<char>, DataS>,
    pub funcs: Map<Seq<char>, FnDefS>,
    pub input: Seq<Seq<char>>,
    pub output: Seq<Seq<char>>,
}

/// The outcome of evaluating an expression.
pub ghost enum ExprOutS {
    /// The expression produced a value.
    Val(StateS, DataS),
    /// A `return` halted the whole program with this exit status.
    Halt(StateS, int),
    /// Evaluation failed.
    Fail(StateS, EvalError),
}

/// The outcome of evaluating a list of expressions left to right.
pub ghost enum ArgsOutS {
    Vals(StateS, Seq<DataS>),
    Halt(StateS, int),
    Fail(StateS, EvalError),
}

/// The outcome of executing a statement or a statement sequence.
pub ghost enum StmtOutS {
    Next(StateS),
    Halt(StateS, int),
    Fail(StateS, EvalError),
}

/// The outcome of a call, before its context decides what a produced value
/// or the absence of one means.
pub ghost enum CallOutS {
    Val(StateS, DataS),
    /// The call did its work but produced no value (`print`, or a function
    /// body that ran to completion without `return`).
    Unit(StateS),
    Halt(StateS, int),
    Fail(StateS, EvalError),
}

/// The fixed bound on nested call depth.
pub const MAX_CALL_DEPTH: u64 = 128;

/// Whether a name belongs to the fixed built-in table.
pub open spec fn is_builtin_name(name: Seq<char>) -> bool {
    ||| name == "print"@
    ||| name == "return"@
    ||| name == "input"@
    ||| name == "inputf"@
    ||| name == "split"@
}

/// Truncating division, as the language's `/` rounds: toward zero.
pub open spec fn div_trunc(a: int, b: int) -> int {
    let q = abs_int(a) / abs_int(b);
    if (a < 0) != (b < 0) {
        -q
    } else {
        q
    }
}

pub open spec fn abs_int(a: int) -> int {
    if a < 0 {
        -a
    } else {
        a
    }
}

/// The value of an arithmetic or comparison operator on two integers.
/// Arithmetic wraps around the 64-bit signed range; comparisons yield 1 for
/// true and 0 for false. Division by zero is the one failing case and is
/// handled before this function applies.
pub open spec fn apply_op(op: BinOp, a: i64, b: i64) -> i64 {
    match op {
        BinOp::Add => vstd::wrapping::i64_specs::wrapping_add(a, b),
        BinOp::Sub => vstd::wrapping::i64_specs::wrapping_sub(a, b),
        BinOp::Mul => vstd::wrapping::i64_specs::wrapping_mul(a, b),
        BinOp::Div => vstd::wrapping::i64_specs::signed_crop(div_trunc(a as int, b as int)),
        BinOp::Lt => if a < b { 1 } else { 0 },
        BinOp::Gt => if a > b { 1 } else { 0 },
        BinOp::Le => if a <= b { 1 } else { 0 },
        BinOp::Ge => if a >= b { 1 } else { 0 },
        BinOp::Eq => if a == b { 1 } else { 0 },
    }
}

/// The digit value of a decimal character; ten for any other character.
pub open spec fn char_digit(c: char) -> nat {
    let u = c as u32;
    if 48 <= u <= 57 {
        (u - 48) as nat
    } else {
        10
    }
}

pub open spec fn is_digit_char(c: char) -> bool {
    char_digit(c) < 10
}

/// The number a sequence of decimal digits denotes.
pub open spec fn digits_val(s: Seq<char>) -> nat
    decreases s,
{
    if s.len() == 0 {
        0
    } else {
        digits_val(s.drop_last()) * 10 + char_digit(s.last())
    }
}

/// A prefix of a digit run never denotes more than the whole run.
pub proof fn lemma_digits_take_mono(s: Seq<char>, i: int)
    requires
        0 <= i <= s.len(),
    ensures
        digits_val(s.take(i)) <= digits_val(s),
    decreases s.len(),
{
    if i == s.len() {
        assert(s.take(i) =~= s);
    } else {
        assert(s.take(i) =~= s.drop_last().take(i));
        lemma_digits_take_mono(s.drop_last(), i);
    }
}

/// The integer a whole line denotes: an optional minus sign, then at least
/// one decimal digit and nothing else.
pub open spec fn parse_int_line(s: Seq<char>) -> Option<int> {
    if s.len() > 0 && s[0] == '-' {
        match digits_opt(s.drop_first()) {
            Some(n) => Some(-(n as int)),
            None => None,
        }
    } else {
        match digits_opt(s) {
            Some(n) => Some(n as int),
            None => None,
        }
    }
}

/// How `parse_int_line` reduces once the digit scan of the unsigned part is
/// settled.
pub proof fn lemma_parse_int_line_cases(s: Seq<char>)
    ensures
        (s.len() > 0 && s[0] == '-') ==> parse_int_line(s) == (match digits_opt(s.drop_first()) {
            Some(n) => Some(-(n as int)),
            None => None::<int>,
        }),
        !(s.len() > 0 && s[0] == '-') ==> parse_int_line(s) == (match digits_opt(s) {
            Some(n) => Some(n as int),
            None => None::<int>,
        }),
{
}

pub open spec fn digits_opt(s: Seq<char>) -> Option<nat> {
    if s.len() > 0 && (forall|i: int| 0 <= i < s.len() ==> is_digit_char(#[trigger] s[i])) {
        Some(digits_val(s))
    } else {
        None
    }
}

/// The position of the first delimiter character at or after `i`, or the
/// text's length when none follows.
pub open spec fn next_delim(t: Seq<char>, d: Seq<char>, i: int) -> int
    decreases t.len() - i,
{
    if i < 0 || i >= t.len() {
        t.len() as int
    } else if d.contains(t[i]) {
        i
    } else {
        next_delim(t, d, i + 1)
    }
}

pub proof fn lemma_next_delim(t: Seq<char>, d: Seq<char>, i: int)
    requires
        0 <= i <= t.len(),
    ensures
        i <= next_delim(t, d, i) <= t.len(),
    decreases t.len() - i,
{
    if i < t.len() && !d.contains(t[i]) {
        lemma_next_delim(t, d, i + 1);
    }
}

#[via_fn]
proof fn split_pieces_decreases(t: Seq<char>, d: Seq<char>, i: int) {
    lemma_next_delim(t, d, i);
}

/// The pieces of `t` from position `i` on, split at every character that
/// occurs in `d`. Empty pieces are kept, so the piece count is always one
/// more than the delimiter count.
pub open spec fn split_pieces(t: Seq<char>, d: Seq<char>, i: int) -> Seq<Seq<char>>
    recommends
        0 <= i <= t.len(),
    decreases t.len() - i + 1,
        when 0 <= i <= t.len()
        via split_pieces_decreases
{
    let j = next_delim(t, d, i);
    if j >= t.len() {
        seq![t.subrange(i, t.len() as int)]
    } else {
        seq![t.subrange(i, j)] + split_pieces(t, d, j + 1)
    }
}

/// A fresh environment binding each parameter name, in order, to the
/// argument value in the same position. With a repeated name the later
/// position wins.
pub open spec fn bind_params(names: Seq<Seq<char>>, vals: Seq<DataS>) -> Map<Seq<char>, DataS>
    recommends
        names.len() == vals.len(),
    decreases names,
{
    if names.len() == 0 {
        Map::empty()
    } else {
        bind_params(names.drop_last(), vals.drop_last()).insert(
            names.last(),
            vals.last(),
        )
    }
}

/// The rendered text of each value, in order.
pub open spec fn render_all(vs: Seq<DataS>) -> Seq<Seq<char>> {
    Seq::new(vs.len(), |i: int| render_data(vs[i]))
}

/// The outcome of reading input fields for `inputf`: one line per
/// `%Number` or `%String` field of the format, and the input lines left
/// over. A `%Number` field must parse as a 64-bit integer.
pub ghost enum FieldsOutS {
    Vals(Seq<Seq<char>>, Seq<DataS>),
    Fail(Seq<Seq<char>>, EvalError),
}

/// The next input line and the lines after it; a missing line reads as
/// empty text.
pub open spec fn read_line(input: Seq<Seq<char>>) -> (Seq<Seq<char>>, Seq<char>) {
    if input.len() == 0 {
        (input, Seq::empty())
    } else {
        (input.drop_first(), input[0])
    }
}

pub open spec fn read_fields(fmt: Seq<char>, input: Seq<Seq<char>>) -> FieldsOutS
    decreases fmt.len(),
{
    if fmt.len() == 0 {
        FieldsOutS::Vals(input, Seq::empty())
    } else if fmt.len() >= 7 && fmt[0] == '%' && fmt.subrange(1, 7) == "Number"@ {
        let (input1, line) = read_line(input);
        match parse_int_line(line) {
            Some(n) => if n > i64::MAX as int || n < i64::MIN as int {
                FieldsOutS::Fail(input1, EvalError::TypeMismatch)
            } else {
                match read_fields(fmt.skip(7), input1) {
                    FieldsOutS::Vals(input2, vs) => FieldsOutS::Vals(
                        input2,
                        seq![DataS::Int(n)] + vs,
                    ),
                    FieldsOutS::Fail(input2, e) => FieldsOutS::Fail(input2, e),
                }
            },
            None => FieldsOutS::Fail(input1, EvalError::TypeMismatch),
        }
    } else if fmt.len() >= 7 && fmt[0] == '%' && fmt.subrange(1, 7) == "String"@ {
        let (input1, line) = read_line(input);
        match read_fields(fmt.skip(7), input1) {
            FieldsOutS::Vals(input2, vs) => FieldsOutS::Vals(input2, seq![DataS::Str(line)] + vs),
            FieldsOutS::Fail(input2, e) => FieldsOutS::Fail(input2, e),
        }
    } else {
        read_fields(fmt.drop_first(), input)
    }
}

/// What a built-in does once its arguments are evaluated.
///
/// - `print` writes one output line per argument and produces no value.
/// - `return` needs exactly one integer argument and halts the program.
/// - `input` reads one line as text.
/// - `inputf` reads one line per `%Number` or `%String` field of its
///   format text.
/// - `split` cuts text at any of the delimiter characters, keeping empty
///   pieces.
pub open spec fn apply_builtin(id: Seq<char>, vs: Seq<DataS>, st: StateS) -> CallOutS {
    if id == "print"@ {
        CallOutS::Unit(StateS { output: st.output + render_all(vs), ..st })
    } else if id == "return"@ {
        if vs.len() != 1 {
            CallOutS::Fail(st, EvalError::ArityMismatch)
        } else {
            match vs[0] {
                DataS::Int(n) => CallOutS::Halt(st, n),
                _ => CallOutS::Fail(st, EvalError::TypeMismatch),
            }
        }
    } else if id == "input"@ {
        if vs.len() != 0 {
            CallOutS::Fail(st, EvalError::ArityMismatch)
        } else {
            let (input1, line) = read_line(st.input);
            CallOutS::Val(StateS { input: input1, ..st }, DataS::Str(line))
        }
    } else if id == "inputf"@ {
        if vs.len() != 1 {
            CallOutS::Fail(st, EvalError::ArityMismatch)
        } else {
            match vs[0] {
                DataS::Str(fmt) => match read_fields(fmt, st.input) {
                    FieldsOutS::Vals(input1, fields) => CallOutS::Val(
                        StateS { input: input1, ..st },
                        DataS::Arr(fields),
                    ),
                    FieldsOutS::Fail(input1, e) => CallOutS::Fail(
                        StateS { input: input1, ..st },
                        e,
                    ),
                },
                _ => CallOutS::Fail(st, EvalError::TypeMismatch),
            }
        }
    } else {
        if vs.len() != 2 {
            CallOutS::Fail(st, EvalError::ArityMismatch)
        } else {
            match (vs[0], vs[1]) {
                (DataS::Str(t), DataS::Str(d)) => {
                    let pieces = split_pieces(t, d, 0);
                    CallOutS::Val(
                        st,
                        DataS::Arr(Seq::new(pieces.len(), |i: int| DataS::Str(pieces[i]))),
                    )
                },
                _ => CallOutS::Fail(st, EvalError::TypeMismatch),
            }
        }
    }
}

/// The value of an expression, and the state it leaves behind.
///
/// Expressions never touch the environment or the registry: a nested call
/// runs against its own fresh environment and a copy of the registry, and
/// the caller's are restored afterwards. Only the input and output move.
pub open spec fn eval_expr_s(e: AstS, st: StateS, depth: nat) -> ExprOutS
    decreases depth, e, 0int, 0int,
{
    match e {
        AstS::Int(n) => ExprOutS::Val(st, DataS::Int(n)),
        AstS::Str(s) => ExprOutS::Val(st, DataS::Str(s)),
        AstS::Identifier(name) => if st.env.contains_key(name) {
            ExprOutS::Val(st, st.env[name])
        } else {
            ExprOutS::Fail(st, EvalError::UndefinedVariable)
        },
        AstS::Array(elems) => match eval_args_s(elems, 0, st, depth) {
            ArgsOutS::Vals(st1, vs) => ExprOutS::Val(st1, DataS::Arr(vs)),
            ArgsOutS::Halt(st1, c) => ExprOutS::Halt(st1, c),
            ArgsOutS::Fail(st1, er) => ExprOutS::Fail(st1, er),
        },
        AstS::BinaryOp { op, left, right } => match eval_expr_s(*left, st, depth) {
            ExprOutS::Val(st1, v1) => match eval_expr_s(*right, st1, depth) {
                ExprOutS::Val(st2, v2) => match (v1, v2) {
                    (DataS::Int(a), DataS::Int(b)) => {
                        if a > i64::MAX as int || a < i64::MIN as int || b > i64::MAX as int
                            || b < i64::MIN as int {
                            ExprOutS::Fail(st2, EvalError::TypeMismatch)
                        } else if op == BinOp::Div && b == 0 {
                            ExprOutS::Fail(st2, EvalError::DivisionByZero)
                        } else {
                            ExprOutS::Val(
                                st2,
                                DataS::Int(apply_op(op, a as i64, b as i64) as int),
                            )
                        }
                    },
                    _ => ExprOutS::Fail(st2, EvalError::TypeMismatch),
                },
                out => out,
            },
            out => out,
        },
        AstS::IndexAccess { target, index } => match eval_expr_s(*target, st, depth) {
            ExprOutS::Val(st1, v1) => match eval_expr_s(*index, st1, depth) {
                ExprOutS::Val(st2, v2) => match (v1, v2) {
                    (DataS::Arr(es), DataS::Int(i)) => if 0 <= i < es.len() {
                        ExprOutS::Val(st2, es[i])
                    } else {
                        ExprOutS::Fail(st2, EvalError::IndexOutOfBounds)
                    },
                    _ => ExprOutS::Fail(st2, EvalError::TypeMismatch),
                },
                out => out,
            },
            out => out,
        },
        AstS::FunctionCall { id, args } => match eval_call_s(id, args, st, depth) {
            CallOutS::Val(st1, v) => ExprOutS::Val(st1, v),
            CallOutS::Unit(st1) => ExprOutS::Fail(st1, EvalError::NoValue),
            CallOutS::Halt(st1, c) => ExprOutS::Halt(st1, c),
            CallOutS::Fail(st1, er) => ExprOutS::Fail(st1, er),
        },
        _ => ExprOutS::Fail(st, EvalError::UnhandledNodeKind),
    }
}

/// The values of a list of expressions from position `i` on, evaluated left
/// to right in the caller's environment.
pub open spec fn eval_args_s(es: Seq<AstS>, i: int, st: StateS, depth: nat) -> ArgsOutS
    recommends
        0 <= i <= es.len(),
    decreases depth, es, 0int, es.len() - i,
{
    if i < 0 || i >= es.len() {
        ArgsOutS::Vals(st, Seq::empty())
    } else {
        match eval_expr_s(es[i], st, depth) {
            ExprOutS::Val(st1, v) => match eval_args_s(es, i + 1, st1, depth) {
                ArgsOutS::Vals(st2, vs) => ArgsOutS::Vals(st2, seq![v] + vs),
                out => out,
            },
            ExprOutS::Halt(st1, c) => ArgsOutS::Halt(st1, c),
            ExprOutS::Fail(st1, er) => ArgsOutS::Fail(st1, er),
        }
    }
}

/// A call, before its context interprets the outcome. The built-in table is
/// consulted first, then the registry; for a registered function the arity
/// is checked before any argument is evaluated, the arguments are evaluated
/// in the caller's environment, and the body runs against a fresh
/// environment holding only the parameters, with a copy of the registry.
/// The caller's environment and registry are back in force afterwards.
pub open spec fn eval_call_s(id: Seq<char>, args: Seq<AstS>, st: StateS, depth: nat) -> CallOutS
    decreases depth, args, 1int, 0int,
{
    if is_builtin_name(id) {
        match eval_args_s(args, 0, st, depth) {
            ArgsOutS::Vals(st1, vs) => apply_builtin(id, vs, st1),
            ArgsOutS::Halt(st1, c) => CallOutS::Halt(st1, c),
            ArgsOutS::Fail(st1, er) => CallOutS::Fail(st1, er),
        }
    } else if st.funcs.contains_key(id) {
        let def = st.funcs[id];
        if args.len() != def.params.len() {
            CallOutS::Fail(st, EvalError::ArityMismatch)
        } else {
            match eval_args_s(args, 0, st, depth) {
                ArgsOutS::Vals(st1, vs) => if depth == 0 {
                    CallOutS::Fail(st1, EvalError::RecursionLimitExceeded)
                } else {
                    let entry = StateS {
                        env: bind_params(def.params, vs),
                        funcs: st1.funcs,
                        input: st1.input,
                        output: st1.output,
                    };
                    match exec_stmts_s(def.body, 0, entry, (depth - 1) as nat) {
                        StmtOutS::Next(st2) => CallOutS::Unit(
                            StateS { env: st1.env, funcs: st1.funcs, ..st2 },
                        ),
                        StmtOutS::Halt(st2, c) => CallOutS::Halt(
                            StateS { env: st1.env, funcs: st1.funcs, ..st2 },
                            c,
                        ),
                        StmtOutS::Fail(st2, er) => CallOutS::Fail(
                            StateS { env: st1.env, funcs: st1.funcs, ..st2 },
                            er,
                        ),
                    }
                },
                ArgsOutS::Halt(st1, c) => CallOutS::Halt(st1, c),
                ArgsOutS::Fail(st1, er) => CallOutS::Fail(st1, er),
            }
        }
    } else {
        CallOutS::Fail(st, EvalError::UndefinedFunction)
    }
}

/// An argument list that evaluates to values yields one value per
/// expression.
pub proof fn lemma_eval_args_len(es: Seq<AstS>, i: int, st: StateS, depth: nat)
    requires
        0 <= i <= es.len(),
    ensures
        eval_args_s(es, i, st, depth) matches ArgsOutS::Vals(st1, vs) ==> vs.len() == es.len()
            - i,
    decreases es.len() - i,
{
    if i < es.len() {
        match eval_expr_s(es[i], st, depth) {
            ExprOutS::Val(st1, v) => {
                lemma_eval_args_len(es, i + 1, st1, depth);
            },
            _ => {},
        }
    }
}

/// What one statement does to the state.
pub open spec fn exec_stmt_s(s: AstS, st: StateS, depth: nat) -> StmtOutS
    decreases depth, s, 0int, 0int,
{
    match s {
        AstS::Assign { id, expr } => match eval_expr_s(*expr, st, depth) {
            ExprOutS::Val(st1, v) => StmtOutS::Next(
                StateS { env: st1.env.insert(id, v), ..st1 },
            ),
            ExprOutS::Halt(st1, c) => StmtOutS::Halt(st1, c),
            ExprOutS::Fail(st1, er) => StmtOutS::Fail(st1, er),
        },
        AstS::IndexAssign { id, index, value } => match eval_expr_s(*index, st, depth) {
            ExprOutS::Val(st1, vi) => match eval_expr_s(*value, st1, depth) {
                ExprOutS::Val(st2, vv) => if !st2.env.contains_key(id) {
                    StmtOutS::Fail(st2, EvalError::UndefinedVariable)
                } else {
                    match (st2.env[id], vi) {
                        (DataS::Arr(es), DataS::Int(i)) => if 0 <= i < es.len() {
                            StmtOutS::Next(
                                StateS {
                                    env: st2.env.insert(id, DataS::Arr(es.update(i, vv))),
                                    ..st2
                                },
                            )
                        } else {
                            StmtOutS::Fail(st2, EvalError::IndexOutOfBounds)
                        },
                        _ => StmtOutS::Fail(st2, EvalError::TypeMismatch),
                    }
                },
                ExprOutS::Halt(st2, c) => StmtOutS::Halt(st2, c),
                ExprOutS::Fail(st2, er) => StmtOutS::Fail(st2, er),
            },
            ExprOutS::Halt(st1, c) => StmtOutS::Halt(st1, c),
            ExprOutS::Fail(st1, er) => StmtOutS::Fail(st1, er),
        },
        AstS::FunctionDefinition { id, params, body } => if st.funcs.contains_key(id)
            || is_builtin_name(id) {
            StmtOutS::Fail(st, EvalError::DuplicateFunctionDefinition)
        } else {
            StmtOutS::Next(
                StateS {
                    funcs: st.funcs.insert(id, FnDefS { params, body }),
                    ..st
                },
            )
        },
        AstS::FunctionCall { id, args } => match eval_call_s(id, args, st, depth) {
            CallOutS::Val(st1, _v) => StmtOutS::Next(st1),
            CallOutS::Unit(st1) => StmtOutS::Next(st1),
            CallOutS::Halt(st1, c) => StmtOutS::Halt(st1, c),
            CallOutS::Fail(st1, er) => StmtOutS::Fail(st1, er),
        },
        AstS::If { cond, body } => match eval_expr_s(*cond, st, depth) {
            ExprOutS::Val(st1, v) => match v {
                DataS::Int(c) => if c != 0 {
                    exec_stmts_s(body, 0, st1, depth)
                } else {
                    StmtOutS::Next(st1)
                },
                _ => StmtOutS::Fail(st1, EvalError::TypeMismatch),
            },
            ExprOutS::Halt(st1, c) => StmtOutS::Halt(st1, c),
            ExprOutS::Fail(st1, er) => StmtOutS::Fail(st1, er),
        },
        AstS::For { var, iter, body } => match eval_expr_s(*iter, st, depth) {
            ExprOutS::Val(st1, v) => match v {
                DataS::Arr(es) => run_for_s(var, es, 0, body, st1, depth),
                _ => StmtOutS::Fail(st1, EvalError::TypeMismatch),
            },
            ExprOutS::Halt(st1, c) => StmtOutS::Halt(st1, c),
            ExprOutS::Fail(st1, er) => StmtOutS::Fail(st1, er),
        },
        _ => StmtOutS::Fail(st, EvalError::UnhandledNodeKind),
    }
}

/// What a statement sequence does from position `i` on. A halt or a failure
/// stops the sequence at once; the statements after it never run.
pub open spec fn exec_stmts_s(ss: Seq<AstS>, i: int, st: StateS, depth: nat) -> StmtOutS
    recommends
        0 <= i <= ss.len(),
    decreases depth, ss, 0int, ss.len() - i,
{
    if i < 0 || i >= ss.len() {
        StmtOutS::Next(st)
    } else {
        match exec_stmt_s(ss[i], st, depth) {
            StmtOutS::Next(st1) => exec_stmts_s(ss, i + 1, st1, depth),
            out => out,
        }
    }
}

/// One loop pass per element of `elems` from position `idx` on: the loop
/// variable is bound in the enclosing environment, which the body shares.
pub open spec fn run_for_s(
    var: Seq<char>,
    elems: Seq<DataS>,
    idx: int,
    body: Seq<AstS>,
    st: StateS,
    depth: nat,
) -> StmtOutS
    recommends
        0 <= idx <= elems.len(),
    decreases depth, body, elems.len() - idx + 1, 0int,
{
    if idx < 0 || idx >= elems.len() {
        StmtOutS::Next(st)
    } else {
        let entry = StateS { env: st.env.insert(var, elems[idx]), ..st };
        match exec_stmts_s(body, 0, entry, depth) {
            StmtOutS::Next(st1) => run_for_s(var, elems, idx + 1, body, st1, depth),
            out => out,
        }
    }
}

} // verus!

use tinyscript::ast::Ast;
use tinyscript::ast::BinOp;
use tinyscript::data::Data;
use tinyscript::eval::EvalOut;
use tinyscript::eval::Io;
use tinyscript::eval::Program;
use tinyscript::eval::RunOutcome;
use tinyscript::eval::eval_expr;
use tinyscript::parser::parse_code;
use tinyscript::semantics::EvalError;
use tinyscript::strmap::StrMap;

fn empty_io() -> Io {
    Io { input: Vec::new(), output: Vec::new() }
}

fn eval_pure(ast: &Ast, vars: &StrMap<Data>) -> EvalOut {
    let funcs: StrMap<tinyscript::ast::FnDef> = StrMap::new();
    let mut io = empty_io();
    eval_expr(ast, vars, &funcs, &mut io, 16)
}

fn run_src(src: &str, input: Vec<String>) -> (RunOutcome, Vec<String>) {
    let cmds = match parse_code(src) {
        Ok(c) => c,
        Err(e) => panic!("parse failed at {}: {:?}", e.pos, e.kind),
    };
    let mut p = Program::new(cmds, input);
    let r = p.run_loop();
    (r, p.io.output)
}

fn lines(xs: &[&str]) -> Vec<String> {
    xs.iter().map(|s| String::from(*s)).collect()
}

#[test]
fn test_evaluate_int() {
    let ast = Ast::Int(42);
    let variables = StrMap::new();
    let result = eval_pure(&ast, &variables);
    assert_eq!(result, EvalOut::Val(Data::Int(42)));
}

#[test]
fn test_evaluate_identifier() {
    let ast = Ast::Identifier(String::from("x"));
    let mut variables = StrMap::new();
    variables.insert(String::from("x"), Data::Int(42));
    let result = eval_pure(&ast, &variables);
    assert_eq!(result, EvalOut::Val(Data::Int(42)));
}

#[test]
fn test_evaluate_binary_op() {
    let left = Ast::Int(2);
    let right = Ast::Int(3);
    let ast = Ast::BinaryOp { op: BinOp::Add, left: Box::new(left), right: Box::new(right) };
    let variables = StrMap::new();
    let result = eval_pure(&ast, &variables);
    assert_eq!(result, EvalOut::Val(Data::Int(5)));
}

#[test]
fn test_evaluate_string() {
    let ast = Ast::String(String::from("hello"));
    let variables = StrMap::new();
    let result = eval_pure(&ast, &variables);
    assert_eq!(result, EvalOut::Val(Data::String(String::from("hello"))));
}

#[test]
fn test_evaluate_array() {
    let elements = vec![Ast::Int(1), Ast::Int(2), Ast::Int(3)];
    let ast = Ast::Array(elements);
    let variables = StrMap::new();
    let result = eval_pure(&ast, &variables);
    assert_eq!(
        result,
        EvalOut::Val(Data::Array(vec![Data::Int(1), Data::Int(2), Data::Int(3)]))
    );
}

#[test]
fn precedence_example() {
    let (r, out) = run_src("print(3 + 4 * 2 - 6 / 3 * 2);", Vec::new());
    assert_eq!(r, RunOutcome::Completed);
    assert_eq!(out, lines(&["7"]));
}

#[test]
fn parentheses_override_precedence() {
    let (r, out) = run_src("print((3 + 4) * 2);", Vec::new());
    assert_eq!(r, RunOutcome::Completed);
    assert_eq!(out, lines(&["14"]));
}

#[test]
fn assignment_then_lookup() {
    let (r, out) = run_src("x = 5; print(x);", Vec::new());
    assert_eq!(r, RunOutcome::Completed);
    assert_eq!(out, lines(&["5"]));
}

#[test]
fn array_index_roundtrip() {
    let (r, out) = run_src("x = [5,7,3]; x[1] = 3; print(x[1]);", Vec::new());
    assert_eq!(r, RunOutcome::Completed);
    assert_eq!(out, lines(&["3"]));
}

#[test]
fn call_scope_is_isolated() {
    let (r, out) = run_src(
        "x = 1; def f(x: int) { y = x + 10; print(y); }; f(2); print(x);",
        Vec::new(),
    );
    assert_eq!(r, RunOutcome::Completed);
    assert_eq!(out, lines(&["12", "1"]));
}

#[test]
fn recursion_computes_power() {
    let src = "def pow_acc(base: int, power: int, acc: int) { \
                   if (power == 0) { return(acc); }; \
                   pow_acc(base, power - 1, acc * base); \
               }; \
               def custom_pow(base: int, power: int) { pow_acc(base, power, 1); }; \
               custom_pow(3, 4);";
    let (r, out) = run_src(src, Vec::new());
    assert_eq!(r, RunOutcome::Halted(81));
    assert_eq!(out, lines(&[]));
}

#[test]
fn return_halts_everything() {
    let (r, out) = run_src("print(1); return(2); print(3);", Vec::new());
    assert_eq!(r, RunOutcome::Halted(2));
    assert_eq!(out, lines(&["1"]));
}

#[test]
fn return_inside_function_halts_whole_program() {
    let (r, out) = run_src(
        "def f(a: int) { return(a); print(99); }; f(7); print(8);",
        Vec::new(),
    );
    assert_eq!(r, RunOutcome::Halted(7));
    assert_eq!(out, lines(&[]));
}

#[test]
fn division_by_zero_fails() {
    let (r, out) = run_src("x = 1 / 0;", Vec::new());
    assert_eq!(r, RunOutcome::Failed(EvalError::DivisionByZero));
    assert_eq!(out, lines(&[]));
}

#[test]
fn division_truncates_toward_zero() {
    let (r, out) = run_src("print(7 / 2); print((0 - 7) / 2);", Vec::new());
    assert_eq!(r, RunOutcome::Completed);
    assert_eq!(out, lines(&["3", "-3"]));
}

#[test]
fn index_out_of_bounds_fails() {
    let (r, _) = run_src("x = [1,2]; print(x[5]);", Vec::new());
    assert_eq!(r, RunOutcome::Failed(EvalError::IndexOutOfBounds));
}

#[test]
fn duplicate_definition_fails() {
    let (r, _) = run_src(
        "def f(a: int) { print(a); }; def f(b: int) { print(b); };",
        Vec::new(),
    );
    assert_eq!(r, RunOutcome::Failed(EvalError::DuplicateFunctionDefinition));
}

#[test]
fn shadowing_builtin_fails() {
    let (r, _) = run_src("def print(a: int) { a = 1; };", Vec::new());
    assert_eq!(r, RunOutcome::Failed(EvalError::DuplicateFunctionDefinition));
}

#[test]
fn arity_mismatch_too_few() {
    let (r, _) = run_src("def f(a: int, b: int) { print(a); }; f(1);", Vec::new());
    assert_eq!(r, RunOutcome::Failed(EvalError::ArityMismatch));
}

#[test]
fn arity_mismatch_too_many() {
    let (r, _) = run_src("def f(a: int, b: int) { print(a); }; f(1, 2, 3);", Vec::new());
    assert_eq!(r, RunOutcome::Failed(EvalError::ArityMismatch));
}

#[test]
fn undefined_variable_fails() {
    let (r, _) = run_src("print(y);", Vec::new());
    assert_eq!(r, RunOutcome::Failed(EvalError::UndefinedVariable));
}

#[test]
fn undefined_function_fails() {
    let (r, _) = run_src("g(1);", Vec::new());
    assert_eq!(r, RunOutcome::Failed(EvalError::UndefinedFunction));
}

#[test]
fn type_mismatch_on_string_arithmetic() {
    let (r, _) = run_src("x = \"a\" + 1;", Vec::new());
    assert_eq!(r, RunOutcome::Failed(EvalError::TypeMismatch));
}

#[test]
fn unbounded_recursion_is_cut_off() {
    let (r, _) = run_src("def f() { f(); }; f();", Vec::new());
    assert_eq!(r, RunOutcome::Failed(EvalError::RecursionLimitExceeded));
}

#[test]
fn call_without_return_has_no_value() {
    let (r, _) = run_src("def f() { y = 1; }; x = f();", Vec::new());
    assert_eq!(r, RunOutcome::Failed(EvalError::NoValue));
}

#[test]
fn expression_as_statement_is_unhandled() {
    let mut p = Program::new(vec![Ast::Int(3)], Vec::new());
    let r = p.run_loop();
    assert_eq!(r, RunOutcome::Failed(EvalError::UnhandledNodeKind));
}

#[test]
fn if_and_for_share_the_outer_scope() {
    let (r, out) = run_src(
        "s = 0; for v in [1,2,3] { s = s + v; }; if (s == 6) { t = 40 + 2; }; print(t);",
        Vec::new(),
    );
    assert_eq!(r, RunOutcome::Completed);
    assert_eq!(out, lines(&["42"]));
}

#[test]
fn split_cuts_text_and_keeps_empty_pieces() {
    let (r, out) = run_src(
        "x = split(\"a,b,,c\", \",\"); print(x[0]); print(x[2]); print(x);",
        Vec::new(),
    );
    assert_eq!(r, RunOutcome::Completed);
    assert_eq!(out, lines(&["a", "", "[a, b, , c]"]));
}

#[test]
fn input_reads_one_line() {
    let (r, out) = run_src("x = input(); print(x);", lines(&["hi"]));
    assert_eq!(r, RunOutcome::Completed);
    assert_eq!(out, lines(&["hi"]));
}

#[test]
fn input_on_empty_source_reads_empty_text() {
    let (r, out) = run_src("x = input(); print(x);", Vec::new());
    assert_eq!(r, RunOutcome::Completed);
    assert_eq!(out, lines(&[""]));
}

#[test]
fn inputf_reads_one_line_per_field() {
    let (r, out) = run_src(
        "x = inputf(\"%Number %String\"); print(x[0]); print(x[1]);",
        lines(&["12", "ab"]),
    );
    assert_eq!(r, RunOutcome::Completed);
    assert_eq!(out, lines(&["12", "ab"]));
}

#[test]
fn inputf_rejects_a_non_number() {
    let (r, _) = run_src("x = inputf(\"%Number\");", lines(&["xy"]));
    assert_eq!(r, RunOutcome::Failed(EvalError::TypeMismatch));
}

#[test]
fn inputf_skips_text_between_fields() {
    let (r, out) = run_src(
        "x = inputf(\"a %Number b\"); print(x[0]);",
        lines(&["-7"]),
    );
    assert_eq!(r, RunOutcome::Completed);
    assert_eq!(out, lines(&["-7"]));
}

#[test]
fn as_int_and_as_text_narrow_totally() {
    assert_eq!(Data::Int(5).as_int(), Ok(5));
    assert_eq!(
        Data::String(String::from("5")).as_int(),
        Err(EvalError::TypeMismatch)
    );
    assert_eq!(Data::Array(Vec::new()).as_int(), Err(EvalError::TypeMismatch));
    assert_eq!(Data::Int(-3).as_text(), Ok(String::from("-3")));
    assert_eq!(Data::String(String::from("ok")).as_text(), Ok(String::from("ok")));
    assert_eq!(Data::Array(Vec::new()).as_text(), Err(EvalError::TypeMismatch));
}

#[test]
fn string_division_by_zero_is_a_type_mismatch() {
    let (r, _) = run_src("x = \"a\" / 0;", Vec::new());
    assert_eq!(r, RunOutcome::Failed(EvalError::TypeMismatch));
}

#[test]
fn arithmetic_wraps_at_the_64_bit_edge() {
    let (r, out) = run_src("print(9223372036854775807 + 1);", Vec::new());
    assert_eq!(r, RunOutcome::Completed);
    assert_eq!(out, lines(&["-9223372036854775808"]));
}

#[test]
fn comparisons_yield_zero_or_one() {
    let (r, out) = run_src("print(1 < 2); print(2 < 1); print(3 == 3);", Vec::new());
    assert_eq!(r, RunOutcome::Completed);
    assert_eq!(out, lines(&["1", "0", "1"]));
}

#[test]
fn printing_renders_negative_numbers_and_arrays() {
    let (r, out) = run_src("print(0 - 5); print([1, [2, \"x\"], 3]);", Vec::new());
    assert_eq!(r, RunOutcome::Completed);
    assert_eq!(out, lines(&["-5", "[1, [2, x], 3]"]));
}

#[test]
fn as_float_and_as_string_convert() {
    assert_eq!(Data::Int(-7).as_float(), -7);
    assert_eq!(Data::Int(-7).as_string(), String::from("-7"));
    assert_eq!(Data::String(String::from("ok")).as_string(), String::from("ok"));
}

#[test]
fn parse_rejects_missing_expression() {
    assert!(parse_code("x = ;").is_err());
}

#[test]
fn parse_rejects_unterminated_string() {
    let e = parse_code("x = \"abc;").unwrap_err();
    assert_eq!(e.kind, tinyscript::parser::ParseErrorKind::UnexpectedEnd);
}

#[test]
fn parse_rejects_huge_literal() {
    let e = parse_code("x = 99999999999999999999;").unwrap_err();
    assert_eq!(e.kind, tinyscript::parser::ParseErrorKind::InvalidLiteral);
}

#[test]
fn parse_rejects_missing_semicolon() {
    assert!(parse_code("x = 1").is_err());
}

#[test]
fn parse_builds_left_associative_subtraction() {
    let (r, out) = run_src("print(10 - 3 - 2);", Vec::new());
    assert_eq!(r, RunOutcome::Completed);
    assert_eq!(out, lines(&["5"]));
}

#[test]
fn nested_call_sees_fresh_registry() {
    let (r, out) = run_src(
        "def outer() { def inner() { print(1); }; inner(); }; outer(); print(2);",
        Vec::new(),
    );
    assert_eq!(r, RunOutcome::Completed);
    assert_eq!(out, lines(&["1", "2"]));
}

#[test]
fn inner_definition_does_not_escape() {
    let (r, _) = run_src(
        "def outer() { def inner() { print(1); }; }; outer(); inner();",
        Vec::new(),
    );
    assert_eq!(r, RunOutcome::Failed(EvalError::UndefinedFunction));
}

#[test]
fn if_with_false_condition_skips_the_body() {
    let (r, out) = run_src("if (1 > 2) { print(1); }; print(2);", Vec::new());
    assert_eq!(r, RunOutcome::Completed);
    assert_eq!(out, lines(&["2"]));
}

#[test]
fn for_over_empty_array_runs_no_pass() {
    let (r, out) = run_src("for v in [] { print(v); }; print(9);", Vec::new());
    assert_eq!(r, RunOutcome::Completed);
    assert_eq!(out, lines(&["9"]));
}

#[test]
fn nested_arrays_index_through() {
    let (r, out) = run_src("x = [[1, 2], [3, 4]]; print(x[1][0]);", Vec::new());
    assert_eq!(r, RunOutcome::Completed);
    assert_eq!(out, lines(&["3"]));
}

#[test]
fn return_without_argument_fails() {
    let (r, _) = run_src("return();", Vec::new());
    assert_eq!(r, RunOutcome::Failed(EvalError::ArityMismatch));
}

#[test]
fn return_with_text_fails() {
    let (r, _) = run_src("return(\"x\");", Vec::new());
    assert_eq!(r, RunOutcome::Failed(EvalError::TypeMismatch));
}

#[test]
fn print_writes_one_line_per_argument() {
    let (r, out) = run_src("print(1, 2, \"three\");", Vec::new());
    assert_eq!(r, RunOutcome::Completed);
    assert_eq!(out, lines(&["1", "2", "three"]));
}

#[test]
fn split_without_a_delimiter_hit_keeps_the_text_whole() {
    let (r, out) = run_src("x = split(\"abc\", \",\"); print(x); print(x[0]);", Vec::new());
    assert_eq!(r, RunOutcome::Completed);
    assert_eq!(out, lines(&["[abc]", "abc"]));
}

#[test]
fn index_assign_on_a_non_array_fails() {
    let (r, _) = run_src("x = 5; x[0] = 1;", Vec::new());
    assert_eq!(r, RunOutcome::Failed(EvalError::TypeMismatch));
}

#[test]
fn loop_variable_stays_visible_after_the_loop() {
    let (r, out) = run_src("for v in [1,2] { s = v; }; print(v);", Vec::new());
    assert_eq!(r, RunOutcome::Completed);
    assert_eq!(out, lines(&["2"]));
}

#[test]
fn min_by_minus_one_wraps() {
    let (r, out) = run_src(
        "print((0 - 9223372036854775807 - 1) / (0 - 1));",
        Vec::new(),
    );
    assert_eq!(r, RunOutcome::Completed);
    assert_eq!(out, lines(&["-9223372036854775808"]));
}

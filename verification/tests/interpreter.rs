// End-to-end tests: one read/eval/write round against a fresh or shared
// global environment, comparing the printed result.

use std::rc::Rc;

use dial::builtins::create_global_envr;
use dial::env::Env;
use dial::error::DialError;
use dial::object::Object;
use dial::reader::Reader;

const FUEL: u64 = 100_000;

fn run(env: &mut Env, code: &str) -> Result<Rc<Object>, DialError> {
    let reader = Reader {};
    let expr = reader.read(code)?;
    Object::eval(&expr, env, 0, FUEL)
}

fn testr(code: &str, expected: &str) {
    let mut env = create_global_envr();
    let value = run(&mut env, code).unwrap();
    assert_eq!(value.write().unwrap(), expected);
}

fn test_err(code: &str, expected_code: i16) {
    let mut env = create_global_envr();
    let err = run(&mut env, code).unwrap_err();
    assert_eq!(err.code, expected_code);
}

#[test]
fn test_integer() {
    testr("1", "1")
}

#[test]
fn test_float() {
    // The reader has no numeric tower beyond integers: "3.1415" is a symbol,
    // and no binding of that name exists in the global environment.
    test_err("3.1415", 108)
}

#[test]
fn test_string() {
    // The reader has no string lexing: "\"hello\"" is a symbol, and no
    // binding of that name exists in the global environment.
    test_err("\"hello\"", 108)
}

#[test]
fn test_true() {
    testr("#t", "#t")
}

#[test]
fn test_false() {
    testr("#f", "#f")
}

#[test]
fn test_quote_number() {
    testr("(quote 1)", "1")
}

#[test]
fn test_built_in_add_as_proc() {
    testr("+", "proc")
}

#[test]
fn test_add() {
    testr("(+ 1 2)", "3")
}

#[test]
fn test_add_empty() {
    testr("(+)", "0")
}

#[test]
fn test_add_many() {
    testr("(+ 1 2 3 4 5)", "15")
}

#[test]
fn test_add_wraps_around() {
    testr(
        "(+ 170141183460469231731687303715884105727 1)",
        "-170141183460469231731687303715884105728",
    )
}

#[test]
fn test_negative_number() {
    testr("-5", "-5")
}

#[test]
fn test_plus_sign_number() {
    testr("+7", "7")
}

#[test]
fn test_oversized_numeral_is_a_symbol() {
    test_err("170141183460469231731687303715884105728", 108)
}

#[test]
fn test_lambda_application() {
    testr("((lambda (x) (+ x x)) 42)", "84")
}

#[test]
fn test_define_sequence() {
    let mut env = create_global_envr();
    let first = run(&mut env, "(define x 1)").unwrap();
    assert_eq!(first.write().unwrap(), "<unspecified>");
    let second = run(&mut env, "x").unwrap();
    assert_eq!(second.write().unwrap(), "1");
}

#[test]
fn test_define_lambda() {
    let mut env = create_global_envr();
    let first = run(&mut env, "(define double (lambda (x) (+ x x)))").unwrap();
    assert_eq!(first.write().unwrap(), "<unspecified>");
    let second = run(&mut env, "(double (double 4))").unwrap();
    assert_eq!(second.write().unwrap(), "16");
}

#[test]
fn test_if() {
    testr("(if #f 1 2)", "2");
    testr("(if #t 1 2)", "1");
}

#[test]
fn test_if_null_is_false() {
    testr("(if (quote ()) 1 2)", "2");
}

#[test]
fn test_if_number_is_truthy() {
    testr("(if 0 1 2)", "1");
}

#[test]
fn test_unbound_symbol() {
    test_err("y", 108)
}

#[test]
fn test_add_type_mismatch() {
    test_err("(+ 1 #t)", 111)
}

#[test]
fn test_empty_input_is_not_evaluable() {
    // Empty input reads as the unspecified value, which the evaluator
    // refuses.
    test_err("", 109)
}

#[test]
fn test_empty_list() {
    testr("(quote ())", "null")
}

#[test]
fn test_quote_list_prints_dotted() {
    testr("(quote (1 2))", "(1 . (2 . null))")
}

#[test]
fn test_lexical_scope_through_global() {
    let mut env = create_global_envr();
    run(&mut env, "(define k 7)").unwrap();
    run(&mut env, "(define getk (lambda () k))").unwrap();
    let value = run(&mut env, "(getk)").unwrap();
    assert_eq!(value.write().unwrap(), "7");
    // The closure sees the frame it captured, not a copy of it.
    run(&mut env, "(define k 9)").unwrap();
    let value = run(&mut env, "(getk)").unwrap();
    assert_eq!(value.write().unwrap(), "9");
}

#[test]
fn test_define_inside_lambda_is_local() {
    let mut env = create_global_envr();
    run(&mut env, "(define x 1)").unwrap();
    run(&mut env, "((lambda () (define x 5) x))").unwrap();
    let value = run(&mut env, "x").unwrap();
    assert_eq!(value.write().unwrap(), "1");
}

#[test]
fn test_shadowing_parameter() {
    let mut env = create_global_envr();
    run(&mut env, "(define x 1)").unwrap();
    let value = run(&mut env, "((lambda (x) x) 2)").unwrap();
    assert_eq!(value.write().unwrap(), "2");
    let value = run(&mut env, "x").unwrap();
    assert_eq!(value.write().unwrap(), "1");
}

#[test]
fn test_closure_over_retired_scope_fails() {
    let mut env = create_global_envr();
    run(&mut env, "(define f ((lambda (x) (lambda (y) x)) 1))").unwrap();
    let err = run(&mut env, "(f 5)").unwrap_err();
    assert_eq!(err.code, 112);
}

#[test]
fn test_operands_evaluate_left_to_right() {
    let mut env = create_global_envr();
    // Of two failing operands, the error of the leftmost one wins.
    let err = run(&mut env, "(+ (quote) nosuch)").unwrap_err();
    assert_eq!(err.code, 101);
    let err = run(&mut env, "(+ nosuch (quote))").unwrap_err();
    assert_eq!(err.code, 108);
    // The effects of the operands before the failing one persist.
    let err = run(&mut env, "(+ (define x 5) nosuch)").unwrap_err();
    assert_eq!(err.code, 108);
    let value = run(&mut env, "x").unwrap();
    assert_eq!(value.write().unwrap(), "5");
}

#[test]
fn test_arity_mismatch() {
    test_err("((lambda (x) x) 1 2)", 110);
    test_err("((lambda (x y) x) 1)", 110);
}

#[test]
fn test_empty_body_yields_unspecified() {
    testr("((lambda ()))", "<unspecified>")
}

#[test]
fn test_body_sequence_returns_last() {
    testr("((lambda () 1 2 3))", "3")
}

#[test]
fn test_quote_bare_is_not_evaluable() {
    test_err("quote", 109)
}

#[test]
fn test_quote_without_operand() {
    test_err("(quote)", 101)
}

#[test]
fn test_define_without_value() {
    test_err("(define x)", 101)
}

#[test]
fn test_define_of_non_symbol() {
    test_err("(define 1 2)", 107)
}

#[test]
fn test_if_without_alternate() {
    // The alternate is only missed when the predicate is false.
    testr("(if #t 1)", "1");
    test_err("(if #f 1)", 105);
    test_err("(if)", 105);
}

#[test]
fn test_bare_lambda_is_malformed() {
    test_err("(lambda)", 106)
}

#[test]
fn test_param_that_is_no_symbol() {
    test_err("((lambda (1) 1) 2)", 102)
}

#[test]
fn test_apply_non_procedure() {
    test_err("(1 2)", 103)
}

#[test]
fn test_unclosed_paren() {
    test_err("(", 200);
    test_err("(+ 1", 200);
}

#[test]
fn test_unexpected_close() {
    test_err(")", 201)
}

#[test]
fn test_recursion_limit() {
    let mut env = create_global_envr();
    let reader = Reader {};
    let expr = reader
        .read("((lambda (x) (x x)) (lambda (x) (x x)))")
        .unwrap();
    let err = Object::eval(&expr, &mut env, 0, 10).unwrap_err();
    assert_eq!(err.code, 113);
}

#[test]
fn test_trailing_tokens_are_ignored() {
    testr("1 2 3", "1");
    testr("(+ 1 2) extra", "3");
}

//! Tests of the arithmetic and structural built-ins, driven through `eval`.

use rlisp::eval::eval;
use rlisp::types::Element;

fn num(n: i64) -> Element {
    Element::Number(n)
}

fn everr(s: &str) -> Element {
    Element::EvalError(s.to_string())
}

#[test]
fn funcs_test_add() {
    assert!(eval("(+)") == num(0));
    assert!(eval("(+ 5)") == num(5));
    assert!(eval("(+ 1 1)") == num(2));
    assert!(eval("(+ 4 5 6)") == num(15));
    assert!(eval("(+ 5 -1)") == num(4));
}

#[test]
fn funcs_test_sub() {
    assert!(eval("(-)") == everr("-: Wrong number of args (0)"));
    assert!(eval("(- 1)") == num(-1));
    assert!(eval("(- 1 1)") == num(0));
    assert!(eval("(- 2 3)") == num(-1));
    assert!(eval("(- 5 3)") == num(2));
    assert!(eval("(- 9 5 2)") == num(2));
    assert!(eval("(- 4 -2)") == num(6));
}

#[test]
fn funcs_test_mul() {
    assert!(eval("(*)") == num(1));
    assert!(eval("(* 2)") == num(2));
    assert!(eval("(* 2 3)") == num(6));
    assert!(eval("(* 2 0)") == num(0));
    assert!(eval("(* 4 -1)") == num(-4));
}

#[test]
fn funcs_test_div() {
    assert!(eval("(/)") == everr("/: Wrong number of args (0)"));
    assert!(eval("(/ 1)") == num(1));
    assert!(eval("(/ 2)") == num(0));
    assert!(eval("(/ 2 1)") == num(2));
    assert!(eval("(/ 4 2)") == num(2));
    assert!(eval("(/ 100 2 2 5)") == num(5));
    assert!(eval("(/ 0)") == everr("/: Divide by zero"));
    assert!(eval("(/ 10 0)") == everr("/: Divide by zero"));
}

#[test]
fn funcs_test_mod() {
    assert!(eval("(%)") == everr("%: Wrong number of args (0)"));
    assert!(eval("(% 1)") == everr("%: Wrong number of args (1)"));
    assert!(eval("(% 1 2 3)") == everr("%: Wrong number of args (3)"));
    assert!(eval("(% 1 0)") == everr("%: Divide by zero"));
    assert!(eval("(% 1 1)") == num(0));
    assert!(eval("(% 10 1)") == num(0));
    assert!(eval("(% 10 7)") == num(3));
    assert!(eval("(% 10 -3)") == num(1));
    assert!(eval("(% -10 3)") == num(-1));
}

#[test]
fn funcs_test_concat() {
    assert!(eval("(concat [1] [2])") == Element::List(vec![num(1), num(2)]));
    assert!(
        eval("(concat \"ab\" \"cd\")") == Element::List(vec![
            Element::Character('a'),
            Element::Character('b'),
            Element::Character('c'),
            Element::Character('d'),
        ])
    );
}

#[test]
fn test_arith_type_errors() {
    assert!(eval("(+ 1 \"x\")") == everr("+: invalid value"));
    assert!(eval("(- 1 \"x\")") == everr("-: invalid value"));
    assert!(eval("(* 1 \"x\")") == everr("*: invalid value"));
    assert!(eval("(/ 1 \"x\")") == everr("/: invalid value"));
    assert!(eval("(% 1 \"x\")") == everr("%: invalid value"));
}

#[test]
fn test_concat_type_error() {
    assert!(eval("(concat 1)") == everr("not a concatable collection type"));
}

#[test]
fn test_equal_arity() {
    assert!(eval("(=)") == everr("=: wrong number of args (0) passed"));
    assert!(eval("(= 1)") == Element::Boolean(true));
}

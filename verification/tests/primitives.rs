//! Tests of the built-in operations as the evaluator dispatches them.

use rlisp::eval::eval;
use rlisp::functypes::{NativeOp, RustFunc};
use rlisp::types::Element;

fn num(n: i64) -> Element {
    Element::Number(n)
}

fn everr(s: &str) -> Element {
    Element::EvalError(s.to_string())
}

#[test]
fn test_add() {
    assert!(eval("(+)") == num(0));
    assert!(eval("(+ 5)") == num(5));
    assert!(eval("(+ 1 1)") == num(2));
    assert!(eval("(+ 4 5 6)") == num(15));
    assert!(eval("(+ 5 -1)") == num(4));
}

#[test]
fn test_sub() {
    assert!(eval("(-)") == everr("-: Wrong number of args (0)"));
    assert!(eval("(- 1)") == num(-1));
    assert!(eval("(- 1 1)") == num(0));
    assert!(eval("(- 2 3)") == num(-1));
    assert!(eval("(- 5 3)") == num(2));
    assert!(eval("(- 9 5 2)") == num(2));
    assert!(eval("(- 4 -2)") == num(6));
}

#[test]
fn test_mul() {
    assert!(eval("(*)") == num(1));
    assert!(eval("(* 2)") == num(2));
    assert!(eval("(* 2 3)") == num(6));
    assert!(eval("(* 2 0)") == num(0));
    assert!(eval("(* 4 -1)") == num(-4));
}

#[test]
fn test_div() {
    assert!(eval("(/)") == everr("/: Wrong number of args (0)"));
    assert!(eval("(/ 1)") == num(1));
    assert!(eval("(/ 2)") == num(0));
    assert!(eval("(/ 2 1)") == num(2));
    assert!(eval("(/ 4 2)") == num(2));
    assert!(eval("(/ 100 2 2 5)") == num(5));
    assert!(eval("(/ 0)") == everr("/: Divide by zero"));
    assert!(eval("(/ 10 0)") == everr("/: Divide by zero"));
}

#[test]
fn test_mod() {
    assert!(eval("(%)") == everr("%: Wrong number of args (0)"));
    assert!(eval("(% 1)") == everr("%: Wrong number of args (1)"));
    assert!(eval("(% 1 2 3)") == everr("%: Wrong number of args (3)"));
    assert!(eval("(% 1 0)") == everr("%: Divide by zero"));
    assert!(eval("(% 1 1)") == num(0));
    assert!(eval("(% 10 1)") == num(0));
    assert!(eval("(% 10 7)") == num(3));
    assert!(eval("(% 10 -3)") == num(1));
    assert!(eval("(% -10 3)") == num(-1));
}

#[test]
fn test_concat() {
    assert!(eval("(concat [1] [2])") == Element::List(vec![num(1), num(2)]));
    assert!(
        eval("(concat \"ab\" \"cd\")") == Element::List(vec![
            Element::Character('a'),
            Element::Character('b'),
            Element::Character('c'),
            Element::Character('d'),
        ])
    );
}

#[test]
fn test_equal() {
    assert!(eval("(= 1 1)") == Element::Boolean(true));
    assert!(eval("(= 1 2)") == Element::Boolean(false));
    assert!(eval("(= 1 \"1\")") == Element::Boolean(false));
    assert!(eval("(= \"1\" \"1\")") == Element::Boolean(true));
    assert!(eval("(= [1 2] [1 2])") == Element::Boolean(true));
    assert!(eval("(= [1 2] [1 3])") == Element::Boolean(false));
    assert!(eval("(= [1 2 3] [1 2])") == Element::Boolean(false));
}

#[test]
fn primitives_test_if_fn() {
    assert!(eval("(if true 1 0)") == num(1));
    assert!(eval("(if (= 5 5) 6 4)") == num(6));
    assert!(eval("(if (= 5 4) 6 4)") == num(4));
    assert!(eval("(if (= (+ 1 2) 3) true false)") == Element::Boolean(true));
}

#[test]
fn test_if_fn_on_values() {
    // the built-in form of `if`, applied to already-evaluated values
    let args = vec![Element::Boolean(true), num(1), num(0)];
    assert!(rlisp::primitives::if_fn(&args) == num(1));
    let args = vec![Element::Boolean(false), num(1), num(0)];
    assert!(rlisp::primitives::if_fn(&args) == num(0));
    let args = vec![Element::Boolean(false), num(1)];
    assert!(rlisp::primitives::if_fn(&args) == Element::Nil);
    let args = vec![num(7), num(1), num(0)];
    assert!(rlisp::primitives::if_fn(&args) == everr("if: first element must be boolean"));
    let args = vec![Element::Boolean(true)];
    assert!(rlisp::primitives::if_fn(&args) == everr("if: wrong number of args (1)"));
}

#[test]
fn test_native_identity() {
    // two registrations of the same behaviour are distinct unless they
    // share a tag; equality goes by the tag alone
    let a = RustFunc::new(NativeOp::Add, 1);
    let b = RustFunc::new(NativeOp::Add, 2);
    let c = RustFunc::new(NativeOp::Add, 1);
    let args = vec![a, b];
    assert!(rlisp::primitives::equal(&args) == Element::Boolean(false));
    let d = RustFunc::new(NativeOp::Add, 1);
    let args = vec![c, d];
    assert!(rlisp::primitives::equal(&args) == Element::Boolean(true));
}

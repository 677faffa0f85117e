//! Tests of the evaluator: literals, special forms, definitions, closures.

use rlisp::eval::{eval, Bindings};
use rlisp::types::Element;

fn num(n: i64) -> Element {
    Element::Number(n)
}

fn sym(s: &str) -> Element {
    Element::Symbol(s.to_string())
}

#[test]
fn test_basic_eval() {
    assert!(eval("1") == num(1));
    assert!(eval("1\n") == num(1));
    assert!(eval("") == Element::Nil);
    assert!(eval("\n") == Element::Nil);
    assert!(eval("()") == Element::List(vec![]));
    assert!(eval("()\n") == Element::List(vec![]));
    assert!(eval("[]") == Element::Vector(vec![]));
    assert!(eval("\"\"") == Element::Str(String::new()));
    assert!(eval("\"test string\"") == Element::Str("test string".to_string()));
    assert!(eval("\"(+ 1 1)\"") == Element::Str("(+ 1 1)".to_string()));
    assert!(eval("[(+ 1 1)]") == Element::Vector(vec![num(2)]));
}

#[test]
fn eval_test_basic_eval() {
    assert!(eval("1") == num(1));
    assert!(eval("1\n") == num(1));
    assert!(eval("") == Element::Nil);
    assert!(eval("\n") == Element::Nil);
    assert!(eval("()") == Element::List(vec![]));
    assert!(eval("()\n") == Element::List(vec![]));
    assert!(eval("[]") == Element::Vector(vec![]));
    assert!(eval("\"\"") == Element::Str(String::new()));
    assert!(eval("\"test string\"") == Element::Str("test string".to_string()));
    assert!(eval("\"(+ 1 1)\"") == Element::Str("(+ 1 1)".to_string()));
    // A vector's elements are evaluated but the vector stays a vector.
    assert!(eval("[(+ 1 1)]") == Element::Vector(vec![num(2)]));
}

#[test]
fn test_if_fn() {
    assert!(eval("(if true 1 0)") == num(1));
    assert!(eval("(if (= 5 5) 6 4)") == num(6));
    assert!(eval("(if (= 5 4) 6 4)") == num(4));
    assert!(eval("(if (= (+ 1 2) 3) true false)") == Element::Boolean(true));
}

#[test]
fn test_def() {
    let mut bindings = Bindings::new();
    // basic assignment
    bindings.eval("(def a 5)");
    assert!(bindings.eval("a") == num(5));
    assert!(bindings.eval("(+ a 5)") == num(10));
    assert!(bindings.eval("(inc a)") == num(6));
    // eager evaluation of the form
    bindings.eval("(def x (+ 5 6))");
    assert!(bindings.eval("x") == num(11));
    // self-referential redefinition: the old binding feeds the new one
    bindings.eval("(def a (+ a 1))");
    assert!(bindings.eval("a") == num(6));
}

#[test]
fn test_fn() {
    let mut bindings = Bindings::new();
    // a fn applied without binding it to a name
    assert!(eval("((fn [x] (+ x 5)) 6)") == num(11));
    // bind a fn to a name and call it
    bindings.eval("(def f (fn [x] (+ x 1)))");
    assert!(bindings.eval("(f 5)") == num(6));
    // recursion through the shared root frame
    bindings.eval("(def fac (fn [x] (if (= x 0) 1 (* x (fac (dec x))))))");
    assert!(bindings.eval("(fac 5)") == num(120));
}

#[test]
fn test_defn() {
    let mut bindings = Bindings::new();
    bindings.eval("(defn plus [x y] (+ x y))");
    assert!(bindings.eval("(plus 5 6)") == num(11));
    bindings.eval("(defn plus [x] (+ x 1))");
    assert!(bindings.eval("(plus 5)") == num(6));
}

#[test]
fn test_symbol_not_defined() {
    assert!(eval("nosuch") == Element::EvalError("Symbol Not defined".to_string()));
    assert!(eval("(nosuch 1)") == Element::EvalError("Symbol Not defined".to_string()));
}

#[test]
fn test_uncallable_head() {
    assert!(eval("(1 2)") == Element::EvalError("Failed to evaluate form".to_string()));
}

#[test]
fn test_if_omitted_else() {
    assert!(eval("(if (= 1 1) 5)") == num(5));
    assert!(eval("(if (= 1 2) 5)") == Element::Nil);
    assert!(eval("(if 1 2 3)") == Element::EvalError("if: first element must be boolean".to_string()));
    assert!(eval("(if true)") == Element::EvalError("if: wrong number of args (1)".to_string()));
}

#[test]
fn test_environment_lookup() {
    let bindings = Bindings::new();
    assert!(bindings.contains_key("+"));
    assert!(!bindings.contains_key("nosuch"));
    assert!(bindings.get("nosuch") == Element::EvalError("Not in scope".to_string()));
    let mut child = bindings.push();
    assert!(child.contains_key("+"));
    // a first insert reports the name as fresh, a second does not
    assert!(child.insert("a", num(1)));
    assert!(!child.insert("a", num(2)));
    assert!(child.get("a") == num(2));
    assert!(!bindings.contains_key("a"));
}

#[test]
fn test_variadic_refused() {
    let mut bindings = Bindings::new();
    let f = rlisp::functypes::BoundFn {
        bindings: vec![rlisp::functypes::ArgBinding::Variadic("xs".to_string())],
        f: sym("xs"),
        is_macro: false,
    };
    let form = Element::List(vec![Element::Function(Box::new(f)), num(1)]);
    assert!(
        bindings.eval_elem(form) == Element::EvalError("Variadic not implemented".to_string())
    );
}

#[test]
fn test_def_persists_across_lines() {
    let mut bindings = Bindings::new();
    bindings.eval("(def greeting \"hi\")");
    assert!(bindings.eval("greeting") == Element::Str("hi".to_string()));
    bindings.eval("(def flag true)");
    assert!(bindings.eval("flag") == Element::Boolean(true));
}

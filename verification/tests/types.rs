//! Tests of the textual rendering of values.

use rlisp::functypes::BoundFn;
use rlisp::types::Element;

fn num(n: i64) -> Element {
    Element::Number(n)
}

fn sym(s: &str) -> Element {
    Element::Symbol(s.to_string())
}

#[test]
fn test_element_tostr() {
    assert!(num(1).to_str() == "1");
    assert!(sym("+").to_str() == "+");
    assert!(Element::Str("test string".to_string()).to_str() == "\"test string\"");
    assert!(Element::Character('c').to_str() == "c");
    assert!(Element::Boolean(true).to_str() == "true");
    assert!(Element::List(vec![sym("+"), num(1), num(2)]).to_str() == "(+ 1 2)");
    assert!(Element::Vector(vec![num(1), num(2)]).to_str() == "[1 2]");
}

#[test]
fn test_boundfn_to_str() {
    let list = vec![sym("+"), sym("x"), num(1)];
    let f = BoundFn::new(&["x".to_string()], Element::List(list));
    assert!(f.to_str() == "(fn [x] (+ x 1))");
}

#[test]
fn test_closure_render_round_trip() {
    // reading a fn form and rendering the closure it builds reproduces the
    // source text exactly
    let built = rlisp::eval::eval("(fn [x] (+ x 1))");
    assert!(built.to_str() == "(fn [x] (+ x 1))");
}

#[test]
fn test_more_renderings() {
    assert!(num(-42).to_str() == "-42");
    assert!(Element::Nil.to_str() == "nil");
    assert!(Element::Boolean(false).to_str() == "false");
    assert!(Element::EvalError("boom".to_string()).to_str() == "Eval Error: boom");
    assert!(Element::ParseError("boom".to_string()).to_str() == "Parse Error: boom");
    assert!(Element::List(vec![]).to_str() == "()");
    assert!(Element::Vector(vec![]).to_str() == "[]");
    assert!(num(i64::MIN).to_str() == "-9223372036854775808");
}

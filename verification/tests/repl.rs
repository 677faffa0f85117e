//! Tests mirroring the interpreter's front-to-back behaviour: tokenizing and
//! evaluating whole lines.

use rlisp::eval::eval;
use rlisp::tokenizer::{tokenize, tokenize_firstpass, tokenize_structure};
use rlisp::types::Element;

fn num(n: i64) -> Element {
    Element::Number(n)
}

fn sym(s: &str) -> Element {
    Element::Symbol(s.to_string())
}

fn everr(s: &str) -> Element {
    Element::EvalError(s.to_string())
}

fn toks(ts: &[&str]) -> Vec<String> {
    ts.iter().map(|t| t.to_string()).collect()
}

#[test]
fn main_test_tokenizer_firstpass() {
    // empty
    assert!(tokenize_firstpass("") == Some(toks(&[])));
    // stripping elements
    assert!(tokenize_firstpass(",") == Some(toks(&[])));
    // single elements
    assert!(tokenize_firstpass("1") == Some(toks(&["1"])));
    assert!(tokenize_firstpass("()") == Some(toks(&["(", ")"])));
    assert!(tokenize_firstpass("(1)") == Some(toks(&["(", "1", ")"])));
    // multiple elements
    assert!(tokenize_firstpass("1 2") == Some(toks(&["1", "2"])));
    assert!(tokenize_firstpass("+ 1 2") == Some(toks(&["+", "1", "2"])));
    assert!(tokenize_firstpass("(+ 1 2)") == Some(toks(&["(", "+", "1", "2", ")"])));
    assert!(tokenize_firstpass(" (+ 1 2)") == Some(toks(&["(", "+", "1", "2", ")"])));
    assert!(tokenize_firstpass("( + 1 2)") == Some(toks(&["(", "+", "1", "2", ")"])));
    assert!(
        tokenize_firstpass("(+ 1 (+ 2 3))")
            == Some(toks(&["(", "+", "1", "(", "+", "2", "3", ")", ")"]))
    );
    // vectors
    assert!(tokenize_firstpass("[]") == Some(toks(&["[", "]"])));
    assert!(tokenize_firstpass("[1 2]") == Some(toks(&["[", "1", "2", "]"])));
    assert!(tokenize_firstpass("[1, 2]") == Some(toks(&["[", "1", "2", "]"])));
    // strings
    assert!(tokenize_firstpass("\"\"") == Some(toks(&["\"\""])));
    assert!(tokenize_firstpass("\"hello\"") == Some(toks(&["\"hello\""])));
}

#[test]
fn main_test_tokenizer_structure() {
    let test1 = tokenize_structure(&toks(&[]));
    assert!(test1 == Element::Nil);
    let test2 = tokenize_structure(&toks(&["(", "+", ")"]));
    assert!(test2 == Element::List(vec![sym("+")]));
    let test3 = tokenize_structure(&toks(&["(", "+", "1", "2", ")"]));
    assert!(test3 == Element::List(vec![sym("+"), sym("1"), sym("2")]));
    let test4 = tokenize_structure(&toks(&["1"]));
    assert!(test4 == sym("1"));
    let test5 = tokenize_structure(&toks(&["\"hello\""]));
    assert!(test5 == Element::Str("hello".to_string()));
    let test6 = tokenize_structure(&toks(&["[", "]"]));
    assert!(test6 == Element::Vector(vec![]));
    let test7 = tokenize_structure(&toks(&["[", "1", "]"]));
    assert!(test7 == Element::Vector(vec![sym("1")]));
}

#[test]
fn main_test_tokenizer_structure_errors() {
    let test1 = tokenize_structure(&toks(&["(", "+"]));
    match test1 {
        Element::ParseError(_) => (),
        _ => panic!("{} != ParseError", test1.to_str()),
    }
    let test2 = tokenize_structure(&toks(&["+", "1", "2", ")"]));
    match test2 {
        Element::ParseError(_) => (),
        _ => panic!("{} != ParseError", test2.to_str()),
    }
    let test3 = tokenize_structure(&toks(&["[", "1"]));
    match test3 {
        Element::ParseError(_) => (),
        _ => panic!("{} != ParseError", test3.to_str()),
    }
    let test4 = tokenize_structure(&toks(&["1", "]"]));
    match test4 {
        Element::ParseError(_) => (),
        _ => panic!("{} != ParseError", test4.to_str()),
    }
    let test5 = tokenize_structure(&toks(&["(", "+", "3", "4", "]"]));
    match test5 {
        Element::ParseError(_) => (),
        _ => panic!("{} != ParseError", test5.to_str()),
    }
    let test6 = tokenize_structure(&toks(&[")", "+", "5", "6", "("]));
    match test6 {
        Element::ParseError(_) => (),
        _ => panic!("{} != ParseError", test6.to_str()),
    }
}

#[test]
fn main_test_tokenizer() {
    assert!(tokenize("") == Element::Nil);
    assert!(tokenize("(+ 1 1)") == Element::List(vec![sym("+"), num(1), num(1)]));
    assert!(tokenize("(- 5 1)") == Element::List(vec![sym("-"), num(5), num(1)]));
    assert!(tokenize("1") == num(1));
    assert!(tokenize("\"hello\"") == Element::Str("hello".to_string()));
    assert!(tokenize("[1 2 3]") == Element::Vector(vec![num(1), num(2), num(3)]));
}

#[test]
fn main_test_tokenizer_errors() {
    let test1 = tokenize("\"");
    match test1 {
        Element::ParseError(_) => (),
        _ => panic!("{} != ParseError", test1.to_str()),
    }
}

#[test]
fn main_test_basic_eval() {
    assert!(eval("1") == num(1));
    assert!(eval("1\n") == num(1));
    assert!(eval("") == Element::Nil);
    assert!(eval("\n") == Element::Nil);
    assert!(eval("()") == Element::List(vec![]));
    assert!(eval("()\n") == Element::List(vec![]));
    assert!(eval("[]") == Element::Vector(vec![]));
    assert!(eval("\"\"") == Element::Str(String::new()));
    assert!(eval("\"test string\"") == Element::Str("test string".to_string()));
    assert!(eval("\"(+ 1 1)\"") == Element::Str("(+ 1 1)".to_string()));
}

#[test]
fn main_test_add() {
    assert!(eval("(+)") == num(0));
    assert!(eval("(+ 5)") == num(5));
    assert!(eval("(+ 1 1)") == num(2));
    assert!(eval("(+ 4 5 6)") == num(15));
    assert!(eval("(+ 5 -1)") == num(4));
}

#[test]
fn main_test_sub() {
    assert!(eval("(-)") == everr("-: Wrong number of args (0)"));
    assert!(eval("(- 1)") == num(-1));
    assert!(eval("(- 1 1)") == num(0));
    assert!(eval("(- 2 3)") == num(-1));
    assert!(eval("(- 5 3)") == num(2));
    assert!(eval("(- 9 5 2)") == num(2));
    assert!(eval("(- 4 -2)") == num(6));
}

#[test]
fn main_test_mul() {
    assert!(eval("(*)") == num(1));
    assert!(eval("(* 2)") == num(2));
    assert!(eval("(* 2 3)") == num(6));
    assert!(eval("(* 2 0)") == num(0));
    assert!(eval("(* 4 -1)") == num(-4));
}

#[test]
fn main_test_div() {
    assert!(eval("(/)") == everr("/: Wrong number of args (0)"));
    assert!(eval("(/ 1)") == num(1));
    assert!(eval("(/ 2)") == num(0));
    assert!(eval("(/ 2 1)") == num(2));
    assert!(eval("(/ 4 2)") == num(2));
    assert!(eval("(/ 100 2 2 5)") == num(5));
    assert!(eval("(/ 0)") == everr("/: Divide by zero"));
    assert!(eval("(/ 10 0)") == everr("/: Divide by zero"));
}

#[test]
fn main_test_mod() {
    assert!(eval("(%)") == everr("%: Wrong number of args (0)"));
    assert!(eval("(% 1)") == everr("%: Wrong number of args (1)"));
    assert!(eval("(% 1 2 3)") == everr("%: Wrong number of args (3)"));
    assert!(eval("(% 1 0)") == everr("%: Divide by zero"));
    assert!(eval("(% 1 1)") == num(0));
    assert!(eval("(% 10 1)") == num(0));
    assert!(eval("(% 10 7)") == num(3));
    assert!(eval("(% 10 -3)") == num(1));
    assert!(eval("(% -10 3)") == num(-1));
}

#[test]
fn main_test_concat() {
    assert!(eval("(concat [1] [2])") == Element::List(vec![num(1), num(2)]));
    assert!(
        eval("(concat \"ab\" \"cd\")") == Element::List(vec![
            Element::Character('a'),
            Element::Character('b'),
            Element::Character('c'),
            Element::Character('d'),
        ])
    );
}

#[test]
fn main_test_equal() {
    assert!(eval("(= 1 1)") == Element::Boolean(true));
    assert!(eval("(= 1 2)") == Element::Boolean(false));
    assert!(eval("(= 1 \"1\")") == Element::Boolean(false));
    assert!(eval("(= \"1\" \"1\")") == Element::Boolean(true));
    assert!(eval("(= [1 2] [1 2])") == Element::Boolean(true));
    assert!(eval("(= [1 2] [1 3])") == Element::Boolean(false));
    assert!(eval("(= [1 2 3] [1 2])") == Element::Boolean(false));
}

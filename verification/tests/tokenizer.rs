//! Tests of the reader's three passes on their own.

use rlisp::tokenizer::{tokenize, tokenize_firstpass, tokenize_infer_types, tokenize_structure};
use rlisp::types::Element;

fn num(n: i64) -> Element {
    Element::Number(n)
}

fn sym(s: &str) -> Element {
    Element::Symbol(s.to_string())
}

fn toks(ts: &[&str]) -> Vec<String> {
    ts.iter().map(|t| t.to_string()).collect()
}

#[test]
fn test_tokenizer_firstpass() {
    // empty
    assert!(tokenize_firstpass("") == Some(toks(&[])));
    // stripping elements
    assert!(tokenize_firstpass(",") == Some(toks(&[])));
    // single elements
    assert!(tokenize_firstpass("1") == Some(toks(&["1"])));
    assert!(tokenize_firstpass("()") == Some(toks(&["(", ")"])));
    assert!(tokenize_firstpass("(1)") == Some(toks(&["(", "1", ")"])));
    // multiple elements
    assert!(tokenize_firstpass("1 2") == Some(toks(&["1", "2"])));
    assert!(tokenize_firstpass("+ 1 2") == Some(toks(&["+", "1", "2"])));
    assert!(tokenize_firstpass("(+ 1 2)") == Some(toks(&["(", "+", "1", "2", ")"])));
    assert!(tokenize_firstpass(" (+ 1 2)") == Some(toks(&["(", "+", "1", "2", ")"])));
    assert!(tokenize_firstpass("( + 1 2)") == Some(toks(&["(", "+", "1", "2", ")"])));
    assert!(
        tokenize_firstpass("(+ 1 (+ 2 3))")
            == Some(toks(&["(", "+", "1", "(", "+", "2", "3", ")", ")"]))
    );
    // vectors
    assert!(tokenize_firstpass("[]") == Some(toks(&["[", "]"])));
    assert!(tokenize_firstpass("[1 2]") == Some(toks(&["[", "1", "2", "]"])));
    assert!(tokenize_firstpass("[1, 2]") == Some(toks(&["[", "1", "2", "]"])));
    // strings
    assert!(tokenize_firstpass("\"\"") == Some(toks(&["\"\""])));
    assert!(tokenize_firstpass("\"hello\"") == Some(toks(&["\"hello\""])));
}

#[test]
fn test_tokenizer_structure() {
    let test1 = tokenize_structure(&toks(&[]));
    assert!(test1 == Element::Nil);
    let test2 = tokenize_structure(&toks(&["(", "+", ")"]));
    assert!(test2 == Element::List(vec![sym("+")]));
    let test3 = tokenize_structure(&toks(&["(", "+", "1", "2", ")"]));
    assert!(test3 == Element::List(vec![sym("+"), sym("1"), sym("2")]));
    let test4 = tokenize_structure(&toks(&["1"]));
    assert!(test4 == sym("1"));
    let test5 = tokenize_structure(&toks(&["\"hello\""]));
    assert!(test5 == Element::Str("hello".to_string()));
    let test6 = tokenize_structure(&toks(&["[", "]"]));
    assert!(test6 == Element::Vector(vec![]));
    let test7 = tokenize_structure(&toks(&["[", "1", "]"]));
    assert!(test7 == Element::Vector(vec![sym("1")]));
}

#[test]
fn test_tokenizer_structure_errors() {
    let test1 = tokenize_structure(&toks(&["(", "+"]));
    match test1 {
        Element::ParseError(_) => (),
        _ => panic!("{} != ParseError", test1.to_str()),
    }
    let test2 = tokenize_structure(&toks(&["+", "1", "2", ")"]));
    match test2 {
        Element::ParseError(_) => (),
        _ => panic!("{} != ParseError", test2.to_str()),
    }
    let test3 = tokenize_structure(&toks(&["[", "1"]));
    match test3 {
        Element::ParseError(_) => (),
        _ => panic!("{} != ParseError", test3.to_str()),
    }
    let test4 = tokenize_structure(&toks(&["1", "]"]));
    match test4 {
        Element::ParseError(_) => (),
        _ => panic!("{} != ParseError", test4.to_str()),
    }
    let test5 = tokenize_structure(&toks(&["(", "+", "3", "4", "]"]));
    match test5 {
        Element::ParseError(_) => (),
        _ => panic!("{} != ParseError", test5.to_str()),
    }
    let test6 = tokenize_structure(&toks(&[")", "+", "5", "6", "("]));
    match test6 {
        Element::ParseError(_) => (),
        _ => panic!("{} != ParseError", test6.to_str()),
    }
}

#[test]
fn test_tokenizer_inference() {
    assert!(tokenize_infer_types(Element::Nil) == Element::Nil);
    assert!(tokenize_infer_types(sym("1")) == num(1));
    assert!(
        tokenize_infer_types(Element::List(vec![sym("+"), sym("1")]))
            == Element::List(vec![sym("+"), num(1)])
    );
    assert!(
        tokenize_infer_types(Element::Str("hello".to_string()))
            == Element::Str("hello".to_string())
    );
    assert!(
        tokenize_infer_types(Element::Vector(vec![sym("1"), sym("2")]))
            == Element::Vector(vec![num(1), num(2)])
    );
}

#[test]
fn test_tokenizer() {
    assert!(tokenize("") == Element::Nil);
    assert!(tokenize("(+ 1 1)") == Element::List(vec![sym("+"), num(1), num(1)]));
    assert!(tokenize("(- 5 1)") == Element::List(vec![sym("-"), num(5), num(1)]));
    assert!(tokenize("1") == num(1));
    assert!(tokenize("\"hello\"") == Element::Str("hello".to_string()));
    assert!(tokenize("[1 2 3]") == Element::Vector(vec![num(1), num(2), num(3)]));
}

#[test]
fn test_tokenizer_errors() {
    let test1 = tokenize("\"");
    match test1 {
        Element::ParseError(_) => (),
        _ => panic!("{} != ParseError", test1.to_str()),
    }
}

#[test]
fn test_number_inference_limits() {
    assert!(tokenize("9223372036854775807") == num(i64::MAX));
    assert!(tokenize("-9223372036854775808") == num(i64::MIN));
    // one past the machine range stays a symbol
    assert!(tokenize("9223372036854775808") == sym("9223372036854775808"));
    assert!(tokenize("+7") == num(7));
    assert!(tokenize("+") == sym("+"));
    assert!(tokenize("true") == Element::Boolean(true));
    assert!(tokenize("false") == Element::Boolean(false));
    assert!(tokenize("1x") == sym("1x"));
}

#[test]
fn test_unterminated_string_never_evaluates() {
    // a parse error is returned by the reader and passes through evaluation
    // untouched
    let read = tokenize("\"open");
    assert!(read == Element::ParseError("unbalanced string quotes".to_string()));
    let mut bindings = rlisp::eval::Bindings::new();
    assert!(bindings.eval("\"open") == read);
}

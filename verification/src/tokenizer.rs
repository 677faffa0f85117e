//! The reader: turns input text into a tree of tagged values, or a
//! `ParseError` value for malformed input.
//!
//! Reading runs in three passes: `tokenize_firstpass` splits the text into
//! tokens, `tokenize_structure` groups bracketed structure into lists and
//! vectors, and `tokenize_infer_types` turns bare tokens into numbers and
//! booleans.  Each pass has a spec-level model that its executable form is
//! proved against.

use vstd::prelude::*;

use crate::semantics::Val;
use crate::strutil::{
    is_space, lemma_trim_back, lemma_trim_front, push_char, space_char, spec_parse_i64, str_eq,
    trim_back, trim_front,
};
use crate::types::{ev, ev_seq, Element};

verus! {

/// A comma counts as whitespace.
pub open spec fn comma_space(c: char) -> char {
    if c == ',' {
        ' '
    } else {
        c
    }
}

/// The preprocessed input: trimmed, with commas turned into spaces.
pub open spec fn pre_of(s: Seq<char>) -> Seq<char> {
    trim_back(trim_front(s)).map_values(|c: char| comma_space(c))
}

/// The token views of a token list.
pub open spec fn toks_v(v: Seq<String>) -> Seq<Seq<char>> {
    v.map_values(|t: String| t@)
}

/// One step of the first pass, from the given scanner state: `index` is the
/// position, `tok_start` the start of the pending bare token, and `sb` the
/// pending string literal when `inside_string`.  `None` means an unbalanced
/// string quote.
pub open spec fn spec_firstpass_from(
    ss: Seq<char>,
    index: int,
    tok_start: int,
    inside_string: bool,
    sb: Seq<char>,
    v: Seq<Seq<char>>,
) -> Option<Seq<Seq<char>>>
    decreases ss.len() - index,
{
    if index >= ss.len() || index < 0 {
        if inside_string {
            None
        } else if tok_start != index {
            Some(v.push(ss.subrange(tok_start, index)))
        } else {
            Some(v)
        }
    } else {
        let c = ss[index];
        if (c == '(' || c == ')' || c == '[' || c == ']' || c == ' ') && !inside_string {
            let v1 = if index != tok_start {
                v.push(ss.subrange(tok_start, index))
            } else {
                v
            };
            let v2 = if c != ' ' {
                v1.push(seq![c])
            } else {
                v1
            };
            spec_firstpass_from(ss, index + 1, index + 1, inside_string, sb, v2)
        } else if c == '"' {
            let sb1 = sb.push('"');
            if inside_string {
                spec_firstpass_from(ss, index + 1, index + 1, false, Seq::empty(), v.push(sb1))
            } else {
                spec_firstpass_from(ss, index + 1, tok_start, true, sb1, v)
            }
        } else if inside_string {
            spec_firstpass_from(ss, index + 1, tok_start, true, sb.push(c), v)
        } else {
            spec_firstpass_from(ss, index + 1, tok_start, false, sb, v)
        }
    }
}

/// What the first pass returns for the given input.
pub open spec fn spec_firstpass(s: Seq<char>) -> Option<Seq<Seq<char>>> {
    spec_firstpass_from(pre_of(s), 0, 0, false, Seq::empty(), Seq::empty())
}

/// The preprocessed input as a character vector.
#[verifier::loop_isolation(false)]
fn preprocess(s: &str) -> (r: Vec<char>)
    ensures
        r@ == pre_of(s@),
{
    let n = s.unicode_len();
    let mut a: usize = 0;
    while a < n && space_char(s.get_char(a))
        invariant
            a <= n,
            forall|j: int| 0 <= j < a ==> is_space(s@[j]),
        decreases n - a,
    {
        a = a + 1;
    }
    if a == n {
        proof {
            lemma_trim_front(s@, a as int);
            assert(s@.skip(a as int) =~= Seq::<char>::empty());
            lemma_trim_back(Seq::<char>::empty(), 0);
            assert(pre_of(s@) =~= Seq::<char>::empty());
        }
        return Vec::new();
    }
    let mut b: usize = n;
    while b > a && space_char(s.get_char(b - 1))
        invariant
            a <= b <= n,
            forall|j: int| b <= j < n ==> is_space(s@[j]),
        decreases b,
    {
        b = b - 1;
    }
    proof {
        lemma_trim_front(s@, a as int);
        lemma_trim_back(s@.skip(a as int), b - a);
        assert(trim_back(trim_front(s@)) =~= s@.subrange(a as int, b as int)) by {
            assert(s@.skip(a as int).take(b - a) =~= s@.subrange(a as int, b as int));
        }
    }
    let mut out: Vec<char> = Vec::new();
    let mut i: usize = a;
    while i < b
        invariant
            a <= i <= b,
            out@.len() == i - a,
            forall|j: int| 0 <= j < i - a ==> out@[j] == comma_space(s@[a + j]),
        decreases b - i,
    {
        let c = s.get_char(i);
        if c == ',' {
            out.push(' ');
        } else {
            out.push(c);
        }
        i = i + 1;
    }
    proof {
        assert(out@ =~= pre_of(s@));
    }
    out
}

/// The characters `cs[from..to]` as a string.
#[verifier::loop_isolation(false)]
fn chars_to_string(cs: &Vec<char>, from: usize, to: usize) -> (r: String)
    requires
        from <= to <= cs@.len(),
    ensures
        r@ == cs@.subrange(from as int, to as int),
{
    let mut r = String::new();
    let mut i: usize = from;
    while i < to
        invariant
            from <= i <= to,
            r@ == cs@.subrange(from as int, i as int),
        decreases to - i,
    {
        push_char(&mut r, cs[i]);
        proof {
            assert(cs@.subrange(from as int, i + 1) =~= cs@.subrange(from as int, i as int).push(
                cs@[i as int],
            ));
        }
        i = i + 1;
    }
    r
}

/// Splits the input into tokens: brackets are tokens of their own, spaces
/// separate, and a double-quoted stretch is one token with its quotes.
/// `None` reports an unterminated string.
#[verifier::loop_isolation(false)]
pub fn tokenize_firstpass(s: &str) -> (r: Option<Vec<String>>)
    ensures
        match r {
            Some(v) => spec_firstpass(s@) == Some(toks_v(v@)),
            None => spec_firstpass(s@) is None,
        },
{
    let ss = preprocess(s);
    let mut v: Vec<String> = Vec::new();
    let mut index: usize = 0;
    let mut tok_start: usize = 0;
    let mut inside_string = false;
    let mut stringbuilder = String::new();
    proof {
        assert(toks_v(v@) =~= Seq::<Seq<char>>::empty());
    }
    while index < ss.len()
        invariant
            tok_start <= index <= ss@.len(),
            spec_firstpass(s@) == spec_firstpass_from(
                ss@,
                index as int,
                tok_start as int,
                inside_string,
                stringbuilder@,
                toks_v(v@),
            ),
        decreases ss@.len() - index,
    {
        let c = ss[index];
        if (c == '(' || c == ')' || c == '[' || c == ']' || c == ' ') && !inside_string {
            if index != tok_start {
                let t = chars_to_string(&ss, tok_start, index);
                proof {
                    assert(toks_v(v@.push(t)) =~= toks_v(v@).push(t@));
                }
                v.push(t);
            }
            if c != ' ' {
                let mut t = String::new();
                push_char(&mut t, c);
                proof {
                    assert(t@ =~= seq![c]);
                    assert(toks_v(v@.push(t)) =~= toks_v(v@).push(t@));
                }
                v.push(t);
            }
            tok_start = index + 1;
        } else if c == '"' {
            push_char(&mut stringbuilder, '"');
            if inside_string {
                let t = stringbuilder;
                proof {
                    assert(toks_v(v@.push(t)) =~= toks_v(v@).push(t@));
                }
                v.push(t);
                stringbuilder = String::new();
                tok_start = index + 1;
            }
            inside_string = !inside_string;
        } else if inside_string {
            push_char(&mut stringbuilder, c);
        }
        index = index + 1;
    }
    if inside_string {
        return None;
    }
    if tok_start != index {
        let t = chars_to_string(&ss, tok_start, index);
        proof {
            assert(toks_v(v@.push(t)) =~= toks_v(v@).push(t@));
        }
        v.push(t);
    }
    Some(v)
}

/// The closing bracket that matches an opening token.
pub open spec fn close_of(t: Seq<char>) -> Seq<char> {
    if t == "("@ {
        ")"@
    } else {
        "]"@
    }
}

/// The value of one bare token: a double-quoted token is a string literal
/// (the quotes stripped), anything else is a symbol.
pub open spec fn atom_of(t: Seq<char>) -> Val {
    if t.len() >= 2 && t[0] == '"' && t[t.len() - 1] == '"' {
        Val::Str(t.subrange(1, t.len() - 1))
    } else {
        Val::Symbol(t)
    }
}

/// The structure pass from the given state: reads tokens from `index` with
/// `np` brackets open and `v` already collected, and returns where reading
/// stopped and what it built.  An opening bracket descends with a fresh
/// collection; its closing bracket must be the next unread token when the
/// descent returns.  (A parse step never moves backwards; the two guard
/// branches on the returned position only keep the definition total.)
pub open spec fn spec_struct(toks: Seq<Seq<char>>, index: int, np: int, v: Seq<Val>) -> (int, Val)
    decreases toks.len() - index,
{
    if index >= toks.len() || index < 0 {
        if np > 0 {
            (toks.len() as int, Val::ParseError("unbalanced parentheses"@))
        } else if v.len() == 0 {
            (index, Val::Nil)
        } else if v.len() == 1 {
            (index, v[0])
        } else {
            (index, Val::List(v))
        }
    } else {
        let t = toks[index];
        if t == "("@ || t == "["@ {
            let r = spec_struct(toks, index + 1, np + 1, Seq::empty());
            let next = r.0;
            let v2 = v.push(r.1);
            if !(index + 1 <= next <= toks.len()) {
                (toks.len() as int, Val::ParseError("unmatched parentheses"@))
            } else if next == toks.len() {
                spec_struct(toks, next, np, v2)
            } else if toks[next] != close_of(t) {
                (toks.len() as int, Val::ParseError("unmatched parentheses"@))
            } else {
                spec_struct(toks, next + 1, np, v2)
            }
        } else if t == ")"@ || t == "]"@ {
            if np <= 0 {
                (toks.len() as int, Val::ParseError("unbalanced parentheses"@))
            } else if t == "]"@ {
                (index, Val::Vector(v))
            } else {
                (index, Val::List(v))
            }
        } else {
            spec_struct(toks, index + 1, np, v.push(atom_of(t)))
        }
    }
}

/// What the structure pass builds from a whole token list.
pub open spec fn spec_structure(toks: Seq<Seq<char>>) -> Val {
    spec_struct(toks, 0, 0, Seq::empty()).1
}

/// The value of one bare token, as an element.
fn atom_elem(t: &String) -> (r: Element)
    ensures
        r@ == atom_of(t@),
{
    let tl = t.as_str().unicode_len();
    if tl >= 2 && t.as_str().get_char(0) == '"' && t.as_str().get_char(tl - 1) == '"' {
        let mid = t.as_str().substring_char(1, tl - 1);
        Element::Str(String::from_str(mid))
    } else {
        Element::Symbol(t.clone())
    }
}

/// Reads tokens from `start_index` with `num_parens` brackets open; returns
/// where reading stopped and what it built.
fn do_tokenize_structure(tokens: &[String], start_index: usize, num_parens: usize) -> (r: (
    usize,
    Element,
))
    requires
        start_index <= tokens@.len(),
        num_parens + tokens@.len() - start_index <= usize::MAX,
    ensures
        ({
            let (si, sv) = spec_struct(
                toks_v(tokens@),
                start_index as int,
                num_parens as int,
                Seq::empty(),
            );
            r.0 as int == si && r.1@ == sv
        }),
        start_index <= r.0 <= tokens@.len(),
    decreases tokens@.len() - start_index,
{
    let ghost toks = toks_v(tokens@);
    let mut v: Vec<Element> = Vec::new();
    let mut index: usize = start_index;
    proof {
        crate::types::lemma_ev_seq(v@);
        assert(ev_seq(v@) =~= Seq::<Val>::empty());
    }
    while index < tokens.len()
        invariant
            toks == toks_v(tokens@),
            start_index <= index <= tokens@.len(),
            num_parens + tokens@.len() - start_index <= usize::MAX,
            spec_struct(toks, start_index as int, num_parens as int, Seq::empty()) == spec_struct(
                toks,
                index as int,
                num_parens as int,
                ev_seq(v@),
            ),
        ensures
            toks == toks_v(tokens@),
            start_index <= index <= tokens@.len(),
            index == tokens@.len(),
            spec_struct(toks, start_index as int, num_parens as int, Seq::empty()) == spec_struct(
                toks,
                index as int,
                num_parens as int,
                ev_seq(v@),
            ),
        decreases tokens@.len() - index,
    {
        let ghost acc = ev_seq(v@);
        proof {
            assert(toks[index as int] == tokens@[index as int]@);
        }
        let is_open_paren = str_eq(tokens[index].as_str(), "(");
        let is_open_bracket = str_eq(tokens[index].as_str(), "[");
        if is_open_paren || is_open_bracket {
            let (next_index, elem) = do_tokenize_structure(tokens, index + 1, num_parens + 1);
            proof {
                crate::types::lemma_ev_seq_push(v@, elem);
            }
            v.push(elem);
            let prev = index;
            index = next_index;
            if index >= tokens.len() {
                proof {
                    assert(spec_struct(toks, prev as int, num_parens as int, acc) == spec_struct(
                        toks,
                        index as int,
                        num_parens as int,
                        ev_seq(v@),
                    ));
                }
                break ;
            }
            proof {
                assert(toks[index as int] == tokens@[index as int]@);
            }
            let close_matches = if is_open_paren {
                str_eq(tokens[index].as_str(), ")")
            } else {
                str_eq(tokens[index].as_str(), "]")
            };
            if !close_matches {
                return (
                    tokens.len(),
                    Element::ParseError(String::from_str("unmatched parentheses")),
                );
            }
        } else {
            let is_close = str_eq(tokens[index].as_str(), ")") || str_eq(
                tokens[index].as_str(),
                "]",
            );
            if is_close {
                if num_parens == 0 {
                    return (
                        tokens.len(),
                        Element::ParseError(String::from_str("unbalanced parentheses")),
                    );
                }
                if str_eq(tokens[index].as_str(), "]") {
                    return (index, Element::Vector(v));
                }
                return (index, Element::List(v));
            }
            let elem = atom_elem(&tokens[index]);
            proof {
                crate::types::lemma_ev_seq_push(v@, elem);
            }
            v.push(elem);
        }
        index = index + 1;
    }
    proof {
        crate::types::lemma_ev_seq(v@);
    }
    if num_parens > 0 {
        return (tokens.len(), Element::ParseError(String::from_str("unbalanced parentheses")));
    }
    if v.len() == 0 {
        return (index, Element::Nil);
    }
    if v.len() == 1 {
        proof {
            crate::types::lemma_ev_seq(v@);
        }
        let first = v.remove(0);
        return (index, first);
    }
    (index, Element::List(v))
}

/// Groups a token list into nested lists and vectors.
pub fn tokenize_structure(tokens: &[String]) -> (r: Element)
    ensures
        r@ == spec_structure(toks_v(tokens@)),
{
    let n = tokens.len();
    proof {
        assert(tokens@.len() == n);
    }
    let (_, elem) = do_tokenize_structure(tokens, 0, 0);
    elem
}

/// Type inference on one read value: bare symbols become booleans (`true`,
/// `false`) or base-10 numbers where they parse as such; list and vector
/// elements are inferred individually; everything else stays as it is.
pub open spec fn spec_infer(v: Val) -> Val
    decreases v,
{
    match v {
        Val::List(l) => Val::List(spec_infer_seq(l)),
        Val::Vector(vs) => Val::Vector(spec_infer_seq(vs)),
        Val::Symbol(s) => if s == "true"@ {
            Val::Boolean(true)
        } else if s == "false"@ {
            Val::Boolean(false)
        } else {
            match spec_parse_i64(s) {
                Some(i) => Val::Number(i),
                None => Val::Symbol(s),
            }
        },
        _ => v,
    }
}

/// Type inference over a sequence of values.
pub open spec fn spec_infer_seq(l: Seq<Val>) -> Seq<Val>
    decreases l,
{
    if l.len() == 0 {
        Seq::empty()
    } else {
        seq![spec_infer(l[0])].add(spec_infer_seq(l.subrange(1, l.len() as int)))
    }
}

/// `spec_infer_seq` is the pointwise map of `spec_infer`.
pub proof fn lemma_spec_infer_seq(l: Seq<Val>)
    ensures
        spec_infer_seq(l).len() == l.len(),
        forall|i: int| 0 <= i < l.len() ==> spec_infer_seq(l)[i] == spec_infer(l[i]),
    decreases l,
{
    if l.len() > 0 {
        lemma_spec_infer_seq(l.subrange(1, l.len() as int));
    }
}

/// Type inference on one read value.
pub fn tokenize_infer_types(token: Element) -> (r: Element)
    ensures
        r@ == spec_infer(ev(token)),
{
    infer_ref(&token)
}

/// Type inference on one read value, by reference.
fn infer_ref(token: &Element) -> (r: Element)
    ensures
        r@ == spec_infer(ev(*token)),
    decreases token,
{
    match token {
        Element::List(l) => Element::List(infer_vec(l)),
        Element::Vector(l) => Element::Vector(infer_vec(l)),
        Element::Symbol(s) => {
            if str_eq(s.as_str(), "true") {
                Element::Boolean(true)
            } else if str_eq(s.as_str(), "false") {
                Element::Boolean(false)
            } else {
                match crate::strutil::parse_i64(s.as_str()) {
                    Some(i) => Element::Number(i),
                    None => Element::Symbol(s.clone()),
                }
            }
        },
        other => other.dup(),
    }
}

/// Type inference over the elements of a vector.
fn infer_vec(l: &Vec<Element>) -> (r: Vec<Element>)
    ensures
        ev_seq(r@) == spec_infer_seq(ev_seq(l@)),
    decreases l,
{
    proof {
        crate::types::lemma_ev_seq(l@);
        lemma_spec_infer_seq(ev_seq(l@));
    }
    let mut out: Vec<Element> = Vec::new();
    let mut i: usize = 0;
    while i < l.len()
        invariant
            i <= l@.len(),
            out@.len() == i,
            forall|j: int| 0 <= j < i ==> ev(#[trigger] out@[j]) == spec_infer(ev(l@[j])),
        decreases l@.len() - i,
    {
        proof {
            assert(decreases_to!(l => l@[i as int]));
        }
        let e = infer_ref(&l[i]);
        out.push(e);
        i = i + 1;
    }
    proof {
        crate::types::lemma_ev_seq(out@);
        crate::types::lemma_ev_seq(l@);
        lemma_spec_infer_seq(ev_seq(l@));
        assert(ev_seq(out@) =~= spec_infer_seq(ev_seq(l@)));
    }
    out
}

/// What reading a whole line returns: a parse error for an unterminated
/// string or unbalanced brackets, else the structured, type-inferred value.
pub open spec fn spec_tokenize(s: Seq<char>) -> Val {
    match spec_firstpass(s) {
        None => Val::ParseError("unbalanced string quotes"@),
        Some(toks) => {
            let elem = spec_structure(toks);
            if elem is ParseError {
                elem
            } else {
                spec_infer(elem)
            }
        },
    }
}

/// Reads one line of text into a value tree.
pub fn tokenize(s: &str) -> (r: Element)
    ensures
        r@ == spec_tokenize(s@),
{
    let tokenized = match tokenize_firstpass(s) {
        Some(ss) => ss,
        None => {
            return Element::ParseError(String::from_str("unbalanced string quotes"));
        },
    };
    let elems = tokenize_structure(tokenized.as_slice());
    match &elems {
        Element::ParseError(_) => elems,
        _ => tokenize_infer_types(elems),
    }
}

} // verus!

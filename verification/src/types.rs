//! The tagged value tree: every datum and every form of the language is an
//! [`Element`].

use vstd::prelude::*;

use crate::functypes::{BoundFn, RustFunc};
use crate::semantics::Val;

verus! {

/// A runtime value.  Code and data share this representation: a `List` is
/// both a sequence of values and, when evaluated, a call form.
#[derive(PartialEq, Eq)]
pub enum Element {
    /// An unresolved identifier.
    Symbol(String),
    /// A fixed-width signed integer.
    Number(i64),
    /// A string literal.
    Str(String),
    /// A single character (these arise from taking strings apart).
    Character(char),
    /// A boolean literal.
    Boolean(bool),
    /// Produced only by the reader; evaluation returns it untouched.
    ParseError(String),
    /// Produced by the evaluator when a semantic precondition fails.
    EvalError(String),
    /// An ordered sequence that is also, positionally, a call form.
    List(Vec<Element>),
    /// An ordered sequence whose elements are evaluated individually but
    /// which is never invoked as a call.
    Vector(Vec<Element>),
    /// A user-defined function.
    Function(Box<BoundFn>),
    /// A built-in operation.
    FuncPrimitive(RustFunc),
    /// The canonical empty/absent value.
    Nil,
}

/// The model of an element.
pub open spec fn ev(e: Element) -> Val
    decreases e,
{
    match e {
        Element::Symbol(s) => Val::Symbol(s@),
        Element::Number(n) => Val::Number(n),
        Element::Str(s) => Val::Str(s@),
        Element::Character(c) => Val::Character(c),
        Element::Boolean(b) => Val::Boolean(b),
        Element::ParseError(s) => Val::ParseError(s@),
        Element::EvalError(s) => Val::EvalError(s@),
        Element::List(v) => Val::List(ev_seq(v@)),
        Element::Vector(v) => Val::Vector(ev_seq(v@)),
        Element::Function(bf) => Val::Function(bfv(*bf)),
        Element::FuncPrimitive(rf) => Val::FuncPrimitive(rf@),
        Element::Nil => Val::Nil,
    }
}

/// The model of a user-defined function.
pub open spec fn bfv(b: BoundFn) -> crate::semantics::FnVal
    decreases b,
{
    crate::semantics::FnVal {
        params: b.bindings@.map_values(|a: crate::functypes::ArgBinding| a@),
        body: Box::new(ev(b.f)),
        is_macro: b.is_macro,
    }
}

/// The model of a sequence of elements.
pub open spec fn ev_seq(s: Seq<Element>) -> Seq<Val>
    decreases s,
{
    if s.len() == 0 {
        Seq::empty()
    } else {
        seq![ev(s[0])].add(ev_seq(s.subrange(1, s.len() as int)))
    }
}

impl Element {
    /// A deep copy, equal to the original at the level of the model.
    pub fn dup(&self) -> (r: Element)
        ensures
            r@ == self@,
        decreases self,
    {
        match self {
            Element::Symbol(s) => Element::Symbol(s.clone()),
            Element::Number(n) => Element::Number(*n),
            Element::Str(s) => Element::Str(s.clone()),
            Element::Character(c) => Element::Character(*c),
            Element::Boolean(b) => Element::Boolean(*b),
            Element::ParseError(s) => Element::ParseError(s.clone()),
            Element::EvalError(s) => Element::EvalError(s.clone()),
            Element::List(v) => Element::List(dup_vec(v)),
            Element::Vector(v) => Element::Vector(dup_vec(v)),
            Element::Function(bf) => Element::Function(Box::new(dup_boundfn(bf))),
            Element::FuncPrimitive(rf) => Element::FuncPrimitive(*rf),
            Element::Nil => Element::Nil,
        }
    }
}

/// A deep copy of a sequence of elements.
fn dup_vec(v: &Vec<Element>) -> (r: Vec<Element>)
    ensures
        ev_seq(r@) == ev_seq(v@),
    decreases v,
{
    let mut out: Vec<Element> = Vec::new();
    let mut i: usize = 0;
    while i < v.len()
        invariant
            i <= v@.len(),
            out@.len() == i,
            forall|j: int| 0 <= j < i ==> ev(#[trigger] out@[j]) == ev(v@[j]),
        decreases v@.len() - i,
    {
        proof {
            assert(decreases_to!(v => v@[i as int]));
        }
        let e = v[i].dup();
        out.push(e);
        i = i + 1;
    }
    proof {
        lemma_ev_seq(out@);
        lemma_ev_seq(v@);
        assert(ev_seq(out@) =~= ev_seq(v@));
    }
    out
}

/// A deep copy of a user-defined function.
fn dup_boundfn(b: &BoundFn) -> (r: BoundFn)
    ensures
        bfv(r) == bfv(*b),
    decreases b,
{
    let mut ps: Vec<crate::functypes::ArgBinding> = Vec::new();
    let mut i: usize = 0;
    while i < b.bindings.len()
        invariant
            i <= b.bindings@.len(),
            ps@.len() == i,
            forall|j: int| 0 <= j < i ==> #[trigger] ps@[j]@ == b.bindings@[j]@,
        decreases b.bindings@.len() - i,
    {
        let p = match &b.bindings[i] {
            crate::functypes::ArgBinding::Variable(s) => crate::functypes::ArgBinding::Variable(
                s.clone(),
            ),
            crate::functypes::ArgBinding::Variadic(s) => crate::functypes::ArgBinding::Variadic(
                s.clone(),
            ),
        };
        ps.push(p);
        i = i + 1;
    }
    let body = b.f.dup();
    proof {
        assert(ps@.map_values(|a: crate::functypes::ArgBinding| a@) =~= b.bindings@.map_values(
            |a: crate::functypes::ArgBinding| a@,
        ));
    }
    BoundFn { bindings: ps, f: body, is_macro: b.is_macro }
}

/// The textual rendering of one parameter: its name, with `&` in front of a
/// rest parameter.
pub open spec fn render_param(p: crate::semantics::Param) -> Seq<char> {
    match p {
        crate::semantics::Param::Variable(s) => s,
        crate::semantics::Param::Variadic(s) => seq!['&'].add(s),
    }
}

/// Parameter renderings joined with `", "`.
pub open spec fn params_join(ps: Seq<crate::semantics::Param>) -> Seq<char>
    decreases ps.len(),
{
    if ps.len() == 0 {
        Seq::empty()
    } else if ps.len() == 1 {
        render_param(ps[0])
    } else {
        params_join(ps.drop_last()).add(seq![',', ' ']).add(render_param(ps.last()))
    }
}

/// The rendering of a parameter list: comma-joined inside square brackets.
pub open spec fn render_params(ps: Seq<crate::semantics::Param>) -> Seq<char> {
    seq!['['].add(params_join(ps)).push(']')
}

/// The renderings of the items, each preceded by one space.
pub open spec fn render_items(l: Seq<Val>) -> Seq<char>
    decreases l, 0int,
{
    if l.len() == 0 {
        Seq::empty()
    } else {
        render_items(l.drop_last()).add(seq![' ']).add(render(l.last()))
    }
}

/// The space-joined item renderings as they stand between brackets: the
/// leading space (and any whitespace a character item leaves at the ends) is
/// trimmed away.
pub open spec fn render_body(l: Seq<Val>) -> Seq<char>
    decreases l, 1int,
{
    crate::strutil::trim_back(crate::strutil::trim_front(render_items(l)))
}

/// The textual rendering of a value: lists in `( )`, vectors in `[ ]`,
/// strings quote-wrapped, closures as `(fn [params] body)`, built-ins as
/// `@builtin<tag>`, and literals as themselves.
pub open spec fn render(v: Val) -> Seq<char>
    decreases v, 2int,
{
    match v {
        Val::Symbol(s) => s,
        Val::Number(n) => crate::strutil::dec_i64(n),
        Val::Str(s) => seq!['"'].add(s).push('"'),
        Val::Character(c) => seq![c],
        Val::Boolean(b) => if b {
            "true"@
        } else {
            "false"@
        },
        Val::ParseError(p) => "Parse Error: "@.add(p),
        Val::EvalError(e) => "Eval Error: "@.add(e),
        Val::List(l) => seq!['('].add(render_body(l)).push(')'),
        Val::Vector(l) => seq!['['].add(render_body(l)).push(']'),
        Val::Function(f) => "(fn "@.add(render_params(f.params)).push(' ').add(
            render(*f.body),
        ).push(')'),
        Val::FuncPrimitive(p) => "@builtin"@.add(crate::strutil::dec_digits(p.tag as nat)),
        Val::Nil => "nil"@,
    }
}

impl Element {
    /// The textual rendering of this value.
    pub fn to_str(&self) -> (r: String)
        ensures
            r@ == render(self@),
        decreases self,
    {
        match self {
            Element::Symbol(s) => s.clone(),
            Element::Number(n) => {
                let mut out = String::new();
                crate::strutil::append_i64(&mut out, *n);
                proof {
                    assert(out@ =~= render(self@));
                }
                out
            },
            Element::Str(s) => {
                let mut out = String::new();
                crate::strutil::push_char(&mut out, '"');
                out.append(s.as_str());
                crate::strutil::push_char(&mut out, '"');
                proof {
                    assert(self@ == Val::Str(s@));
                    assert(render(self@) == seq!['"'].add(s@).push('"'));
                    assert(out@ =~= render(self@));
                }
                out
            },
            Element::Character(c) => {
                let mut out = String::new();
                crate::strutil::push_char(&mut out, *c);
                proof {
                    assert(out@ =~= render(self@));
                }
                out
            },
            Element::Boolean(b) => {
                if *b {
                    String::from_str("true")
                } else {
                    String::from_str("false")
                }
            },
            Element::ParseError(p) => {
                let mut out = String::from_str("Parse Error: ");
                out.append(p.as_str());
                out
            },
            Element::EvalError(e) => {
                let mut out = String::from_str("Eval Error: ");
                out.append(e.as_str());
                out
            },
            Element::List(v) => {
                let joined = items_to_str(v);
                let mut out = String::new();
                crate::strutil::push_char(&mut out, '(');
                crate::strutil::append_trimmed(&mut out, joined.as_str());
                crate::strutil::push_char(&mut out, ')');
                proof {
                    assert(self@ == Val::List(ev_seq(v@)));
                    assert(render(self@) == seq!['('].add(render_body(ev_seq(v@))).push(')'));
                    assert(render_body(ev_seq(v@)) == crate::strutil::trim_back(
                        crate::strutil::trim_front(render_items(ev_seq(v@))),
                    ));
                    assert(out@ =~= render(self@));
                }
                out
            },
            Element::Vector(v) => {
                let joined = items_to_str(v);
                let mut out = String::new();
                crate::strutil::push_char(&mut out, '[');
                crate::strutil::append_trimmed(&mut out, joined.as_str());
                crate::strutil::push_char(&mut out, ']');
                proof {
                    assert(self@ == Val::Vector(ev_seq(v@)));
                    assert(render(self@) == seq!['['].add(render_body(ev_seq(v@))).push(']'));
                    assert(render_body(ev_seq(v@)) == crate::strutil::trim_back(
                        crate::strutil::trim_front(render_items(ev_seq(v@))),
                    ));
                    assert(out@ =~= render(self@));
                }
                out
            },
            Element::Function(bf) => bf.to_str(),
            Element::FuncPrimitive(rf) => rf.to_str(),
            Element::Nil => String::from_str("nil"),
        }
    }
}

/// The renderings of the elements, each preceded by one space.
fn items_to_str(v: &Vec<Element>) -> (r: String)
    ensures
        r@ == render_items(ev_seq(v@)),
    decreases v,
{
    proof {
        lemma_ev_seq(v@);
    }
    let mut out = String::new();
    let mut i: usize = 0;
    while i < v.len()
        invariant
            i <= v@.len(),
            out@ == render_items(ev_seq(v@).take(i as int)),
        decreases v@.len() - i,
    {
        proof {
            assert(decreases_to!(v => v@[i as int]));
        }
        crate::strutil::push_char(&mut out, ' ');
        let t = v[i].to_str();
        out.append(t.as_str());
        proof {
            lemma_ev_seq(v@);
            assert(ev_seq(v@).take(i + 1).drop_last() =~= ev_seq(v@).take(i as int));
            assert(ev_seq(v@).take(i + 1).last() == ev(v@[i as int]));
            assert(out@ =~= render_items(ev_seq(v@).take(i + 1)));
        }
        i = i + 1;
    }
    proof {
        lemma_ev_seq(v@);
        assert(ev_seq(v@).take(v@.len() as int) =~= ev_seq(v@));
    }
    out
}

impl View for Element {
    type V = Val;

    open spec fn view(&self) -> Val {
        ev(*self)
    }
}

/// `ev_seq` is the pointwise map of `ev`.
pub proof fn lemma_ev_seq(s: Seq<Element>)
    ensures
        ev_seq(s).len() == s.len(),
        forall|i: int| 0 <= i < s.len() ==> ev_seq(s)[i] == ev(s[i]),
    decreases s,
{
    if s.len() > 0 {
        lemma_ev_seq(s.subrange(1, s.len() as int));
    }
}

/// `ev_seq` distributes over concatenation by one element at the back.
pub proof fn lemma_ev_seq_push(s: Seq<Element>, e: Element)
    ensures
        ev_seq(s.push(e)) == ev_seq(s).push(ev(e)),
{
    lemma_ev_seq(s.push(e));
    lemma_ev_seq(s);
    assert(ev_seq(s.push(e)) =~= ev_seq(s).push(ev(e)));
}

} // verus!

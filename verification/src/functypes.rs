//! The callable value types: built-in primitives and user-defined functions.

use vstd::prelude::*;

use crate::semantics::{FnVal, Param, PrimVal, Val};
use crate::types::Element;

verus! {

/// The fixed set of built-in operations.  Each built-in value carries one of
/// these instead of a bare code pointer, so that the evaluator can dispatch on
/// it and contracts can speak about it.
#[derive(Clone, Copy, PartialEq, Eq, Structural)]
pub enum NativeOp {
    Add,
    Sub,
    Mul,
    Div,
    Mod,
    Equal,
    Concat,
}

/// A built-in operation exposed as a value.  Identity (and hence equality in
/// the language) is decided by `tag` alone, never by the operation itself.
#[derive(Clone, Copy, PartialEq, Eq, Structural)]
pub struct RustFunc {
    pub op: NativeOp,
    pub tag: u64,
}

impl View for RustFunc {
    type V = PrimVal;

    open spec fn view(&self) -> PrimVal {
        PrimVal { op: self.op, tag: self.tag }
    }
}

impl RustFunc {
    /// Wraps a built-in operation as a language value under the given
    /// identity tag.
    pub fn new(op: NativeOp, tag: u64) -> (r: Element)
        ensures
            r@ == Val::FuncPrimitive(PrimVal { op, tag }),
    {
        Element::FuncPrimitive(RustFunc { op, tag })
    }
}

/// One parameter of a user-defined function.
#[derive(PartialEq, Eq)]
pub enum ArgBinding {
    Variable(String),
    Variadic(String),
}

impl View for ArgBinding {
    type V = Param;

    open spec fn view(&self) -> Param {
        match self {
            ArgBinding::Variable(s) => Param::Variable(s@),
            ArgBinding::Variadic(s) => Param::Variadic(s@),
        }
    }
}

/// A user-defined function: parameter names and an unevaluated body form.
/// The `is_macro` flag is reserved; macro calls currently behave exactly like
/// function calls.
#[derive(PartialEq, Eq)]
pub struct BoundFn {
    pub bindings: Vec<ArgBinding>,
    pub f: Element,
    pub is_macro: bool,
}

impl View for BoundFn {
    type V = FnVal;

    open spec fn view(&self) -> FnVal {
        crate::types::bfv(*self)
    }
}

impl BoundFn {
    /// Builds a function value from plain parameter names and a body form.
    fn create_fn(bindings: &[String], func: Element, is_macro: bool) -> (r: Element)
        ensures
            r@ == Val::Function(
                FnVal {
                    params: bindings@.map_values(|s: String| Param::Variable(s@)),
                    body: Box::new(func@),
                    is_macro: is_macro,
                },
            ),
    {
        let mut newbindings: Vec<ArgBinding> = Vec::new();
        let mut i: usize = 0;
        while i < bindings.len()
            invariant
                i <= bindings@.len(),
                newbindings@.len() == i,
                forall|j: int|
                    0 <= j < i ==> newbindings@[j] == ArgBinding::Variable(bindings@[j]),
            decreases bindings@.len() - i,
        {
            let name: String = bindings[i].clone();
            newbindings.push(ArgBinding::Variable(name));
            i = i + 1;
        }
        proof {
            assert(newbindings@.map_values(|a: ArgBinding| a@) =~= bindings@.map_values(
                |s: String| Param::Variable(s@),
            ));
        }
        Element::Function(Box::new(BoundFn { bindings: newbindings, f: func, is_macro }))
    }

    /// Builds an ordinary (non-macro) function value.
    pub fn new(bindings: &[String], func: Element) -> (r: Element)
        ensures
            r@ == Val::Function(
                FnVal {
                    params: bindings@.map_values(|s: String| Param::Variable(s@)),
                    body: Box::new(func@),
                    is_macro: false,
                },
            ),
    {
        BoundFn::create_fn(bindings, func, false)
    }

    /// Builds a function value carrying the reserved macro flag.
    pub fn new_macro(bindings: &[String], func: Element) -> (r: Element)
        ensures
            r@ == Val::Function(
                FnVal {
                    params: bindings@.map_values(|s: String| Param::Variable(s@)),
                    body: Box::new(func@),
                    is_macro: true,
                },
            ),
    {
        BoundFn::create_fn(bindings, func, true)
    }
}

impl RustFunc {
    /// The textual rendering of a built-in value: `@builtin` and its tag.
    pub fn to_str(&self) -> (r: String)
        ensures
            r@ == crate::types::render(Val::FuncPrimitive(self@)),
    {
        let mut out = String::from_str("@builtin");
        crate::strutil::append_u64(&mut out, self.tag);
        out
    }
}

impl ArgBinding {
    /// The textual rendering of one parameter.
    pub fn to_str(&self) -> (r: String)
        ensures
            r@ == crate::types::render_param(self@),
    {
        match self {
            ArgBinding::Variable(s) => s.clone(),
            ArgBinding::Variadic(s) => {
                let mut out = String::new();
                crate::strutil::push_char(&mut out, '&');
                out.append(s.as_str());
                proof {
                    assert(out@ =~= crate::types::render_param(self@));
                }
                out
            },
        }
    }
}

/// The comma-joined renderings of a parameter list, inside square brackets.
fn params_to_str(ps: &Vec<ArgBinding>) -> (r: String)
    ensures
        r@ == crate::types::render_params(ps@.map_values(|a: ArgBinding| a@)),
{
    let ghost pv = ps@.map_values(|a: ArgBinding| a@);
    let mut out = String::new();
    crate::strutil::push_char(&mut out, '[');
    let mut i: usize = 0;
    while i < ps.len()
        invariant
            i <= ps@.len(),
            pv == ps@.map_values(|a: ArgBinding| a@),
            out@ == seq!['['].add(crate::types::params_join(pv.take(i as int))),
        decreases ps@.len() - i,
    {
        if i > 0 {
            crate::strutil::push_char(&mut out, ',');
            crate::strutil::push_char(&mut out, ' ');
        }
        let t = ps[i].to_str();
        out.append(t.as_str());
        proof {
            assert(pv.take(i + 1).drop_last() =~= pv.take(i as int));
            assert(pv.take(i + 1).last() == pv[i as int]);
            assert(pv[i as int] == ps@[i as int]@);
            if i == 0 {
                assert(pv.take(1) =~= seq![pv[0]]);
                assert(out@ =~= seq!['['].add(crate::types::params_join(pv.take(1))));
            } else {
                assert(out@ =~= seq!['['].add(crate::types::params_join(pv.take(i + 1))));
            }
        }
        i = i + 1;
    }
    crate::strutil::push_char(&mut out, ']');
    proof {
        assert(pv.take(pv.len() as int) =~= pv);
        assert(out@ =~= crate::types::render_params(pv));
    }
    out
}

impl BoundFn {
    /// The textual rendering of a user-defined function:
    /// `(fn [params] body)`.
    pub fn to_str(&self) -> (r: String)
        ensures
            r@ == crate::types::render(Val::Function(crate::types::bfv(*self))),
        decreases self,
    {
        let mut out = String::from_str("(fn ");
        let params = params_to_str(&self.bindings);
        out.append(params.as_str());
        crate::strutil::push_char(&mut out, ' ');
        let body = self.f.to_str();
        out.append(body.as_str());
        crate::strutil::push_char(&mut out, ')');
        proof {
            assert(out@ =~= crate::types::render(Val::Function(crate::types::bfv(*self))));
        }
        out
    }
}

} // verus!

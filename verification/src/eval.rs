//! The environment chain and the evaluator.

use vstd::prelude::*;

use crate::semantics::{
    depth_err, env_contains, env_get, env_set_local, frame_contains, frame_get, frame_insert,
    initial_env, initial_frame, lemma_env_get_hit, lemma_env_get_miss, lemma_frame_get_hit,
    lemma_frame_insert_hit, lemma_frame_insert_miss, EnvV, FrameV, Val,
};
use crate::functypes::{BoundFn, NativeOp, RustFunc};
use crate::strutil::str_eq;
use crate::types::{ev, ev_seq, Element};

verus! {

/// The model of one stored frame.
pub open spec fn frame_v(s: Seq<(String, Element)>) -> FrameV {
    s.map_values(|p: (String, Element)| (p.0@, ev(p.1)))
}

/// An ordered chain of scope frames mapping names to values, innermost
/// first.  The last frame is the root frame: it is created once at startup,
/// never removed, and receives every `def`.
pub struct Bindings {
    frames: Vec<Vec<(String, Element)>>,
}

impl View for Bindings {
    type V = EnvV;

    closed spec fn view(&self) -> EnvV {
        self.frames@.map_values(|f: Vec<(String, Element)>| frame_v(f@))
    }
}

/// Finds the first entry of a stored frame with the given name.
fn fr_lookup(f: &Vec<(String, Element)>, k: &str) -> (r: Option<usize>)
    ensures
        match r {
            Some(i) => 0 <= i < f@.len() && f@[i as int].0@ == k@ && forall|j: int|
                0 <= j < i ==> f@[j].0@ != k@,
            None => forall|j: int| 0 <= j < f@.len() ==> f@[j].0@ != k@,
        },
{
    let mut i: usize = 0;
    while i < f.len()
        invariant
            i <= f@.len(),
            forall|j: int| 0 <= j < i ==> f@[j].0@ != k@,
        decreases f@.len() - i,
    {
        if str_eq(f[i].0.as_str(), k) {
            return Some(i);
        }
        i = i + 1;
    }
    None
}

/// Replaces the first entry of a stored frame with the given name, or
/// appends a new entry.  Returns whether the name was previously absent.
fn vframe_insert(f: &mut Vec<(String, Element)>, k: &str, value: Element) -> (fresh: bool)
    ensures
        frame_v(final(f)@) == frame_insert(frame_v(old(f)@), k@, ev(value)),
        fresh == !frame_contains(frame_v(old(f)@), k@),
{
    let key = String::from_str(k);
    match fr_lookup(f, k) {
        Some(i) => {
            proof {
                assert(frame_v(f@)[i as int].0 == k@);
                lemma_frame_insert_hit(frame_v(f@), k@, ev(value), i as int);
                lemma_frame_get_hit(frame_v(f@), k@, i as int);
            }
            f.remove(i);
            f.insert(i, (key, value));
            proof {
                assert(frame_v(f@) =~= frame_insert(frame_v(old(f)@), k@, ev(value)));
            }
            false
        },
        None => {
            proof {
                assert forall|j: int| 0 <= j < frame_v(f@).len() implies frame_v(f@)[j].0
                    != k@ by {
                    assert(frame_v(f@)[j].0 == f@[j].0@);
                }
                lemma_frame_insert_miss(frame_v(f@), k@, ev(value));
            }
            f.push((key, value));
            proof {
                assert(frame_v(f@) =~= frame_insert(frame_v(old(f)@), k@, ev(value)));
            }
            true
        },
    }
}

/// Whether a stored frame binds the name.
fn vframe_contains(f: &Vec<(String, Element)>, k: &str) -> (r: bool)
    ensures
        r == frame_contains(frame_v(f@), k@),
{
    match fr_lookup(f, k) {
        Some(i) => {
            proof {
                assert(frame_v(f@)[i as int].0 == k@);
            }
            true
        },
        None => {
            proof {
                assert forall|j: int| 0 <= j < frame_v(f@).len() implies frame_v(f@)[j].0
                    != k@ by {
                    assert(frame_v(f@)[j].0 == f@[j].0@);
                }
            }
            false
        },
    }
}

/// A copy of the value a stored frame binds the name to.
fn vframe_get(f: &Vec<(String, Element)>, k: &str) -> (r: Element)
    requires
        frame_contains(frame_v(f@), k@),
    ensures
        r@ == frame_get(frame_v(f@), k@),
{
    match fr_lookup(f, k) {
        Some(i) => {
            proof {
                assert(frame_v(f@)[i as int].0 == k@);
                assert forall|j: int| 0 <= j < i implies frame_v(f@)[j].0 != k@ by {
                    assert(frame_v(f@)[j].0 == f@[j].0@);
                }
                lemma_frame_get_hit(frame_v(f@), k@, i as int);
                assert(frame_v(f@)[i as int].1 == ev(f@[i as int].1));
            }
            f[i].1.dup()
        },
        None => {
            proof {
                assert forall|j: int| 0 <= j < frame_v(f@).len() implies frame_v(f@)[j].0
                    != k@ by {
                    assert(frame_v(f@)[j].0 == f@[j].0@);
                }
                assert(false);
            }
            Element::Nil
        },
    }
}

/// A deep copy of a stored frame.
fn dup_frame(f: &Vec<(String, Element)>) -> (r: Vec<(String, Element)>)
    ensures
        frame_v(r@) == frame_v(f@),
{
    let mut out: Vec<(String, Element)> = Vec::new();
    let mut i: usize = 0;
    while i < f.len()
        invariant
            i <= f@.len(),
            out@.len() == i,
            forall|j: int| 0 <= j < i ==> #[trigger] out@[j].0@ == f@[j].0@,
            forall|j: int| 0 <= j < i ==> ev(#[trigger] out@[j].1) == ev(f@[j].1),
        decreases f@.len() - i,
    {
        let name = f[i].0.clone();
        let value = f[i].1.dup();
        let ghost pre_out = out@;
        out.push((name, value));
        proof {
            assert forall|j: int| 0 <= j < i + 1 implies out@[j].0@ == f@[j].0@ && ev(
                out@[j].1,
            ) == ev(f@[j].1) by {
                if j < i {
                    assert(out@[j] == pre_out[j]);
                } else {
                    assert(out@[j] == (name, value));
                }
            }
        }
        i = i + 1;
    }
    proof {
        assert(frame_v(out@) =~= frame_v(f@));
    }
    out
}

impl Bindings {
    /// The root frame exists.
    pub open spec fn wf(&self) -> bool {
        self@.len() >= 1
    }

    /// A fresh session environment: one root frame seeded with the built-in
    /// operations and the `inc`/`dec` closures.
    pub fn new() -> (b: Bindings)
        ensures
            b@ == initial_env(),
            b.wf(),
    {
        let mut root: Vec<(String, Element)> = Vec::new();
        root.push((String::from_str("+"), RustFunc::new(NativeOp::Add, 0)));
        root.push((String::from_str("-"), RustFunc::new(NativeOp::Sub, 1)));
        root.push((String::from_str("*"), RustFunc::new(NativeOp::Mul, 2)));
        root.push((String::from_str("/"), RustFunc::new(NativeOp::Div, 3)));
        root.push((String::from_str("%"), RustFunc::new(NativeOp::Mod, 4)));
        root.push((String::from_str("="), RustFunc::new(NativeOp::Equal, 5)));
        root.push((String::from_str("concat"), RustFunc::new(NativeOp::Concat, 6)));
        let mut inc_params: Vec<String> = Vec::new();
        inc_params.push(String::from_str("x"));
        let mut inc_body: Vec<Element> = Vec::new();
        inc_body.push(Element::Symbol(String::from_str("+")));
        inc_body.push(Element::Symbol(String::from_str("x")));
        inc_body.push(Element::Number(1));
        root.push(
            (String::from_str("inc"), BoundFn::new(inc_params.as_slice(), Element::List(inc_body))),
        );
        let mut dec_params: Vec<String> = Vec::new();
        dec_params.push(String::from_str("x"));
        let mut dec_body: Vec<Element> = Vec::new();
        dec_body.push(Element::Symbol(String::from_str("-")));
        dec_body.push(Element::Symbol(String::from_str("x")));
        dec_body.push(Element::Number(1));
        root.push(
            (String::from_str("dec"), BoundFn::new(dec_params.as_slice(), Element::List(dec_body))),
        );
        let mut frames: Vec<Vec<(String, Element)>> = Vec::new();
        frames.push(root);
        let b = Bindings { frames };
        proof {
            assert(ev_seq(inc_body@) =~= seq![
                Val::Symbol("+"@),
                Val::Symbol("x"@),
                Val::Number(1),
            ]) by {
                crate::types::lemma_ev_seq(inc_body@);
            }
            assert(ev_seq(dec_body@) =~= seq![
                Val::Symbol("-"@),
                Val::Symbol("x"@),
                Val::Number(1),
            ]) by {
                crate::types::lemma_ev_seq(dec_body@);
            }
            assert(inc_params@.map_values(|s: String| crate::semantics::Param::Variable(s@))
                =~= seq![crate::semantics::Param::Variable("x"@)]);
            assert(dec_params@.map_values(|s: String| crate::semantics::Param::Variable(s@))
                =~= seq![crate::semantics::Param::Variable("x"@)]);
            assert(frame_v(root@) =~= initial_frame());
            assert(b@ =~= initial_env());
        }
        b
    }

    /// A new chain: a fresh empty innermost frame in front of a copy of this
    /// chain.
    pub fn push(&self) -> (b: Bindings)
        ensures
            b@ == seq![Seq::<(Seq<char>, Val)>::empty()].add(self@),
    {
        let mut frames: Vec<Vec<(String, Element)>> = Vec::new();
        frames.push(Vec::new());
        let mut i: usize = 0;
        while i < self.frames.len()
            invariant
                i <= self.frames@.len(),
                frames@.len() == i + 1,
                frame_v(frames@[0]@) == Seq::<(Seq<char>, Val)>::empty(),
                forall|j: int|
                    0 <= j < i ==> frame_v(#[trigger] frames@[j + 1]@) == frame_v(
                        self.frames@[j]@,
                    ),
            decreases self.frames@.len() - i,
        {
            let fr = dup_frame(&self.frames[i]);
            frames.push(fr);
            i = i + 1;
        }
        let b = Bindings { frames };
        proof {
            assert(frame_v(Seq::<(String, Element)>::empty()) =~= Seq::<(Seq<char>, Val)>::empty());
            assert forall|k: int| 0 < k < b@.len() implies b@[k] == self@[k - 1] by {
                assert(frame_v(frames@[(k - 1) + 1]@) == frame_v(self.frames@[k - 1]@));
            }
            assert(b@ =~= seq![Seq::<(Seq<char>, Val)>::empty()].add(self@));
        }
        b
    }

    /// Binds a name in the innermost frame.  Returns whether the name was
    /// previously absent from that frame.
    pub fn insert(&mut self, key: &str, value: Element) -> (fresh: bool)
        requires
            old(self).wf(),
        ensures
            final(self)@ == env_set_local(old(self)@, key@, ev(value)),
            final(self).wf(),
            fresh == !frame_contains(old(self)@[0], key@),
    {
        let mut f0 = self.frames.remove(0);
        let fresh = vframe_insert(&mut f0, key, value);
        self.frames.insert(0, f0);
        proof {
            assert(self@ =~= env_set_local(old(self)@, key@, ev(value)));
        }
        fresh
    }

    /// Binds a name in the root frame, whatever the current depth.
    fn insert_root(&mut self, key: &str, value: Element)
        requires
            old(self).wf(),
        ensures
            final(self)@ == crate::semantics::env_set_root(old(self)@, key@, ev(value)),
            final(self).wf(),
    {
        let mut fr = match self.frames.pop() {
            Some(fr) => fr,
            None => Vec::new(),
        };
        vframe_insert(&mut fr, key, value);
        self.frames.push(fr);
        proof {
            assert(self@ =~= crate::semantics::env_set_root(old(self)@, key@, ev(value)));
        }
    }

    /// Innermost-first lookup; an absent name gives the "Not in scope" error
    /// value.
    pub fn get(&self, e: &str) -> (r: Element)
        ensures
            r@ == env_get(self@, e@),
    {
        let mut i: usize = 0;
        while i < self.frames.len()
            invariant
                i <= self.frames@.len(),
                forall|j: int| 0 <= j < i ==> !frame_contains(#[trigger] self@[j], e@),
            decreases self.frames@.len() - i,
        {
            if vframe_contains(&self.frames[i], e) {
                let r = vframe_get(&self.frames[i], e);
                proof {
                    lemma_env_get_hit(self@, e@, i as int);
                }
                return r;
            }
            i = i + 1;
        }
        proof {
            lemma_env_get_miss(self@, e@);
        }
        Element::EvalError(String::from_str("Not in scope"))
    }

    /// Whether any frame binds the name.
    pub fn contains_key(&self, e: &str) -> (r: bool)
        ensures
            r == env_contains(self@, e@),
    {
        let mut i: usize = 0;
        while i < self.frames.len()
            invariant
                i <= self.frames@.len(),
                forall|j: int| 0 <= j < i ==> !frame_contains(#[trigger] self@[j], e@),
            decreases self.frames@.len() - i,
        {
            if vframe_contains(&self.frames[i], e) {
                proof {
                    lemma_env_get_hit(self@, e@, i as int);
                }
                return true;
            }
            i = i + 1;
        }
        proof {
            lemma_env_get_miss(self@, e@);
        }
        false
    }
}

/// The evaluator's recursion budget.  Each recursive step of evaluation
/// consumes one unit; a program that runs out gets a "Recursion depth
/// exceeded" error value instead of exhausting the host stack.
pub const EVAL_FUEL: u64 = 4096;

/// The error element for an exhausted recursion budget.
fn depth_elem() -> (r: Element)
    ensures
        r@ == depth_err(),
{
    Element::EvalError(String::from_str("Recursion depth exceeded"))
}

/// Dispatches a built-in operation on evaluated arguments.
fn run_native(op: NativeOp, args: &Vec<Element>) -> (r: Element)
    ensures
        r@ == crate::semantics::apply_native(op, ev_seq(args@)),
{
    match op {
        NativeOp::Add => crate::primitives::add(args.as_slice()),
        NativeOp::Sub => crate::primitives::sub(args.as_slice()),
        NativeOp::Mul => crate::primitives::mul(args.as_slice()),
        NativeOp::Div => crate::primitives::div(args.as_slice()),
        NativeOp::Mod => crate::primitives::modfn(args.as_slice()),
        NativeOp::Equal => crate::primitives::equal(args.as_slice()),
        NativeOp::Concat => crate::primitives::concat(args.as_slice()),
    }
}

/// Copies of the operands of a form (everything after the head).
fn dup_tail(form: &Vec<Element>) -> (r: Vec<Element>)
    requires
        form@.len() >= 1,
    ensures
        ev_seq(r@) == ev_seq(form@).drop_first(),
{
    let mut out: Vec<Element> = Vec::new();
    let mut i: usize = 1;
    while i < form.len()
        invariant
            1 <= i <= form@.len(),
            out@.len() == i - 1,
            forall|j: int| 0 <= j < i - 1 ==> ev(#[trigger] out@[j]) == ev(form@[j + 1]),
        decreases form@.len() - i,
    {
        proof {
            assert(decreases_to!(form => form@[i as int]));
        }
        let e = form[i].dup();
        out.push(e);
        i = i + 1;
    }
    proof {
        crate::types::lemma_ev_seq(out@);
        crate::types::lemma_ev_seq(form@);
        assert(ev_seq(out@) =~= ev_seq(form@).drop_first());
    }
    out
}

impl Bindings {
    /// One evaluation step on a single value, under a recursion budget.
    fn eval_elem_at(&mut self, form: Element, fuel: u64) -> (r: Element)
        requires
            old(self).wf(),
        ensures
            final(self).wf(),
            ({
                let (env2, v) = crate::semantics::spec_eval_elem(old(self)@, ev(form), fuel as nat);
                final(self)@ == env2 && r@ == v
            }),
        decreases fuel,
    {
        proof {
            crate::semantics::lemma_eval_elem_len(self@, ev(form), fuel as nat);
        }
        if fuel == 0 {
            return depth_elem();
        }
        match form {
            Element::List(l) => self.eval_form_at(&l, fuel - 1),
            Element::Vector(v) => {
                proof {
                    assert(ev_seq(v@).subrange(0, ev_seq(v@).len() as int) =~= ev_seq(v@));
                    crate::types::lemma_ev_seq(v@);
                }
                match self.eval_args_at(&v, 0, fuel - 1) {
                    Some(vs) => Element::Vector(vs),
                    None => depth_elem(),
                }
            },
            Element::Symbol(s) => {
                if self.contains_key(s.as_str()) {
                    self.get(s.as_str())
                } else {
                    crate::primitives::err("Symbol Not defined")
                }
            },
            other => other,
        }
    }

    /// Evaluates the elements of `items` from `start` on, left to right,
    /// threading the environment.  `None` means the budget ran out.
    fn eval_args_at(&mut self, items: &Vec<Element>, start: usize, fuel: u64) -> (r: Option<
        Vec<Element>,
    >)
        requires
            old(self).wf(),
            start <= items@.len(),
        ensures
            final(self).wf(),
            ({
                let (env2, ro) = crate::semantics::spec_eval_args(
                    old(self)@,
                    ev_seq(items@).subrange(start as int, items@.len() as int),
                    fuel as nat,
                );
                final(self)@ == env2 && (match (r, ro) {
                    (Some(v), Some(vs)) => ev_seq(v@) == vs,
                    (None, None) => true,
                    _ => false,
                })
            }),
        decreases fuel,
    {
        let ghost s_all = ev_seq(items@).subrange(start as int, items@.len() as int);
        proof {
            crate::types::lemma_ev_seq(items@);
            crate::semantics::lemma_eval_args_len(self@, s_all, fuel as nat);
        }
        if fuel == 0 {
            return None;
        }
        if start == items.len() {
            let empty: Vec<Element> = Vec::new();
            proof {
                assert(s_all =~= Seq::<Val>::empty());
                crate::types::lemma_ev_seq(empty@);
                assert(ev_seq(empty@) =~= Seq::<Val>::empty());
            }
            return Some(empty);
        }
        proof {
            assert(s_all[0] == ev_seq(items@)[start as int]);
            assert(s_all[0] == ev(items@[start as int]));
        }
        let v = self.eval_elem_at(items[start].dup(), fuel - 1);
        proof {
            assert(s_all.drop_first() =~= ev_seq(items@).subrange(
                start + 1 as int,
                items@.len() as int,
            ));
        }
        let rest = self.eval_args_at(items, start + 1, fuel - 1);
        match rest {
            Some(mut vs) => {
                let ghost pre = vs@;
                vs.insert(0, v);
                proof {
                    crate::types::lemma_ev_seq(vs@);
                    crate::types::lemma_ev_seq(pre);
                    let (env1, v_s) = crate::semantics::spec_eval_elem(
                        old(self)@,
                        ev(items@[start as int]),
                        (fuel - 1) as nat,
                    );
                    let (env2, ro_s) = crate::semantics::spec_eval_args(
                        env1,
                        s_all.drop_first(),
                        (fuel - 1) as nat,
                    );
                    assert(vs@ =~= seq![v].add(pre));
                    assert forall|j: int| 0 <= j < vs@.len() implies ev_seq(vs@)[j] == seq![
                        v_s,
                    ].add(ro_s.unwrap())[j] by {
                        if j == 0 {
                            assert(ev_seq(vs@)[0] == ev(vs@[0]));
                            assert(vs@[0] == v);
                        } else {
                            assert(ev_seq(vs@)[j] == ev(vs@[j]));
                            assert(vs@[j] == pre[j - 1]);
                            assert(ev_seq(pre)[j - 1] == ev(pre[j - 1]));
                        }
                    }
                    assert(ev_seq(vs@) =~= seq![v_s].add(ro_s.unwrap()));
                }
                Some(vs)
            },
            None => None,
        }
    }

    /// Evaluates a call form: the empty form is self-quoting, special forms
    /// take the unevaluated tail, otherwise the head is resolved, the
    /// operands are evaluated exactly once, and the callee is applied.
    fn eval_form_at(&mut self, form: &Vec<Element>, fuel: u64) -> (r: Element)
        requires
            old(self).wf(),
        ensures
            final(self).wf(),
            ({
                let (env2, v) = crate::semantics::spec_eval_form(
                    old(self)@,
                    ev_seq(form@),
                    fuel as nat,
                );
                final(self)@ == env2 && r@ == v
            }),
        decreases fuel,
    {
        proof {
            crate::types::lemma_ev_seq(form@);
            crate::semantics::lemma_eval_form_len(self@, ev_seq(form@), fuel as nat);
        }
        if fuel == 0 {
            return depth_elem();
        }
        if form.len() == 0 {
            let empty: Vec<Element> = Vec::new();
            proof {
                assert(ev_seq(form@) =~= Seq::<Val>::empty());
                assert(ev_seq(empty@) =~= Seq::<Val>::empty());
            }
            return Element::List(empty);
        }
        proof {
            assert(ev_seq(form@)[0] == ev(form@[0]));
        }
        match &form[0] {
            Element::Symbol(s) => {
                if str_eq(s.as_str(), "if") {
                    self.if_form(form, fuel - 1)
                } else if str_eq(s.as_str(), "def") {
                    self.def_form(form, fuel - 1)
                } else if str_eq(s.as_str(), "defn") {
                    self.defn_form(form)
                } else if str_eq(s.as_str(), "fn") {
                    self.fn_nobind_form(form)
                } else if str_eq(s.as_str(), "defmacro") {
                    self.defn_form(form)
                } else if self.contains_key(s.as_str()) {
                    let callee = self.get(s.as_str());
                    proof {
                        assert(ev_seq(form@).drop_first() =~= ev_seq(form@).subrange(
                            1,
                            form@.len() as int,
                        ));
                    }
                    match self.eval_args_at(form, 1, fuel - 1) {
                        Some(argv) => self.apply_at(callee, argv, fuel - 1),
                        None => depth_elem(),
                    }
                } else {
                    crate::primitives::err("Symbol Not defined")
                }
            },
            Element::List(l) => {
                let callee = self.eval_form_at(l, fuel - 1);
                proof {
                    assert(ev_seq(form@).drop_first() =~= ev_seq(form@).subrange(
                        1,
                        form@.len() as int,
                    ));
                }
                match self.eval_args_at(form, 1, fuel - 1) {
                    Some(argv) => self.apply_at(callee, argv, fuel - 1),
                    None => depth_elem(),
                }
            },
            Element::FuncPrimitive(p) => {
                let op = p.op;
                proof {
                    assert(ev_seq(form@).drop_first() =~= ev_seq(form@).subrange(
                        1,
                        form@.len() as int,
                    ));
                }
                match self.eval_args_at(form, 1, fuel - 1) {
                    Some(argv) => run_native(op, &argv),
                    None => depth_elem(),
                }
            },
            Element::Function(bf) => {
                let argv = dup_tail(form);
                self.apply_closure_at(bf, argv, fuel - 1)
            },
            _ => crate::primitives::err("Failed to evaluate form"),
        }
    }

    /// Applies an already-resolved callee to already-evaluated arguments.
    fn apply_at(&mut self, callee: Element, argv: Vec<Element>, fuel: u64) -> (r: Element)
        requires
            old(self).wf(),
        ensures
            final(self).wf(),
            ({
                let (env2, v) = crate::semantics::spec_apply(
                    old(self)@,
                    ev(callee),
                    ev_seq(argv@),
                    fuel as nat,
                );
                final(self)@ == env2 && r@ == v
            }),
        decreases fuel,
    {
        proof {
            crate::semantics::lemma_apply_len(self@, ev(callee), ev_seq(argv@), fuel as nat);
        }
        if fuel == 0 {
            return depth_elem();
        }
        match callee {
            Element::FuncPrimitive(p) => run_native(p.op, &argv),
            Element::Function(bf) => self.apply_closure_at(&bf, argv, fuel - 1),
            Element::List(l) => {
                let callee2 = self.eval_form_at(&l, fuel - 1);
                self.apply_at(callee2, argv, fuel - 1)
            },
            _ => crate::primitives::err("Failed to evaluate form"),
        }
    }

    /// Applies a user-defined function: binds parameters to arguments by
    /// position in a fresh innermost frame, evaluates the body against the
    /// caller's environment plus that frame, and drops the frame again.
    #[verifier::loop_isolation(false)]
    #[verifier::rlimit(60)]
    fn apply_closure_at(&mut self, f: &BoundFn, argv: Vec<Element>, fuel: u64) -> (r: Element)
        requires
            old(self).wf(),
        ensures
            final(self).wf(),
            ({
                let (env2, v) = crate::semantics::spec_apply_closure(
                    old(self)@,
                    crate::types::bfv(*f),
                    ev_seq(argv@),
                    fuel as nat,
                );
                final(self)@ == env2 && r@ == v
            }),
        decreases fuel,
    {
        let ghost fp = crate::types::bfv(*f).params;
        let ghost vals = ev_seq(argv@);
        proof {
            crate::types::lemma_ev_seq(argv@);
            crate::semantics::lemma_apply_closure_len(
                self@,
                crate::types::bfv(*f),
                vals,
                fuel as nat,
            );
        }
        if fuel == 0 {
            return depth_elem();
        }
        let mut pf: Vec<(String, Element)> = Vec::new();
        let n: usize = if f.bindings.len() < argv.len() {
            f.bindings.len()
        } else {
            argv.len()
        };
        proof {
            assert(fp.skip(0) =~= fp);
            assert(vals.skip(0) =~= vals);
            assert(frame_v(pf@) =~= Seq::<(Seq<char>, Val)>::empty());
        }
        let mut i: usize = 0;
        while i < n
            invariant
                i <= n,
                crate::semantics::bind_params(Seq::empty(), fp, vals)
                    == crate::semantics::bind_params(
                    frame_v(pf@),
                    fp.skip(i as int),
                    vals.skip(i as int),
                ),
            decreases n - i,
        {
            proof {
                assert(fp.skip(i as int)[0] == fp[i as int]);
                assert(fp[i as int] == f.bindings@[i as int]@);
                assert(vals.skip(i as int)[0] == vals[i as int]);
                assert(vals[i as int] == ev(argv@[i as int]));
            }
            match &f.bindings[i] {
                crate::functypes::ArgBinding::Variable(s) => {
                    proof {
                        crate::semantics::lemma_bind_params_step(
                            frame_v(pf@),
                            fp.skip(i as int),
                            vals.skip(i as int),
                        );
                        assert(fp.skip(i as int).drop_first() =~= fp.skip(i + 1 as int));
                        assert(vals.skip(i as int).drop_first() =~= vals.skip(i + 1 as int));
                    }
                    let v = argv[i].dup();
                    vframe_insert(&mut pf, s.as_str(), v);
                },
                crate::functypes::ArgBinding::Variadic(_) => {
                    proof {
                        assert(crate::semantics::bind_params(
                            frame_v(pf@),
                            fp.skip(i as int),
                            vals.skip(i as int),
                        ) is None);
                    }
                    return crate::primitives::err("Variadic not implemented");
                },
            }
            i = i + 1;
        }
        proof {
            assert(fp.skip(n as int).len() == 0 || vals.skip(n as int).len() == 0);
            assert(crate::semantics::bind_params(Seq::empty(), fp, vals) == Some(frame_v(pf@)));
        }
        self.frames.insert(0, pf);
        proof {
            assert(self@ =~= seq![frame_v(pf@)].add(old(self)@));
        }
        let body = f.f.dup();
        let r = self.eval_elem_at(body, fuel - 1);
        proof {
            assert(self@.len() >= 1);
            assert(self.frames@.len() >= 1);
        }
        self.frames.remove(0);
        proof {
            let (env2, v) = crate::semantics::spec_eval_elem(
                seq![frame_v(pf@)].add(old(self)@),
                ev(body),
                (fuel - 1) as nat,
            );
            assert(self@ =~= env2.drop_first());
        }
        r
    }

    /// The `if` special form.
    fn if_form(&mut self, form: &Vec<Element>, fuel: u64) -> (r: Element)
        requires
            old(self).wf(),
            form@.len() >= 1,
        ensures
            final(self).wf(),
            ({
                let (env2, v) = crate::semantics::spec_if(
                    old(self)@,
                    ev_seq(form@).drop_first(),
                    fuel as nat,
                );
                final(self)@ == env2 && r@ == v
            }),
        decreases fuel,
    {
        let ghost args = ev_seq(form@).drop_first();
        proof {
            crate::types::lemma_ev_seq(form@);
            crate::semantics::lemma_if_len(self@, args, fuel as nat);
            assert(args.len() == form@.len() - 1);
            assert forall|j: int| 0 <= j < args.len() implies args[j] == ev(form@[j + 1]) by {
                assert(args[j] == ev_seq(form@)[j + 1]);
            }
        }
        if fuel == 0 {
            return depth_elem();
        }
        let n = form.len() - 1;
        if n < 2 || n > 3 {
            return crate::primitives::arity_err("if: wrong number of args (", n);
        }
        let c = self.eval_elem_at(form[1].dup(), fuel - 1);
        match c {
            Element::Boolean(b) => {
                if b {
                    self.eval_elem_at(form[2].dup(), fuel - 1)
                } else if n == 3 {
                    self.eval_elem_at(form[3].dup(), fuel - 1)
                } else {
                    Element::Nil
                }
            },
            _ => crate::primitives::err("if: first element must be boolean"),
        }
    }

    /// The `def` special form: evaluates the expression, then binds the name
    /// in the root frame.
    fn def_form(&mut self, form: &Vec<Element>, fuel: u64) -> (r: Element)
        requires
            old(self).wf(),
            form@.len() >= 1,
        ensures
            final(self).wf(),
            ({
                let (env2, v) = crate::semantics::spec_def(
                    old(self)@,
                    ev_seq(form@).drop_first(),
                    fuel as nat,
                );
                final(self)@ == env2 && r@ == v
            }),
        decreases fuel,
    {
        let ghost args = ev_seq(form@).drop_first();
        proof {
            crate::types::lemma_ev_seq(form@);
            crate::semantics::lemma_def_len(self@, args, fuel as nat);
            assert(args.len() == form@.len() - 1);
            assert forall|j: int| 0 <= j < args.len() implies args[j] == ev(form@[j + 1]) by {
                assert(args[j] == ev_seq(form@)[j + 1]);
            }
        }
        if fuel == 0 {
            return depth_elem();
        }
        if form.len() - 1 != 2 {
            return crate::primitives::err("expected 2 args");
        }
        let v = self.eval_elem_at(form[2].dup(), fuel - 1);
        match &form[1] {
            Element::Symbol(name) => {
                self.insert_root(name.as_str(), v);
                Element::Nil
            },
            _ => crate::primitives::err("first arg not of type symbol"),
        }
    }

    /// The `defn` special form (also the current behaviour of `defmacro`):
    /// binds a closure built from a parameter vector and a body into the
    /// root frame.
    #[verifier::loop_isolation(false)]
    fn defn_form(&mut self, form: &Vec<Element>) -> (r: Element)
        requires
            old(self).wf(),
            form@.len() >= 1,
        ensures
            final(self).wf(),
            ({
                let (env2, v) = crate::semantics::spec_defn(
                    old(self)@,
                    ev_seq(form@).drop_first(),
                );
                final(self)@ == env2 && r@ == v
            }),
    {
        let ghost args = ev_seq(form@).drop_first();
        proof {
            crate::types::lemma_ev_seq(form@);
            assert(args.len() == form@.len() - 1);
            assert forall|j: int| 0 <= j < args.len() implies args[j] == ev(form@[j + 1]) by {
                assert(args[j] == ev_seq(form@)[j + 1]);
            }
        }
        if form.len() - 1 != 3 {
            return crate::primitives::err("expected 3 args");
        }
        let name = match &form[1] {
            Element::Symbol(s) => s,
            _ => {
                return crate::primitives::err("name must be a symbol");
            },
        };
        let ps = match &form[2] {
            Element::Vector(v) => v,
            _ => {
                return crate::primitives::err("args must be a vector");
            },
        };
        let names = match collect_names(ps) {
            Some(names) => names,
            None => {
                return crate::primitives::err("args must be symbols");
            },
        };
        let body = form[3].dup();
        let closure = BoundFn::new(names.as_slice(), body);
        proof {
            let nm = crate::semantics::param_names(ev_seq(ps@)).unwrap();
            assert(names@.map_values(|s: String| crate::semantics::Param::Variable(s@))
                =~= nm.map_values(|s: Seq<char>| crate::semantics::Param::Variable(s)));
        }
        self.insert_root(name.as_str(), closure);
        Element::Nil
    }

    /// The `fn` special form: builds a closure value without binding it.
    fn fn_nobind_form(&mut self, form: &Vec<Element>) -> (r: Element)
        requires
            old(self).wf(),
            form@.len() >= 1,
        ensures
            final(self).wf(),
            ({
                let (env2, v) = crate::semantics::spec_fn_nobind(
                    old(self)@,
                    ev_seq(form@).drop_first(),
                );
                final(self)@ == env2 && r@ == v
            }),
    {
        let ghost args = ev_seq(form@).drop_first();
        proof {
            crate::types::lemma_ev_seq(form@);
            assert(args.len() == form@.len() - 1);
            assert forall|j: int| 0 <= j < args.len() implies args[j] == ev(form@[j + 1]) by {
                assert(args[j] == ev_seq(form@)[j + 1]);
            }
        }
        if form.len() - 1 != 2 {
            return crate::primitives::err("expected 2 args");
        }
        let ps = match &form[1] {
            Element::Vector(v) => v,
            _ => {
                return crate::primitives::err("args must be in a vector");
            },
        };
        let names = match collect_names(ps) {
            Some(names) => names,
            None => {
                return crate::primitives::err("args must be symbols");
            },
        };
        let body = form[2].dup();
        let closure = BoundFn::new(names.as_slice(), body);
        proof {
            let nm = crate::semantics::param_names(ev_seq(ps@)).unwrap();
            assert(names@.map_values(|s: String| crate::semantics::Param::Variable(s@))
                =~= nm.map_values(|s: Seq<char>| crate::semantics::Param::Variable(s)));
        }
        closure
    }

    /// Evaluates a single value against this environment under the default
    /// recursion budget.
    pub fn eval_elem(&mut self, form: Element) -> (r: Element)
        requires
            old(self).wf(),
        ensures
            final(self).wf(),
            ({
                let (env2, v) = crate::semantics::spec_eval_elem(
                    old(self)@,
                    ev(form),
                    EVAL_FUEL as nat,
                );
                final(self)@ == env2 && r@ == v
            }),
    {
        self.eval_elem_at(form, EVAL_FUEL)
    }
}

impl Bindings {
    /// Reads one line of text and evaluates it against this environment.
    /// A parse error value is returned untouched, unevaluated.
    pub fn eval(&mut self, s: &str) -> (r: Element)
        requires
            old(self).wf(),
        ensures
            final(self).wf(),
            ({
                let (env2, v) = crate::semantics::spec_eval_elem(
                    old(self)@,
                    crate::tokenizer::spec_tokenize(s@),
                    EVAL_FUEL as nat,
                );
                final(self)@ == env2 && r@ == v
            }),
    {
        let parsed = crate::tokenizer::tokenize(s);
        self.eval_elem(parsed)
    }
}

/// Reads and evaluates one line against a fresh environment: good for a
/// one-liner.
pub fn eval(s: &str) -> (r: Element)
    ensures
        r@ == crate::semantics::spec_eval_elem(
            initial_env(),
            crate::tokenizer::spec_tokenize(s@),
            EVAL_FUEL as nat,
        ).1,
{
    let mut bindings = Bindings::new();
    bindings.eval(s)
}

/// The names of a vector of symbols, or `None` if some element is not a
/// symbol.
#[verifier::loop_isolation(false)]
fn collect_names(ps: &Vec<Element>) -> (r: Option<Vec<String>>)
    ensures
        ({
            match r {
                Some(names) => crate::semantics::param_names(ev_seq(ps@)) == Some(
                    names@.map_values(|s: String| s@),
                ),
                None => crate::semantics::param_names(ev_seq(ps@)) is None,
            }
        }),
{
    proof {
        crate::types::lemma_ev_seq(ps@);
    }
    let mut names: Vec<String> = Vec::new();
    let mut i: usize = 0;
    while i < ps.len()
        invariant
            i <= ps@.len(),
            names@.len() == i,
            forall|j: int| 0 <= j < i ==> ev(#[trigger] ps@[j]) == Val::Symbol(names@[j]@),
        decreases ps@.len() - i,
    {
        match &ps[i] {
            Element::Symbol(s) => {
                names.push(s.clone());
            },
            _ => {
                proof {
                    crate::semantics::lemma_param_names(ev_seq(ps@));
                    assert(!(ev_seq(ps@)[i as int] is Symbol));
                }
                return None;
            },
        }
        i = i + 1;
    }
    proof {
        let nm = names@.map_values(|s: String| s@);
        assert forall|j: int| 0 <= j < ps@.len() implies ev_seq(ps@)[j] == Val::Symbol(
            nm[j],
        ) by {
            assert(ev(ps@[j]) == Val::Symbol(names@[j]@));
        }
        crate::semantics::lemma_param_names_build(ev_seq(ps@), nm);
    }
    Some(names)
}

} // verus!

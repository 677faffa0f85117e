//! The built-in operations: arithmetic, comparison and structural.  Each
//! receives the already-evaluated argument sequence and returns a value,
//! reporting misuse through `EvalError` values, never by panicking.

use vstd::prelude::*;

use crate::semantics::{
    div_fold, has_zero, lemma_concat_segs, lemma_concat_segs_build, lemma_div_fold_push,
    lemma_flat_push, lemma_nums_of, lemma_nums_of_build, lemma_seq_val_eq, lemma_wrap_mul_fold_push,
    lemma_wrap_sub_fold_push, nums_of, seg_of, seq_val_eq, spec_add, spec_concat, spec_div,
    spec_equal, spec_if_value, spec_mod, spec_mul, spec_sub, trunc_div_i64, trunc_rem_i64, val_eq,
    wrap_mul_fold, wrap_sub_fold, wrap_sum, Val,
};
use crate::strutil::{append_u64, push_char, str_eq};
use crate::types::{ev, ev_seq, lemma_ev_seq, Element};

verus! {

/// Language-level equality of two values: structural, except that built-in
/// operation values compare by tag alone.
pub fn val_equal(a: &Element, b: &Element) -> (r: bool)
    ensures
        r == val_eq(a@, b@),
    decreases a,
{
    match (a, b) {
        (Element::Symbol(x), Element::Symbol(y)) => str_eq(x.as_str(), y.as_str()),
        (Element::Number(x), Element::Number(y)) => *x == *y,
        (Element::Str(x), Element::Str(y)) => str_eq(x.as_str(), y.as_str()),
        (Element::Character(x), Element::Character(y)) => *x == *y,
        (Element::Boolean(x), Element::Boolean(y)) => *x == *y,
        (Element::ParseError(x), Element::ParseError(y)) => str_eq(x.as_str(), y.as_str()),
        (Element::EvalError(x), Element::EvalError(y)) => str_eq(x.as_str(), y.as_str()),
        (Element::List(x), Element::List(y)) => seq_val_equal(x, y),
        (Element::Vector(x), Element::Vector(y)) => seq_val_equal(x, y),
        (Element::Function(x), Element::Function(y)) => {
            let params_ok = params_equal(&x.bindings, &y.bindings);
            params_ok && x.is_macro == y.is_macro && val_equal(&x.f, &y.f)
        },
        (Element::FuncPrimitive(x), Element::FuncPrimitive(y)) => x.tag == y.tag,
        (Element::Nil, Element::Nil) => true,
        _ => false,
    }
}

/// Pointwise language-level equality of two element sequences.
fn seq_val_equal(x: &Vec<Element>, y: &Vec<Element>) -> (r: bool)
    ensures
        r == seq_val_eq(ev_seq(x@), ev_seq(y@)),
    decreases x,
{
    proof {
        lemma_ev_seq(x@);
        lemma_ev_seq(y@);
        lemma_seq_val_eq(ev_seq(x@), ev_seq(y@));
    }
    if x.len() != y.len() {
        return false;
    }
    let mut i: usize = 0;
    while i < x.len()
        invariant
            x@.len() == y@.len(),
            i <= x@.len(),
            forall|j: int| 0 <= j < i ==> val_eq(ev(#[trigger] x@[j]), ev(y@[j])),
        decreases x@.len() - i,
    {
        proof {
            assert(decreases_to!(x => x@[i as int]));
        }
        if !val_equal(&x[i], &y[i]) {
            proof {
                lemma_ev_seq(x@);
                lemma_ev_seq(y@);
                lemma_seq_val_eq(ev_seq(x@), ev_seq(y@));
                assert(ev_seq(x@)[i as int] == ev(x@[i as int]));
                assert(ev_seq(y@)[i as int] == ev(y@[i as int]));
                assert(!val_eq(ev_seq(x@)[i as int], ev_seq(y@)[i as int]));
            }
            return false;
        }
        i = i + 1;
    }
    proof {
        lemma_ev_seq(x@);
        lemma_ev_seq(y@);
        lemma_seq_val_eq(ev_seq(x@), ev_seq(y@));
        assert forall|j: int| 0 <= j < x@.len() implies val_eq(
            ev_seq(x@)[j],
            ev_seq(y@)[j],
        ) by {
            assert(val_eq(ev(x@[j]), ev(y@[j])));
        }
    }
    true
}

/// Whether two parameter lists bind the same names the same way.
fn params_equal(x: &Vec<crate::functypes::ArgBinding>, y: &Vec<crate::functypes::ArgBinding>) -> (r:
    bool)
    ensures
        r == (x@.map_values(|a: crate::functypes::ArgBinding| a@) == y@.map_values(
            |a: crate::functypes::ArgBinding| a@,
        )),
{
    let ghost xm = x@.map_values(|a: crate::functypes::ArgBinding| a@);
    let ghost ym = y@.map_values(|a: crate::functypes::ArgBinding| a@);
    if x.len() != y.len() {
        proof {
            assert(xm.len() != ym.len());
        }
        return false;
    }
    let mut i: usize = 0;
    while i < x.len()
        invariant
            x@.len() == y@.len(),
            xm == x@.map_values(|a: crate::functypes::ArgBinding| a@),
            ym == y@.map_values(|a: crate::functypes::ArgBinding| a@),
            i <= x@.len(),
            forall|j: int| 0 <= j < i ==> xm[j] == ym[j],
        decreases x@.len() - i,
    {
        let same = match (&x[i], &y[i]) {
            (
                crate::functypes::ArgBinding::Variable(a),
                crate::functypes::ArgBinding::Variable(b),
            ) => str_eq(a.as_str(), b.as_str()),
            (
                crate::functypes::ArgBinding::Variadic(a),
                crate::functypes::ArgBinding::Variadic(b),
            ) => str_eq(a.as_str(), b.as_str()),
            _ => false,
        };
        if !same {
            proof {
                assert(xm[i as int] != ym[i as int]);
            }
            return false;
        }
        i = i + 1;
    }
    proof {
        assert(xm =~= ym);
    }
    true
}

/// The numbers inside the argument list, or `None` if some argument is not a
/// number.
fn unwrap_to_nums(list: &[Element]) -> (r: Option<Vec<i64>>)
    ensures
        match r {
            Some(v) => nums_of(ev_seq(list@)) == Some(v@),
            None => nums_of(ev_seq(list@)) is None,
        },
{
    proof {
        lemma_ev_seq(list@);
    }
    let mut out: Vec<i64> = Vec::new();
    let mut i: usize = 0;
    while i < list.len()
        invariant
            i <= list@.len(),
            out@.len() == i,
            forall|j: int| 0 <= j < i ==> ev(#[trigger] list@[j]) == Val::Number(out@[j]),
        decreases list@.len() - i,
    {
        match &list[i] {
            Element::Number(n) => {
                out.push(*n);
            },
            _ => {
                proof {
                    lemma_ev_seq(list@);
                    lemma_nums_of(ev_seq(list@));
                    assert(!(ev_seq(list@)[i as int] is Number));
                }
                return None;
            },
        }
        i = i + 1;
    }
    proof {
        lemma_ev_seq(list@);
        assert forall|j: int| 0 <= j < list@.len() implies ev_seq(list@)[j] == Val::Number(
            out@[j],
        ) by {
            assert(ev(list@[j]) == Val::Number(out@[j]));
        }
        lemma_nums_of_build(ev_seq(list@), out@);
    }
    Some(out)
}

/// The error value `<text>` as an element.
pub(crate) fn err(text: &str) -> (r: Element)
    ensures
        r@ == Val::EvalError(text@),
{
    Element::EvalError(String::from_str(text))
}

/// The error value `<prefix><n>)` as an element, for arity messages.
pub(crate) fn arity_err(prefix: &str, n: usize) -> (r: Element)
    ensures
        r@ == Val::EvalError(prefix@.add(crate::strutil::dec_digits(n as nat).push(')'))),
{
    let mut m = String::from_str(prefix);
    append_u64(&mut m, n as u64);
    push_char(&mut m, ')');
    proof {
        assert(m@ =~= prefix@.add(crate::strutil::dec_digits(n as nat).push(')')));
    }
    Element::EvalError(m)
}

/// The wrapping sum of the arguments; zero arguments give `0`.
pub fn add(list: &[Element]) -> (r: Element)
    ensures
        r@ == spec_add(ev_seq(list@)),
{
    let vals = unwrap_to_nums(list);
    match vals {
        Some(is) => {
            let mut sum: i64 = 0;
            let mut i: usize = 0;
            while i < is.len()
                invariant
                    i <= is@.len(),
                    sum == wrap_sum(is@.subrange(0, i as int)),
                decreases is@.len() - i,
            {
                proof {
                    assert(is@.subrange(0, i + 1).drop_last() =~= is@.subrange(0, i as int));
                }
                sum = sum.wrapping_add(is[i]);
                i = i + 1;
            }
            proof {
                assert(is@.subrange(0, is@.len() as int) =~= is@);
            }
            Element::Number(sum)
        },
        None => err("+: invalid value"),
    }
}

/// Subtraction: one argument is negated; several are folded left to right;
/// none is an arity error.
pub fn sub(list: &[Element]) -> (r: Element)
    ensures
        r@ == spec_sub(ev_seq(list@)),
{
    let vals = unwrap_to_nums(list);
    match vals {
        Some(is) => {
            if is.len() == 0 {
                err("-: Wrong number of args (0)")
            } else if is.len() == 1 {
                Element::Number((0i64).wrapping_sub(is[0]))
            } else {
                let mut acc: i64 = is[0];
                let mut i: usize = 1;
                while i < is.len()
                    invariant
                        1 <= i <= is@.len(),
                        acc == wrap_sub_fold(is@[0], is@.subrange(1, i as int)),
                    decreases is@.len() - i,
                {
                    proof {
                        assert(is@.subrange(1, i + 1) =~= is@.subrange(1, i as int).push(
                            is@[i as int],
                        ));
                        lemma_wrap_sub_fold_push(is@[0], is@.subrange(1, i as int), is@[i as int]);
                    }
                    acc = acc.wrapping_sub(is[i]);
                    i = i + 1;
                }
                proof {
                    assert(is@.subrange(1, is@.len() as int) =~= is@.drop_first());
                }
                Element::Number(acc)
            }
        },
        None => err("-: invalid value"),
    }
}

/// The wrapping product of the arguments; zero arguments give `1`.
pub fn mul(list: &[Element]) -> (r: Element)
    ensures
        r@ == spec_mul(ev_seq(list@)),
{
    let vals = unwrap_to_nums(list);
    match vals {
        Some(is) => {
            let mut acc: i64 = 1;
            let mut i: usize = 0;
            while i < is.len()
                invariant
                    i <= is@.len(),
                    acc == wrap_mul_fold(1, is@.subrange(0, i as int)),
                decreases is@.len() - i,
            {
                proof {
                    assert(is@.subrange(0, i + 1) =~= is@.subrange(0, i as int).push(
                        is@[i as int],
                    ));
                    lemma_wrap_mul_fold_push(1, is@.subrange(0, i as int), is@[i as int]);
                }
                acc = acc.wrapping_mul(is[i]);
                i = i + 1;
            }
            proof {
                assert(is@.subrange(0, is@.len() as int) =~= is@);
            }
            Element::Number(acc)
        },
        None => err("*: invalid value"),
    }
}

/// Truncated division of two machine integers, wrapping on the one
/// overflowing case.
fn div_step(a: i64, b: i64) -> (r: i64)
    requires
        b != 0,
    ensures
        r == trunc_div_i64(a, b),
{
    match a.checked_div(b) {
        Some(q) => q,
        None => i64::MIN,
    }
}

/// Division: one argument gives its truncated reciprocal; several fold left
/// to right; none is an arity error; a zero divisor anywhere is an error.
pub fn div(list: &[Element]) -> (r: Element)
    ensures
        r@ == spec_div(ev_seq(list@)),
{
    let vals = unwrap_to_nums(list);
    match vals {
        Some(is) => {
            if is.len() == 0 {
                err("/: Wrong number of args (0)")
            } else if is.len() == 1 {
                if is[0] == 0 {
                    err("/: Divide by zero")
                } else {
                    Element::Number(div_step(1, is[0]))
                }
            } else {
                let mut i: usize = 1;
                while i < is.len()
                    invariant
                        1 <= i <= is@.len(),
                        2 <= is@.len(),
                        nums_of(ev_seq(list@)) == Some(is@),
                        forall|j: int| 1 <= j < i ==> is@[j] != 0,
                    decreases is@.len() - i,
                {
                    if is[i] == 0 {
                        proof {
                            assert(is@.drop_first()[i - 1] == is@[i as int]);
                            assert(has_zero(is@.drop_first()));
                        }
                        return err("/: Divide by zero");
                    }
                    i = i + 1;
                }
                proof {
                    assert forall|j: int| 0 <= j < is@.drop_first().len() implies is@.drop_first()[j]
                        != 0 by {
                        assert(is@.drop_first()[j] == is@[j + 1]);
                    }
                    assert(!has_zero(is@.drop_first()));
                }
                let mut acc: i64 = is[0];
                let mut k: usize = 1;
                while k < is.len()
                    invariant
                        1 <= k <= is@.len(),
                        forall|j: int| 1 <= j < is@.len() ==> is@[j] != 0,
                        acc == div_fold(is@[0], is@.subrange(1, k as int)),
                    decreases is@.len() - k,
                {
                    proof {
                        assert(is@.subrange(1, k + 1) =~= is@.subrange(1, k as int).push(
                            is@[k as int],
                        ));
                        lemma_div_fold_push(is@[0], is@.subrange(1, k as int), is@[k as int]);
                    }
                    acc = div_step(acc, is[k]);
                    k = k + 1;
                }
                proof {
                    assert(is@.subrange(1, is@.len() as int) =~= is@.drop_first());
                }
                Element::Number(acc)
            }
        },
        None => err("/: invalid value"),
    }
}

/// The truncated remainder of exactly two numbers.
pub fn modfn(list: &[Element]) -> (r: Element)
    ensures
        r@ == spec_mod(ev_seq(list@)),
{
    let vals = unwrap_to_nums(list);
    match vals {
        Some(is) => {
            if is.len() != 2 {
                arity_err("%: Wrong number of args (", is.len())
            } else if is[1] == 0 {
                err("%: Divide by zero")
            } else {
                let r = match is[0].checked_rem(is[1]) {
                    Some(m) => m,
                    None => 0,
                };
                proof {
                    assert(r == trunc_rem_i64(is@[0], is@[1]));
                }
                Element::Number(r)
            }
        },
        None => err("%: invalid value"),
    }
}

/// Whether every argument equals the first, under language-level equality.
pub fn equal(list: &[Element]) -> (r: Element)
    ensures
        r@ == spec_equal(ev_seq(list@)),
{
    proof {
        lemma_ev_seq(list@);
    }
    let n = list.len();
    if n == 0 {
        return err("=: wrong number of args (0) passed");
    }
    if n == 1 {
        return Element::Boolean(true);
    }
    let mut i: usize = 1;
    while i < n
        invariant
            n == list@.len(),
            1 <= i <= n,
            forall|j: int| 1 <= j < i ==> val_eq(ev(#[trigger] list@[j]), ev(list@[0])),
        decreases n - i,
    {
        if !val_equal(&list[i], &list[0]) {
            proof {
                lemma_ev_seq(list@);
                assert(ev_seq(list@)[i as int] == ev(list@[i as int]));
                assert(ev_seq(list@)[0] == ev(list@[0]));
                assert(!val_eq(ev_seq(list@)[i as int], ev_seq(list@)[0]));
            }
            return Element::Boolean(false);
        }
        i = i + 1;
    }
    proof {
        lemma_ev_seq(list@);
        assert forall|j: int| 1 <= j < list@.len() implies val_eq(
            ev_seq(list@)[j],
            ev_seq(list@)[0],
        ) by {
            assert(val_eq(ev(list@[j]), ev(list@[0])));
        }
    }
    Element::Boolean(true)
}

/// The flattened concatenation of lists, vectors and strings (a string
/// contributes its characters) as a list.
pub fn concat(more: &[Element]) -> (r: Element)
    ensures
        r@ == spec_concat(ev_seq(more@)),
{
    proof {
        lemma_ev_seq(more@);
    }
    let mut coll: Vec<Element> = Vec::new();
    let ghost mut segs: Seq<Seq<Val>> = Seq::empty();
    let mut i: usize = 0;
    while i < more.len()
        invariant
            i <= more@.len(),
            segs.len() == i,
            forall|j: int| 0 <= j < i ==> seg_of(ev(#[trigger] more@[j])) == Some(segs[j]),
            ev_seq(coll@) == crate::semantics::flat(segs),
        decreases more@.len() - i,
    {
        let ghost seg: Seq<Val> = match seg_of(ev(more@[i as int])) {
            Some(s) => s,
            None => Seq::empty(),
        };
        match &more[i] {
            Element::List(s) => {
                append_elems(&mut coll, s);
            },
            Element::Vector(s) => {
                append_elems(&mut coll, s);
            },
            Element::Str(s) => {
                append_chars(&mut coll, s);
            },
            _ => {
                proof {
                    lemma_ev_seq(more@);
                    lemma_concat_segs(ev_seq(more@));
                    assert(seg_of(ev_seq(more@)[i as int]) is None);
                }
                return err("not a concatable collection type");
            },
        }
        proof {
            lemma_flat_push(segs, seg);
            segs = segs.push(seg);
        }
        i = i + 1;
    }
    proof {
        lemma_ev_seq(more@);
        assert forall|j: int| 0 <= j < more@.len() implies seg_of(ev_seq(more@)[j]) == Some(
            segs[j],
        ) by {
            assert(seg_of(ev(more@[j])) == Some(segs[j]));
        }
        lemma_concat_segs_build(ev_seq(more@), segs);
    }
    Element::List(coll)
}

/// Appends copies of the elements of `src` to `out`.
fn append_elems(out: &mut Vec<Element>, src: &Vec<Element>)
    ensures
        ev_seq(final(out)@) == ev_seq(old(out)@).add(ev_seq(src@)),
{
    proof {
        lemma_ev_seq(old(out)@);
        lemma_ev_seq(src@);
    }
    let mut i: usize = 0;
    while i < src.len()
        invariant
            i <= src@.len(),
            out@.len() == old(out)@.len() + i,
            forall|j: int| 0 <= j < old(out)@.len() ==> ev(#[trigger] out@[j]) == ev(old(out)@[j]),
            forall|j: int|
                0 <= j < i ==> ev(#[trigger] out@[old(out)@.len() + j]) == ev(src@[j]),
        decreases src@.len() - i,
    {
        proof {
            assert(decreases_to!(src => src@[i as int]));
        }
        let e = src[i].dup();
        out.push(e);
        i = i + 1;
    }
    proof {
        lemma_ev_seq(out@);
        lemma_ev_seq(old(out)@);
        lemma_ev_seq(src@);
        let ghost base = old(out)@.len() as int;
        assert forall|j: int| 0 <= j < out@.len() implies ev_seq(out@)[j] == ev_seq(
            old(out)@,
        ).add(ev_seq(src@))[j] by {
            if j < base {
                assert(ev(out@[j]) == ev(old(out)@[j]));
            } else {
                assert(ev(out@[base + (j - base)]) == ev(src@[j - base]));
            }
        }
        assert(ev_seq(out@) =~= ev_seq(old(out)@).add(ev_seq(src@)));
    }
}

/// Appends the characters of `src`, as character values, to `out`.
fn append_chars(out: &mut Vec<Element>, src: &String)
    ensures
        ev_seq(final(out)@) == ev_seq(old(out)@).add(
            src@.map_values(|c: char| crate::semantics::char_val(c)),
        ),
{
    proof {
        lemma_ev_seq(old(out)@);
    }
    let s = src.as_str();
    let n = s.unicode_len();
    let mut i: usize = 0;
    while i < n
        invariant
            n == src@.len(),
            s@ == src@,
            i <= n,
            out@.len() == old(out)@.len() + i,
            forall|j: int| 0 <= j < old(out)@.len() ==> ev(#[trigger] out@[j]) == ev(old(out)@[j]),
            forall|j: int|
                0 <= j < i ==> ev(#[trigger] out@[old(out)@.len() + j]) == Val::Character(
                    src@[j],
                ),
        decreases n - i,
    {
        let c = s.get_char(i);
        out.push(Element::Character(c));
        i = i + 1;
    }
    proof {
        lemma_ev_seq(out@);
        lemma_ev_seq(old(out)@);
        let ghost base = old(out)@.len() as int;
        let ghost chars = src@.map_values(|c: char| crate::semantics::char_val(c));
        assert(chars.len() == src@.len());
        assert forall|j: int| 0 <= j < out@.len() implies ev_seq(out@)[j] == ev_seq(
            old(out)@,
        ).add(chars)[j] by {
            if j < base {
                assert(ev(out@[j]) == ev(old(out)@[j]));
            } else {
                assert(ev(out@[base + (j - base)]) == Val::Character(src@[j - base]));
                assert(chars[j - base] == Val::Character(src@[j - base]));
                assert(ev_seq(old(out)@).add(chars)[j] == chars[j - base]);
                assert(ev_seq(out@)[j] == ev(out@[j]));
            }
        }
        assert(ev_seq(out@) =~= ev_seq(old(out)@).add(chars));
    }
}

/// The built-in `if` applied to already-evaluated values: picks the second
/// or third argument by the boolean first argument.
pub fn if_fn(list: &[Element]) -> (r: Element)
    ensures
        r@ == spec_if_value(ev_seq(list@)),
{
    proof {
        lemma_ev_seq(list@);
    }
    let list_len = list.len();
    if list_len > 3 || list_len < 2 {
        return arity_err("if: wrong number of args (", list_len);
    }
    match &list[0] {
        Element::Boolean(b) => {
            if *b {
                list[1].dup()
            } else if list_len == 3 {
                list[2].dup()
            } else {
                Element::Nil
            }
        },
        _ => err("if: first element must be boolean"),
    }
}

} // verus!

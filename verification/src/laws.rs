//! Laws of the evaluator, stated and proved once and for all inputs.

use vstd::prelude::*;

use crate::semantics::{
    env_contains, env_get, env_set_root, frame_contains, frame_get, frame_insert, spec_eval_elem,
    EnvV, FrameV, Val,
};
use crate::tokenizer::{spec_firstpass, spec_structure, spec_tokenize};

verus! {

/// Literals are self-evaluating: for every number, string, boolean, and
/// `Nil` (and also characters, closures and built-in values), evaluation
/// returns the value itself and leaves the environment untouched.
pub proof fn lemma_literal_self_evaluating(env: EnvV, v: Val, fuel: nat)
    requires
        fuel >= 1,
        v is Number || v is Str || v is Boolean || v is Nil || v is Character || v is Function
            || v is FuncPrimitive,
    ensures
        spec_eval_elem(env, v, fuel) == (env, v),
{
}

/// A parse error value never reaches the evaluator's logic: evaluating it
/// returns it untouched.
pub proof fn lemma_parse_error_propagates(env: EnvV, msg: Seq<char>, fuel: nat)
    requires
        fuel >= 1,
    ensures
        spec_eval_elem(env, Val::ParseError(msg), fuel) == (env, Val::ParseError(msg)),
{
}

/// Malformed input yields a `ParseError` from the reader itself: an
/// unterminated string ends the first pass, and a structure error (such as
/// an unmatched closing bracket) is returned before type inference runs.
pub proof fn lemma_malformed_input_is_parse_error(s: Seq<char>)
    ensures
        spec_firstpass(s) is None ==> spec_tokenize(s) == Val::ParseError(
            "unbalanced string quotes"@,
        ),
        (spec_firstpass(s) matches Some(toks) && spec_structure(toks) is ParseError)
            ==> spec_tokenize(s) == spec_structure(spec_firstpass(s).unwrap()),
{
}

/// Inserting a name into a frame binds it there, whatever it held before.
pub proof fn lemma_frame_insert_get(f: FrameV, k: Seq<char>, v: Val)
    ensures
        frame_contains(frame_insert(f, k, v), k),
        frame_get(frame_insert(f, k, v), k) == v,
    decreases f.len(),
{
    if f.len() == 0 {
        assert(frame_insert(f, k, v)[0] == (k, v));
    } else if f[0].0 == k {
        assert(frame_insert(f, k, v)[0] == (k, v));
    } else {
        lemma_frame_insert_get(f.drop_first(), k, v);
        let g = frame_insert(f.drop_first(), k, v);
        let w = choose|i: int| 0 <= i < g.len() && g[i].0 == k;
        assert(frame_insert(f, k, v)[w + 1] == g[w]);
        assert(frame_insert(f, k, v).drop_first() =~= g);
    }
}

/// Global persistence: at the top level of a session (where the chain is the
/// root frame alone), evaluating `(def name lit)` answers `Nil`, and a later
/// independent evaluation of `name` against the resulting environment
/// answers exactly `lit`.
pub proof fn lemma_def_persists(env: EnvV, name: Seq<char>, lit: Val, fuel: nat)
    requires
        env.len() == 1,
        fuel >= 4,
        lit is Number || lit is Str || lit is Boolean || lit is Nil,
    ensures
        ({
            let (env2, r) = spec_eval_elem(
                env,
                Val::List(seq![Val::Symbol("def"@), Val::Symbol(name), lit]),
                fuel,
            );
            r == Val::Nil && env2 == env_set_root(env, name, lit) && spec_eval_elem(
                env2,
                Val::Symbol(name),
                fuel,
            ).1 == lit
        }),
{
    let items = seq![Val::Symbol("def"@), Val::Symbol(name), lit];
    let args = items.drop_first();
    assert(args =~= seq![Val::Symbol(name), lit]);
    assert(items[0] == Val::Symbol("def"@));
    reveal_strlit("def");
    reveal_strlit("if");
    assert("def"@ != "if"@) by {
        assert("def"@[0] == 'd' && "if"@[0] == 'i');
    }
    lemma_literal_self_evaluating(env, lit, (fuel - 3) as nat);
    assert(spec_eval_elem(env, Val::List(items), fuel) == crate::semantics::spec_eval_form(
        env,
        items,
        (fuel - 1) as nat,
    ));
    assert(crate::semantics::spec_eval_form(env, items, (fuel - 1) as nat)
        == crate::semantics::spec_def(env, args, (fuel - 2) as nat));
    assert(crate::semantics::spec_def(env, args, (fuel - 2) as nat) == (
        env_set_root(env, name, lit),
        Val::Nil,
    ));
    let env2 = env_set_root(env, name, lit);
    lemma_frame_insert_get(env[0], name, lit);
    assert(env2[0] == frame_insert(env[0], name, lit));
    assert(env_contains(env2, name));
    assert(env_get(env2, name) == lit);
}

} // verus!
//! The mathematical model of the language: spec-level values, environments,
//! and the interpreter that the executable evaluator is proved against.

use vstd::prelude::*;

use crate::functypes::NativeOp;

verus! {

/// Spec-level parameter of a user-defined function: either a plain named
/// parameter or a (reserved, never constructed by the evaluator) rest
/// parameter.
pub enum Param {
    Variable(Seq<char>),
    Variadic(Seq<char>),
}

/// Spec-level model of a built-in operation value: which operation it is and
/// the tag that gives the value its identity.
pub struct PrimVal {
    pub op: NativeOp,
    pub tag: u64,
}

/// Spec-level model of a user-defined function: parameter list, body, and the
/// reserved macro flag.
pub struct FnVal {
    pub params: Seq<Param>,
    pub body: Box<Val>,
    pub is_macro: bool,
}

/// The mathematical model of a runtime value.  Data and code share this one
/// representation: a list is both a sequence of values and, positionally, a
/// call form.
pub enum Val {
    Symbol(Seq<char>),
    Number(i64),
    Str(Seq<char>),
    Character(char),
    Boolean(bool),
    ParseError(Seq<char>),
    EvalError(Seq<char>),
    List(Seq<Val>),
    Vector(Seq<Val>),
    Function(FnVal),
    FuncPrimitive(PrimVal),
    Nil,
}

/// One scope frame: an association list from names to values.  The first
/// entry with a given name is its binding; `frame_insert` keeps names unique.
pub type FrameV = Seq<(Seq<char>, Val)>;

/// An environment: scope frames ordered innermost first.  The last frame is
/// the root frame, created at startup and never removed.
pub type EnvV = Seq<FrameV>;

/// Whether a frame binds the given name.
pub open spec fn frame_contains(f: FrameV, k: Seq<char>) -> bool {
    exists|i: int| 0 <= i < f.len() && f[i].0 == k
}

/// The value a frame binds the name to (first entry wins).
pub open spec fn frame_get(f: FrameV, k: Seq<char>) -> Val
    decreases f.len(),
{
    if f.len() == 0 {
        Val::Nil
    } else if f[0].0 == k {
        f[0].1
    } else {
        frame_get(f.drop_first(), k)
    }
}

/// The frame with the name bound to the value: the first entry with that name
/// is replaced in place, or a new entry is appended at the end.
pub open spec fn frame_insert(f: FrameV, k: Seq<char>, v: Val) -> FrameV
    decreases f.len(),
{
    if f.len() == 0 {
        seq![(k, v)]
    } else if f[0].0 == k {
        seq![(k, v)].add(f.drop_first())
    } else {
        seq![f[0]].add(frame_insert(f.drop_first(), k, v))
    }
}

/// Whether any frame of the environment binds the name.
pub open spec fn env_contains(env: EnvV, k: Seq<char>) -> bool {
    exists|i: int| 0 <= i < env.len() && frame_contains(env[i], k)
}

/// Innermost-first lookup; an absent name is the "Not in scope" error value.
pub open spec fn env_get(env: EnvV, k: Seq<char>) -> Val
    decreases env.len(),
{
    if env.len() == 0 {
        Val::EvalError("Not in scope"@)
    } else if frame_contains(env[0], k) {
        frame_get(env[0], k)
    } else {
        env_get(env.drop_first(), k)
    }
}

/// Binds the name in the innermost frame.
pub open spec fn env_set_local(env: EnvV, k: Seq<char>, v: Val) -> EnvV {
    env.update(0, frame_insert(env[0], k, v))
}

/// Binds the name in the root frame, whatever the current depth: this is how
/// definitions escape to global scope.
pub open spec fn env_set_root(env: EnvV, k: Seq<char>, v: Val) -> EnvV {
    env.update(env.len() - 1, frame_insert(env[env.len() - 1], k, v))
}

/// Language-level equality: structural on data, but a built-in operation
/// value is identified by its tag alone.
pub open spec fn val_eq(a: Val, b: Val) -> bool
    decreases a,
{
    match (a, b) {
        (Val::Symbol(x), Val::Symbol(y)) => x == y,
        (Val::Number(x), Val::Number(y)) => x == y,
        (Val::Str(x), Val::Str(y)) => x == y,
        (Val::Character(x), Val::Character(y)) => x == y,
        (Val::Boolean(x), Val::Boolean(y)) => x == y,
        (Val::ParseError(x), Val::ParseError(y)) => x == y,
        (Val::EvalError(x), Val::EvalError(y)) => x == y,
        (Val::List(x), Val::List(y)) => seq_val_eq(x, y),
        (Val::Vector(x), Val::Vector(y)) => seq_val_eq(x, y),
        (Val::Function(x), Val::Function(y)) => x.params == y.params && x.is_macro == y.is_macro
            && val_eq(*x.body, *y.body),
        (Val::FuncPrimitive(x), Val::FuncPrimitive(y)) => x.tag == y.tag,
        (Val::Nil, Val::Nil) => true,
        _ => false,
    }
}

/// Pointwise language-level equality of two sequences of values.
pub open spec fn seq_val_eq(a: Seq<Val>, b: Seq<Val>) -> bool
    decreases a,
{
    if a.len() != b.len() {
        false
    } else if a.len() == 0 {
        true
    } else {
        val_eq(a[0], b[0]) && seq_val_eq(
            a.subrange(1, a.len() as int),
            b.subrange(1, b.len() as int),
        )
    }
}

/// A frame's first entry for a name decides `frame_get`.
pub proof fn lemma_frame_get_hit(f: FrameV, k: Seq<char>, i: int)
    requires
        0 <= i < f.len(),
        f[i].0 == k,
        forall|j: int| 0 <= j < i ==> f[j].0 != k,
    ensures
        frame_contains(f, k),
        frame_get(f, k) == f[i].1,
    decreases i,
{
    if i > 0 {
        lemma_frame_get_hit(f.drop_first(), k, i - 1);
    }
}

/// Inserting over a frame's first entry for the name replaces it in place.
pub proof fn lemma_frame_insert_hit(f: FrameV, k: Seq<char>, v: Val, i: int)
    requires
        0 <= i < f.len(),
        f[i].0 == k,
        forall|j: int| 0 <= j < i ==> f[j].0 != k,
    ensures
        frame_insert(f, k, v) == f.update(i, (k, v)),
    decreases i,
{
    if i == 0 {
        assert(frame_insert(f, k, v) =~= f.update(0, (k, v)));
    } else {
        lemma_frame_insert_hit(f.drop_first(), k, v, i - 1);
        assert(frame_insert(f, k, v) =~= f.update(i, (k, v)));
    }
}

/// Inserting a name a frame does not hold appends a new entry at the end.
pub proof fn lemma_frame_insert_miss(f: FrameV, k: Seq<char>, v: Val)
    requires
        forall|j: int| 0 <= j < f.len() ==> f[j].0 != k,
    ensures
        frame_insert(f, k, v) == f.push((k, v)),
    decreases f.len(),
{
    if f.len() > 0 {
        lemma_frame_insert_miss(f.drop_first(), k, v);
        assert(frame_insert(f, k, v) =~= f.push((k, v)));
    } else {
        assert(frame_insert(f, k, v) =~= f.push((k, v)));
    }
}

/// The innermost frame holding a name decides `env_get`.
pub proof fn lemma_env_get_hit(env: EnvV, k: Seq<char>, i: int)
    requires
        0 <= i < env.len(),
        frame_contains(env[i], k),
        forall|j: int| 0 <= j < i ==> !frame_contains(env[j], k),
    ensures
        env_contains(env, k),
        env_get(env, k) == frame_get(env[i], k),
    decreases i,
{
    if i > 0 {
        lemma_env_get_hit(env.drop_first(), k, i - 1);
    }
}

/// Looking up a name no frame holds gives the "Not in scope" error value.
pub proof fn lemma_env_get_miss(env: EnvV, k: Seq<char>)
    requires
        forall|j: int| 0 <= j < env.len() ==> !frame_contains(env[j], k),
    ensures
        !env_contains(env, k),
        env_get(env, k) == Val::EvalError("Not in scope"@),
    decreases env.len(),
{
    if env.len() > 0 {
        lemma_env_get_miss(env.drop_first(), k);
    }
}

/// The numbers inside the arguments, or `None` if some argument is not a
/// number.
pub open spec fn nums_of(args: Seq<Val>) -> Option<Seq<i64>>
    decreases args.len(),
{
    if args.len() == 0 {
        Some(Seq::empty())
    } else {
        match args[0] {
            Val::Number(n) => match nums_of(args.drop_first()) {
                Some(r) => Some(seq![n].add(r)),
                None => None,
            },
            _ => None,
        }
    }
}

/// Left-to-right wrapping sum.
pub open spec fn wrap_sum(s: Seq<i64>) -> i64
    decreases s.len(),
{
    if s.len() == 0 {
        0
    } else {
        vstd::wrapping::i64_specs::wrapping_add(wrap_sum(s.drop_last()), s.last())
    }
}

/// Left-to-right wrapping difference folded onto `acc`.
pub open spec fn wrap_sub_fold(acc: i64, s: Seq<i64>) -> i64
    decreases s.len(),
{
    if s.len() == 0 {
        acc
    } else {
        wrap_sub_fold(vstd::wrapping::i64_specs::wrapping_sub(acc, s[0]), s.drop_first())
    }
}

/// Left-to-right wrapping product folded onto `acc`.
pub open spec fn wrap_mul_fold(acc: i64, s: Seq<i64>) -> i64
    decreases s.len(),
{
    if s.len() == 0 {
        acc
    } else {
        wrap_mul_fold(vstd::wrapping::i64_specs::wrapping_mul(acc, s[0]), s.drop_first())
    }
}

/// Truncated (round-towards-zero) division, wrapping on the one overflowing
/// case (`i64::MIN / -1`), as machine division does.
pub open spec fn trunc_div_i64(a: i64, b: i64) -> i64 {
    let x = a as int;
    let d = b as int;
    let q = if x == 0 {
        0int
    } else if x > 0 && d > 0 {
        x / d
    } else if x < 0 && d < 0 {
        (x * -1) / (d * -1)
    } else if x < 0 {
        ((x * -1) / d) * -1
    } else {
        (x / (d * -1)) * -1
    };
    if q > i64::MAX as int {
        i64::MIN
    } else {
        q as i64
    }
}

/// Truncated remainder: the sign follows the dividend, as `%` does on
/// machine integers.
pub open spec fn trunc_rem_i64(a: i64, b: i64) -> i64 {
    let x = a as int;
    let d = b as int;
    let r = if x == 0 {
        0int
    } else if x > 0 && d > 0 {
        x % d
    } else if x < 0 && d < 0 {
        ((x * -1) % (d * -1)) * -1
    } else if x < 0 {
        ((x * -1) % d) * -1
    } else {
        x % (d * -1)
    };
    if a == i64::MIN && b == -1 {
        0
    } else {
        r as i64
    }
}

/// Truncated division folded left-to-right onto `acc`.
pub open spec fn div_fold(acc: i64, s: Seq<i64>) -> i64
    decreases s.len(),
{
    if s.len() == 0 {
        acc
    } else {
        div_fold(trunc_div_i64(acc, s[0]), s.drop_first())
    }
}

/// Whether some element of the sequence is zero.
pub open spec fn has_zero(s: Seq<i64>) -> bool {
    exists|i: int| 0 <= i < s.len() && s[i] == 0
}

/// What the `+` built-in returns: the wrapping sum of its numeric arguments
/// (`0` for none), or a type error.
pub open spec fn spec_add(args: Seq<Val>) -> Val {
    match nums_of(args) {
        Some(ns) => Val::Number(wrap_sum(ns)),
        None => Val::EvalError("+: invalid value"@),
    }
}

/// What the `-` built-in returns: an arity error for no arguments, the
/// wrapping negation of one argument, else the left fold of wrapping
/// subtraction, or a type error.
pub open spec fn spec_sub(args: Seq<Val>) -> Val {
    match nums_of(args) {
        Some(ns) => if ns.len() == 0 {
            Val::EvalError("-: Wrong number of args (0)"@)
        } else if ns.len() == 1 {
            Val::Number(vstd::wrapping::i64_specs::wrapping_sub(0, ns[0]))
        } else {
            Val::Number(wrap_sub_fold(ns[0], ns.drop_first()))
        },
        None => Val::EvalError("-: invalid value"@),
    }
}

/// What the `*` built-in returns: the wrapping product of its numeric
/// arguments (`1` for none), or a type error.
pub open spec fn spec_mul(args: Seq<Val>) -> Val {
    match nums_of(args) {
        Some(ns) => Val::Number(wrap_mul_fold(1, ns)),
        None => Val::EvalError("*: invalid value"@),
    }
}

/// What the `/` built-in returns: an arity error for no arguments, the
/// truncated reciprocal of one argument, else the left fold of truncated
/// division; a zero divisor anywhere is a divide-by-zero error.
pub open spec fn spec_div(args: Seq<Val>) -> Val {
    match nums_of(args) {
        Some(ns) => if ns.len() == 0 {
            Val::EvalError("/: Wrong number of args (0)"@)
        } else if ns.len() == 1 {
            if ns[0] == 0 {
                Val::EvalError("/: Divide by zero"@)
            } else {
                Val::Number(trunc_div_i64(1, ns[0]))
            }
        } else {
            if has_zero(ns.drop_first()) {
                Val::EvalError("/: Divide by zero"@)
            } else {
                Val::Number(div_fold(ns[0], ns.drop_first()))
            }
        },
        None => Val::EvalError("/: invalid value"@),
    }
}

/// What the `%` built-in returns: the truncated remainder of exactly two
/// numbers; anything else is an arity, type, or divide-by-zero error.
pub open spec fn spec_mod(args: Seq<Val>) -> Val {
    match nums_of(args) {
        Some(ns) => if ns.len() != 2 {
            Val::EvalError(
                "%: Wrong number of args ("@.add(
                    crate::strutil::dec_digits(ns.len()).push(')'),
                ),
            )
        } else if ns[1] == 0 {
            Val::EvalError("%: Divide by zero"@)
        } else {
            Val::Number(trunc_rem_i64(ns[0], ns[1]))
        },
        None => Val::EvalError("%: invalid value"@),
    }
}

/// What the `=` built-in returns: whether every argument equals the first,
/// under language-level equality; no arguments is an arity error.
pub open spec fn spec_equal(args: Seq<Val>) -> Val {
    if args.len() == 0 {
        Val::EvalError("=: wrong number of args (0) passed"@)
    } else if args.len() == 1 {
        Val::Boolean(true)
    } else {
        Val::Boolean(forall|i: int| 1 <= i < args.len() ==> val_eq(args[i], args[0]))
    }
}

/// The elements each `concat` argument contributes: a list or vector gives
/// its elements, a string gives its characters; anything else is refused.
pub open spec fn concat_segs(args: Seq<Val>) -> Option<Seq<Seq<Val>>>
    decreases args.len(),
{
    if args.len() == 0 {
        Some(Seq::empty())
    } else {
        match seg_of(args[0]) {
            Some(s) => match concat_segs(args.drop_first()) {
                Some(r) => Some(seq![s].add(r)),
                None => None,
            },
            None => None,
        }
    }
}

/// The character value for one character.
pub open spec fn char_val(c: char) -> Val {
    Val::Character(c)
}

/// What one `concat` argument contributes, if anything.
pub open spec fn seg_of(v: Val) -> Option<Seq<Val>> {
    match v {
        Val::List(l) => Some(l),
        Val::Vector(vs) => Some(vs),
        Val::Str(s) => Some(s.map_values(|c: char| char_val(c))),
        _ => None,
    }
}

/// The concatenation of a sequence of segments.
pub open spec fn flat(ss: Seq<Seq<Val>>) -> Seq<Val>
    decreases ss.len(),
{
    if ss.len() == 0 {
        Seq::empty()
    } else {
        ss[0].add(flat(ss.drop_first()))
    }
}

/// What the `concat` built-in returns: the flattened concatenation of its
/// arguments as a list, or a type error.
pub open spec fn spec_concat(args: Seq<Val>) -> Val {
    match concat_segs(args) {
        Some(ss) => Val::List(flat(ss)),
        None => Val::EvalError("not a concatable collection type"@),
    }
}

/// What the built-in `if` value (applied to already evaluated arguments)
/// returns: the chosen branch value, `Nil` for a false condition without an
/// else branch, or an error.
pub open spec fn spec_if_value(args: Seq<Val>) -> Val {
    if args.len() < 2 || args.len() > 3 {
        Val::EvalError(
            "if: wrong number of args ("@.add(crate::strutil::dec_digits(args.len()).push(')')),
        )
    } else if args[0] == Val::Boolean(true) {
        args[1]
    } else if args[0] == Val::Boolean(false) && args.len() == 3 {
        args[2]
    } else if args[0] == Val::Boolean(false) {
        Val::Nil
    } else {
        Val::EvalError("if: first element must be boolean"@)
    }
}

/// `nums_of` succeeds exactly on all-number sequences, giving the numbers
/// pointwise.
pub proof fn lemma_nums_of(args: Seq<Val>)
    ensures
        match nums_of(args) {
            Some(ns) => ns.len() == args.len() && forall|i: int|
                0 <= i < args.len() ==> args[i] == Val::Number(ns[i]),
            None => exists|i: int| 0 <= i < args.len() && !(args[i] is Number),
        },
    decreases args.len(),
{
    if args.len() > 0 {
        lemma_nums_of(args.drop_first());
        match args[0] {
            Val::Number(n) => {
                match nums_of(args.drop_first()) {
                    Some(ns) => {
                        let whole = seq![n].add(ns);
                        assert(nums_of(args) == Some(whole));
                        assert forall|i: int| 0 <= i < args.len() implies args[i] == Val::Number(
                            whole[i],
                        ) by {
                            if i > 0 {
                                assert(args.drop_first()[i - 1] == args[i]);
                                assert(args.drop_first()[i - 1] == Val::Number(ns[i - 1]));
                            }
                        }
                    },
                    None => {
                        let w = choose|i: int|
                            0 <= i < args.drop_first().len() && !(args.drop_first()[i] is Number);
                        assert(args[w + 1] == args.drop_first()[w]);
                        assert(!(args[w + 1] is Number));
                    },
                }
            },
            _ => {
                assert(!(args[0] is Number));
            },
        }
    }
}

/// Builds `nums_of` from a pointwise description.
pub proof fn lemma_nums_of_build(args: Seq<Val>, ns: Seq<i64>)
    requires
        ns.len() == args.len(),
        forall|i: int| 0 <= i < args.len() ==> args[i] == Val::Number(ns[i]),
    ensures
        nums_of(args) == Some(ns),
    decreases args.len(),
{
    if args.len() == 0 {
        assert(ns =~= Seq::<i64>::empty());
    } else {
        lemma_nums_of_build(args.drop_first(), ns.drop_first());
        assert(seq![ns[0]].add(ns.drop_first()) =~= ns);
    }
}

/// One more element at the back folds once more, for the wrapping
/// subtraction fold.
pub proof fn lemma_wrap_sub_fold_push(acc: i64, s: Seq<i64>, x: i64)
    ensures
        wrap_sub_fold(acc, s.push(x)) == vstd::wrapping::i64_specs::wrapping_sub(
            wrap_sub_fold(acc, s),
            x,
        ),
    decreases s.len(),
{
    reveal_with_fuel(wrap_sub_fold, 3);
    if s.len() == 0 {
        assert(s.push(x)[0] == x);
        assert(s.push(x).drop_first() =~= Seq::<i64>::empty());
    } else {
        assert(s.push(x)[0] == s[0]);
        assert(s.push(x).drop_first() =~= s.drop_first().push(x));
        lemma_wrap_sub_fold_push(
            vstd::wrapping::i64_specs::wrapping_sub(acc, s[0]),
            s.drop_first(),
            x,
        );
    }
}

/// One more element at the back folds once more, for the wrapping product
/// fold.
pub proof fn lemma_wrap_mul_fold_push(acc: i64, s: Seq<i64>, x: i64)
    ensures
        wrap_mul_fold(acc, s.push(x)) == vstd::wrapping::i64_specs::wrapping_mul(
            wrap_mul_fold(acc, s),
            x,
        ),
    decreases s.len(),
{
    reveal_with_fuel(wrap_mul_fold, 3);
    if s.len() == 0 {
        assert(s.push(x)[0] == x);
        assert(s.push(x).drop_first() =~= Seq::<i64>::empty());
    } else {
        assert(s.push(x)[0] == s[0]);
        assert(s.push(x).drop_first() =~= s.drop_first().push(x));
        lemma_wrap_mul_fold_push(
            vstd::wrapping::i64_specs::wrapping_mul(acc, s[0]),
            s.drop_first(),
            x,
        );
    }
}

/// One more element at the back folds once more, for the division fold.
pub proof fn lemma_div_fold_push(acc: i64, s: Seq<i64>, x: i64)
    ensures
        div_fold(acc, s.push(x)) == trunc_div_i64(div_fold(acc, s), x),
    decreases s.len(),
{
    reveal_with_fuel(div_fold, 3);
    if s.len() == 0 {
        assert(s.push(x)[0] == x);
        assert(s.push(x).drop_first() =~= Seq::<i64>::empty());
    } else {
        assert(s.push(x)[0] == s[0]);
        assert(s.push(x).drop_first() =~= s.drop_first().push(x));
        lemma_div_fold_push(trunc_div_i64(acc, s[0]), s.drop_first(), x);
    }
}

/// `concat_segs` succeeds exactly when every argument contributes, giving
/// the segments pointwise.
pub proof fn lemma_concat_segs(args: Seq<Val>)
    ensures
        match concat_segs(args) {
            Some(ss) => ss.len() == args.len() && forall|i: int|
                0 <= i < args.len() ==> seg_of(args[i]) == Some(ss[i]),
            None => exists|i: int| 0 <= i < args.len() && seg_of(args[i]) is None,
        },
    decreases args.len(),
{
    if args.len() > 0 {
        lemma_concat_segs(args.drop_first());
    }
}

/// Builds `concat_segs` from a pointwise description.
pub proof fn lemma_concat_segs_build(args: Seq<Val>, ss: Seq<Seq<Val>>)
    requires
        ss.len() == args.len(),
        forall|i: int| 0 <= i < args.len() ==> seg_of(args[i]) == Some(ss[i]),
    ensures
        concat_segs(args) == Some(ss),
    decreases args.len(),
{
    if args.len() == 0 {
        assert(ss =~= Seq::<Seq<Val>>::empty());
    } else {
        lemma_concat_segs_build(args.drop_first(), ss.drop_first());
        assert(seq![ss[0]].add(ss.drop_first()) =~= ss);
    }
}

/// One more segment at the back extends the flattened sequence at the back.
pub proof fn lemma_flat_push(ss: Seq<Seq<Val>>, s: Seq<Val>)
    ensures
        flat(ss.push(s)) == flat(ss).add(s),
    decreases ss.len(),
{
    reveal_with_fuel(flat, 3);
    if ss.len() == 0 {
        assert(ss.push(s)[0] == s);
        assert(ss.push(s).drop_first() =~= Seq::<Seq<Val>>::empty());
        assert(flat(ss.push(s)) =~= flat(ss).add(s));
    } else {
        assert(ss.push(s)[0] == ss[0]);
        assert(ss.push(s).drop_first() =~= ss.drop_first().push(s));
        lemma_flat_push(ss.drop_first(), s);
        assert(flat(ss.push(s)) =~= flat(ss).add(s));
    }
}

/// Sequence equality under `val_eq` is pointwise.
pub proof fn lemma_seq_val_eq(a: Seq<Val>, b: Seq<Val>)
    ensures
        seq_val_eq(a, b) <==> (a.len() == b.len() && forall|i: int|
            0 <= i < a.len() ==> val_eq(a[i], b[i])),
    decreases a.len(),
{
    if a.len() == b.len() && a.len() > 0 {
        lemma_seq_val_eq(a.drop_first(), b.drop_first());
        if seq_val_eq(a, b) {
            assert forall|i: int| 0 <= i < a.len() implies val_eq(a[i], b[i]) by {
                if i > 0 {
                    assert(val_eq(a.drop_first()[i - 1], b.drop_first()[i - 1]));
                    assert(a.drop_first()[i - 1] == a[i]);
                    assert(b.drop_first()[i - 1] == b[i]);
                }
            }
        } else {
            if val_eq(a[0], b[0]) {
                if forall|i: int| 0 <= i < a.len() ==> val_eq(a[i], b[i]) {
                    assert forall|i: int|
                        0 <= i < a.drop_first().len() implies val_eq(
                        a.drop_first()[i],
                        b.drop_first()[i],
                    ) by {
                        assert(a.drop_first()[i] == a[i + 1]);
                        assert(b.drop_first()[i] == b[i + 1]);
                        assert(val_eq(a[i + 1], b[i + 1]));
                    }
                    assert(false);
                }
            }
        }
    }
}

/// What a built-in operation returns for the given (already evaluated)
/// arguments.
pub open spec fn apply_native(op: NativeOp, args: Seq<Val>) -> Val {
    match op {
        NativeOp::Add => spec_add(args),
        NativeOp::Sub => spec_sub(args),
        NativeOp::Mul => spec_mul(args),
        NativeOp::Div => spec_div(args),
        NativeOp::Mod => spec_mod(args),
        NativeOp::Equal => spec_equal(args),
        NativeOp::Concat => spec_concat(args),
    }
}

/// The closure seeded as `inc`: one parameter `x`, body `(+ x 1)`.
pub open spec fn inc_closure() -> Val {
    Val::Function(
        FnVal {
            params: seq![Param::Variable("x"@)],
            body: Box::new(
                Val::List(seq![Val::Symbol("+"@), Val::Symbol("x"@), Val::Number(1)]),
            ),
            is_macro: false,
        },
    )
}

/// The closure seeded as `dec`: one parameter `x`, body `(- x 1)`.
pub open spec fn dec_closure() -> Val {
    Val::Function(
        FnVal {
            params: seq![Param::Variable("x"@)],
            body: Box::new(
                Val::List(seq![Val::Symbol("-"@), Val::Symbol("x"@), Val::Number(1)]),
            ),
            is_macro: false,
        },
    )
}

/// The root frame as seeded at startup: the seven built-in operations under
/// distinct tags, and the two convenience closures `inc` and `dec`.
pub open spec fn initial_frame() -> FrameV {
    seq![
        ("+"@, Val::FuncPrimitive(PrimVal { op: NativeOp::Add, tag: 0 })),
        ("-"@, Val::FuncPrimitive(PrimVal { op: NativeOp::Sub, tag: 1 })),
        ("*"@, Val::FuncPrimitive(PrimVal { op: NativeOp::Mul, tag: 2 })),
        ("/"@, Val::FuncPrimitive(PrimVal { op: NativeOp::Div, tag: 3 })),
        ("%"@, Val::FuncPrimitive(PrimVal { op: NativeOp::Mod, tag: 4 })),
        ("="@, Val::FuncPrimitive(PrimVal { op: NativeOp::Equal, tag: 5 })),
        ("concat"@, Val::FuncPrimitive(PrimVal { op: NativeOp::Concat, tag: 6 })),
        ("inc"@, inc_closure()),
        ("dec"@, dec_closure()),
    ]
}

/// The environment at startup: the root frame alone.
pub open spec fn initial_env() -> EnvV {
    seq![initial_frame()]
}

/// The error value returned when the evaluator's recursion budget runs out.
/// (Unbounded user recursion cannot run forever; it ends in this error.)
pub open spec fn depth_err() -> Val {
    Val::EvalError("Recursion depth exceeded"@)
}

/// Evaluates one value.  Lists are call forms, vector elements are evaluated
/// individually, symbols are looked up innermost-first, and every other value
/// evaluates to itself.  Returns the environment after evaluation (a `def`
/// anywhere updates the root frame) and the result.
pub open spec fn spec_eval_elem(env: EnvV, v: Val, fuel: nat) -> (EnvV, Val)
    decreases fuel,
{
    if fuel == 0 {
        (env, depth_err())
    } else {
        match v {
            Val::List(items) => spec_eval_form(env, items, (fuel - 1) as nat),
            Val::Vector(items) => {
                let (env1, r) = spec_eval_args(env, items, (fuel - 1) as nat);
                match r {
                    Some(vs) => (env1, Val::Vector(vs)),
                    None => (env1, depth_err()),
                }
            },
            Val::Symbol(s) => if env_contains(env, s) {
                (env, env_get(env, s))
            } else {
                (env, Val::EvalError("Symbol Not defined"@))
            },
            _ => (env, v),
        }
    }
}

/// Evaluates a sequence of values left to right, threading the environment.
/// `None` means the recursion budget ran out.
pub open spec fn spec_eval_args(env: EnvV, args: Seq<Val>, fuel: nat) -> (EnvV, Option<Seq<Val>>)
    decreases fuel,
{
    if fuel == 0 {
        (env, None)
    } else if args.len() == 0 {
        (env, Some(Seq::empty()))
    } else {
        let (env1, v) = spec_eval_elem(env, args[0], (fuel - 1) as nat);
        let (env2, r) = spec_eval_args(env1, args.drop_first(), (fuel - 1) as nat);
        match r {
            Some(vs) => (env2, Some(seq![v].add(vs))),
            None => (env2, None),
        }
    }
}

/// Evaluates a call form.  The empty form is self-quoting.  A special-form
/// head consumes the unevaluated tail; otherwise the head is resolved, the
/// arguments are each evaluated exactly once, and the callee is applied.
pub open spec fn spec_eval_form(env: EnvV, items: Seq<Val>, fuel: nat) -> (EnvV, Val)
    decreases fuel,
{
    if fuel == 0 {
        (env, depth_err())
    } else if items.len() == 0 {
        (env, Val::List(Seq::empty()))
    } else {
        let args = items.drop_first();
        match items[0] {
            Val::Symbol(s) => if s == "if"@ {
                spec_if(env, args, (fuel - 1) as nat)
            } else if s == "def"@ {
                spec_def(env, args, (fuel - 1) as nat)
            } else if s == "defn"@ {
                spec_defn(env, args)
            } else if s == "fn"@ {
                spec_fn_nobind(env, args)
            } else if s == "defmacro"@ {
                spec_defn(env, args)
            } else if env_contains(env, s) {
                let callee = env_get(env, s);
                let (env1, r) = spec_eval_args(env, args, (fuel - 1) as nat);
                match r {
                    Some(argv) => spec_apply(env1, callee, argv, (fuel - 1) as nat),
                    None => (env1, depth_err()),
                }
            } else {
                (env, Val::EvalError("Symbol Not defined"@))
            },
            Val::List(l) => {
                let (env1, callee) = spec_eval_form(env, l, (fuel - 1) as nat);
                let (env2, r) = spec_eval_args(env1, args, (fuel - 1) as nat);
                match r {
                    Some(argv) => spec_apply(env2, callee, argv, (fuel - 1) as nat),
                    None => (env2, depth_err()),
                }
            },
            Val::FuncPrimitive(p) => {
                let (env1, r) = spec_eval_args(env, args, (fuel - 1) as nat);
                match r {
                    Some(argv) => (env1, apply_native(p.op, argv)),
                    None => (env1, depth_err()),
                }
            },
            Val::Function(f) => spec_apply_closure(env, f, args, (fuel - 1) as nat),
            _ => (env, Val::EvalError("Failed to evaluate form"@)),
        }
    }
}

/// Applies a resolved callee to already-evaluated arguments.  A value that is
/// itself a list is evaluated as a form to obtain the real callee; the
/// arguments are not evaluated again.
pub open spec fn spec_apply(env: EnvV, callee: Val, argv: Seq<Val>, fuel: nat) -> (EnvV, Val)
    decreases fuel,
{
    if fuel == 0 {
        (env, depth_err())
    } else {
        match callee {
            Val::FuncPrimitive(p) => (env, apply_native(p.op, argv)),
            Val::Function(f) => spec_apply_closure(env, f, argv, (fuel - 1) as nat),
            Val::List(l) => {
                let (env1, callee2) = spec_eval_form(env, l, (fuel - 1) as nat);
                spec_apply(env1, callee2, argv, (fuel - 1) as nat)
            },
            _ => (env, Val::EvalError("Failed to evaluate form"@)),
        }
    }
}

/// The parameter frame of a closure call: parameters are bound to arguments
/// by position over the overlapping prefix; extra arguments are dropped and
/// trailing parameters stay unbound.  A rest parameter is refused.
pub open spec fn bind_params(f: FrameV, params: Seq<Param>, argv: Seq<Val>) -> Option<FrameV>
    decreases params.len(),
{
    if params.len() == 0 || argv.len() == 0 {
        Some(f)
    } else {
        match params[0] {
            Param::Variable(s) => bind_params(
                frame_insert(f, s, argv[0]),
                params.drop_first(),
                argv.drop_first(),
            ),
            Param::Variadic(_) => None,
        }
    }
}

/// Applies a user-defined function: a fresh frame holding the parameter
/// bindings is pushed, the body is evaluated against the caller's environment
/// plus that frame (the closure does not capture its definition site), and
/// the frame is discarded again.
pub open spec fn spec_apply_closure(env: EnvV, f: FnVal, argv: Seq<Val>, fuel: nat) -> (EnvV, Val)
    decreases fuel,
{
    if fuel == 0 {
        (env, depth_err())
    } else {
        match bind_params(Seq::empty(), f.params, argv) {
            None => (env, Val::EvalError("Variadic not implemented"@)),
            Some(pf) => {
                let (env2, r) = spec_eval_elem(seq![pf].add(env), *f.body, (fuel - 1) as nat);
                (env2.drop_first(), r)
            },
        }
    }
}

/// The `if` special form: the condition is evaluated and must reduce to a
/// boolean; the chosen branch is evaluated; a false condition with no else
/// branch gives `Nil`.
pub open spec fn spec_if(env: EnvV, args: Seq<Val>, fuel: nat) -> (EnvV, Val)
    decreases fuel,
{
    if fuel == 0 {
        (env, depth_err())
    } else if args.len() < 2 || args.len() > 3 {
        (
            env,
            Val::EvalError(
                "if: wrong number of args ("@.add(
                    crate::strutil::dec_digits(args.len()).push(')'),
                ),
            ),
        )
    } else {
        let (env1, c) = spec_eval_elem(env, args[0], (fuel - 1) as nat);
        if c == Val::Boolean(true) {
            spec_eval_elem(env1, args[1], (fuel - 1) as nat)
        } else if c == Val::Boolean(false) && args.len() == 3 {
            spec_eval_elem(env1, args[2], (fuel - 1) as nat)
        } else if c == Val::Boolean(false) {
            (env1, Val::Nil)
        } else {
            (env1, Val::EvalError("if: first element must be boolean"@))
        }
    }
}

/// The `def` special form: the expression is evaluated eagerly, then the name
/// is bound in the root frame.  The result is `Nil`.
pub open spec fn spec_def(env: EnvV, args: Seq<Val>, fuel: nat) -> (EnvV, Val)
    decreases fuel,
{
    if fuel == 0 {
        (env, depth_err())
    } else if args.len() != 2 {
        (env, Val::EvalError("expected 2 args"@))
    } else {
        let (env1, v) = spec_eval_elem(env, args[1], (fuel - 1) as nat);
        match args[0] {
            Val::Symbol(s) => (env_set_root(env1, s, v), Val::Nil),
            _ => (env1, Val::EvalError("first arg not of type symbol"@)),
        }
    }
}

/// The names of a parameter vector, or `None` if some element is not a
/// symbol.
pub open spec fn param_names(ps: Seq<Val>) -> Option<Seq<Seq<char>>>
    decreases ps.len(),
{
    if ps.len() == 0 {
        Some(Seq::empty())
    } else {
        match ps[0] {
            Val::Symbol(s) => match param_names(ps.drop_first()) {
                Some(r) => Some(seq![s].add(r)),
                None => None,
            },
            _ => None,
        }
    }
}

/// `param_names` succeeds exactly on all-symbol sequences, giving the names
/// pointwise.
pub proof fn lemma_param_names(ps: Seq<Val>)
    ensures
        match param_names(ps) {
            Some(names) => names.len() == ps.len() && forall|i: int|
                0 <= i < ps.len() ==> ps[i] == Val::Symbol(names[i]),
            None => exists|i: int| 0 <= i < ps.len() && !(ps[i] is Symbol),
        },
    decreases ps.len(),
{
    if ps.len() > 0 {
        lemma_param_names(ps.drop_first());
        match ps[0] {
            Val::Symbol(n) => {
                match param_names(ps.drop_first()) {
                    Some(names) => {
                        let whole = seq![n].add(names);
                        assert(param_names(ps) == Some(whole));
                        assert forall|i: int| 0 <= i < ps.len() implies ps[i] == Val::Symbol(
                            whole[i],
                        ) by {
                            if i > 0 {
                                assert(ps.drop_first()[i - 1] == ps[i]);
                                assert(ps.drop_first()[i - 1] == Val::Symbol(names[i - 1]));
                            }
                        }
                    },
                    None => {
                        let w = choose|i: int|
                            0 <= i < ps.drop_first().len() && !(ps.drop_first()[i] is Symbol);
                        assert(ps[w + 1] == ps.drop_first()[w]);
                        assert(!(ps[w + 1] is Symbol));
                    },
                }
            },
            _ => {
                assert(!(ps[0] is Symbol));
            },
        }
    }
}

/// Builds `param_names` from a pointwise description.
pub proof fn lemma_param_names_build(ps: Seq<Val>, names: Seq<Seq<char>>)
    requires
        names.len() == ps.len(),
        forall|i: int| 0 <= i < ps.len() ==> ps[i] == Val::Symbol(names[i]),
    ensures
        param_names(ps) == Some(names),
    decreases ps.len(),
{
    if ps.len() == 0 {
        assert(names =~= Seq::<Seq<char>>::empty());
    } else {
        lemma_param_names_build(ps.drop_first(), names.drop_first());
        assert(seq![names[0]].add(names.drop_first()) =~= names);
    }
}

/// One binding step of `bind_params`: a leading plain parameter moves into
/// the frame.
pub proof fn lemma_bind_params_step(f: FrameV, params: Seq<Param>, argv: Seq<Val>)
    requires
        params.len() > 0,
        argv.len() > 0,
        params[0] is Variable,
    ensures
        bind_params(f, params, argv) == bind_params(
            frame_insert(f, params[0]->Variable_0, argv[0]),
            params.drop_first(),
            argv.drop_first(),
        ),
{
}

/// The closure value that `fn`/`defn` build from a name sequence and a body.
pub open spec fn make_closure(names: Seq<Seq<char>>, body: Val) -> Val {
    Val::Function(
        FnVal {
            params: names.map_values(|s: Seq<char>| Param::Variable(s)),
            body: Box::new(body),
            is_macro: false,
        },
    )
}

/// The `defn` special form (also the current behaviour of `defmacro`): binds
/// a closure built from a parameter vector and a body into the root frame,
/// without evaluating either.  The result is `Nil`.
pub open spec fn spec_defn(env: EnvV, args: Seq<Val>) -> (EnvV, Val) {
    if args.len() != 3 {
        (env, Val::EvalError("expected 3 args"@))
    } else {
        match args[0] {
            Val::Symbol(name) => match args[1] {
                Val::Vector(ps) => match param_names(ps) {
                    Some(names) => (
                        env_set_root(env, name, make_closure(names, args[2])),
                        Val::Nil,
                    ),
                    None => (env, Val::EvalError("args must be symbols"@)),
                },
                _ => (env, Val::EvalError("args must be a vector"@)),
            },
            _ => (env, Val::EvalError("name must be a symbol"@)),
        }
    }
}

/// The `fn` special form: builds and returns a closure value without binding
/// it anywhere.
pub open spec fn spec_fn_nobind(env: EnvV, args: Seq<Val>) -> (EnvV, Val) {
    if args.len() != 2 {
        (env, Val::EvalError("expected 2 args"@))
    } else {
        match args[0] {
            Val::Vector(ps) => match param_names(ps) {
                Some(names) => (env, make_closure(names, args[1])),
                None => (env, Val::EvalError("args must be symbols"@)),
            },
            _ => (env, Val::EvalError("args must be in a vector"@)),
        }
    }
}

/// Evaluation never adds or removes scope frames: the environment it returns
/// has exactly the frames it was given (the root possibly updated).
pub proof fn lemma_eval_elem_len(env: EnvV, v: Val, fuel: nat)
    requires
        env.len() >= 1,
    ensures
        spec_eval_elem(env, v, fuel).0.len() == env.len(),
    decreases fuel,
{
    if fuel > 0 {
        match v {
            Val::List(items) => lemma_eval_form_len(env, items, (fuel - 1) as nat),
            Val::Vector(items) => lemma_eval_args_len(env, items, (fuel - 1) as nat),
            _ => (),
        }
    }
}

/// Argument evaluation preserves the frame count.
pub proof fn lemma_eval_args_len(env: EnvV, args: Seq<Val>, fuel: nat)
    requires
        env.len() >= 1,
    ensures
        spec_eval_args(env, args, fuel).0.len() == env.len(),
    decreases fuel,
{
    if fuel > 0 && args.len() > 0 {
        lemma_eval_elem_len(env, args[0], (fuel - 1) as nat);
        let (env1, _) = spec_eval_elem(env, args[0], (fuel - 1) as nat);
        lemma_eval_args_len(env1, args.drop_first(), (fuel - 1) as nat);
    }
}

/// Call-form evaluation preserves the frame count.
pub proof fn lemma_eval_form_len(env: EnvV, items: Seq<Val>, fuel: nat)
    requires
        env.len() >= 1,
    ensures
        spec_eval_form(env, items, fuel).0.len() == env.len(),
    decreases fuel,
{
    if fuel > 0 && items.len() > 0 {
        let args = items.drop_first();
        match items[0] {
            Val::Symbol(s) => {
                if s == "if"@ {
                    lemma_if_len(env, args, (fuel - 1) as nat);
                } else if s == "def"@ {
                    lemma_def_len(env, args, (fuel - 1) as nat);
                } else if s == "defn"@ || s == "fn"@ || s == "defmacro"@ {
                } else if env_contains(env, s) {
                    lemma_eval_args_len(env, args, (fuel - 1) as nat);
                    let (env1, r) = spec_eval_args(env, args, (fuel - 1) as nat);
                    match r {
                        Some(argv) => lemma_apply_len(
                            env1,
                            env_get(env, s),
                            argv,
                            (fuel - 1) as nat,
                        ),
                        None => (),
                    }
                }
            },
            Val::List(l) => {
                lemma_eval_form_len(env, l, (fuel - 1) as nat);
                let (env1, callee) = spec_eval_form(env, l, (fuel - 1) as nat);
                lemma_eval_args_len(env1, args, (fuel - 1) as nat);
                let (env2, r) = spec_eval_args(env1, args, (fuel - 1) as nat);
                match r {
                    Some(argv) => lemma_apply_len(env2, callee, argv, (fuel - 1) as nat),
                    None => (),
                }
            },
            Val::FuncPrimitive(_) => {
                lemma_eval_args_len(env, args, (fuel - 1) as nat);
            },
            Val::Function(f) => {
                lemma_apply_closure_len(env, f, args, (fuel - 1) as nat);
            },
            _ => (),
        }
    }
}

/// Applying a callee preserves the frame count.
pub proof fn lemma_apply_len(env: EnvV, callee: Val, argv: Seq<Val>, fuel: nat)
    requires
        env.len() >= 1,
    ensures
        spec_apply(env, callee, argv, fuel).0.len() == env.len(),
    decreases fuel,
{
    if fuel > 0 {
        match callee {
            Val::Function(f) => lemma_apply_closure_len(env, f, argv, (fuel - 1) as nat),
            Val::List(l) => {
                lemma_eval_form_len(env, l, (fuel - 1) as nat);
                let (env1, callee2) = spec_eval_form(env, l, (fuel - 1) as nat);
                lemma_apply_len(env1, callee2, argv, (fuel - 1) as nat);
            },
            _ => (),
        }
    }
}

/// Applying a closure preserves the frame count: the parameter frame it
/// pushes is dropped again.
pub proof fn lemma_apply_closure_len(env: EnvV, f: FnVal, argv: Seq<Val>, fuel: nat)
    requires
        env.len() >= 1,
    ensures
        spec_apply_closure(env, f, argv, fuel).0.len() == env.len(),
    decreases fuel,
{
    if fuel > 0 {
        match bind_params(Seq::empty(), f.params, argv) {
            None => (),
            Some(pf) => {
                lemma_eval_elem_len(seq![pf].add(env), *f.body, (fuel - 1) as nat);
            },
        }
    }
}

/// The `if` form preserves the frame count.
pub proof fn lemma_if_len(env: EnvV, args: Seq<Val>, fuel: nat)
    requires
        env.len() >= 1,
    ensures
        spec_if(env, args, fuel).0.len() == env.len(),
    decreases fuel,
{
    if fuel > 0 && 2 <= args.len() <= 3 {
        lemma_eval_elem_len(env, args[0], (fuel - 1) as nat);
        let (env1, c) = spec_eval_elem(env, args[0], (fuel - 1) as nat);
        if c == Val::Boolean(true) {
            lemma_eval_elem_len(env1, args[1], (fuel - 1) as nat);
        } else if c == Val::Boolean(false) && args.len() == 3 {
            lemma_eval_elem_len(env1, args[2], (fuel - 1) as nat);
        }
    }
}

/// The `def` form preserves the frame count.
pub proof fn lemma_def_len(env: EnvV, args: Seq<Val>, fuel: nat)
    requires
        env.len() >= 1,
    ensures
        spec_def(env, args, fuel).0.len() == env.len(),
    decreases fuel,
{
    if fuel > 0 && args.len() == 2 {
        lemma_eval_elem_len(env, args[1], (fuel - 1) as nat);
    }
}

} // verus!

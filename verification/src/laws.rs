//! Laws of the language, stated against the interpreter and proved once and
//! for all: scoping, shadowing, recursion, arithmetic, match dispatch, the
//! quoting rule for map keys, and a factorial-style program evaluated end
//! to end.

use vstd::prelude::*;

use crate::eval::{
    BRes,
    child_of, div_trunc, env_bind, env_lookup, eval_node, in_i32, msg_undef_idt, pow_in_range,
    pow_int, spec_binop, spec_funcall, spec_key, spec_ltd, ERes, EnvV, MKey, ValV,
};
use crate::parse::{is_numeral, numeral_val, AstV};

verus! {

/// Binding a name makes it resolve to the bound value in that scope.
pub proof fn lemma_lookup_bind(e: EnvV, x: Seq<char>, v: ValV)
    ensures
        env_lookup(env_bind(e, x, v), x) == Option::Some(v),
{
    assert(env_bind(e, x, v).bindings.last() == (x, v));
}

/// Binding one name leaves the resolution of every other name as it was.
pub proof fn lemma_lookup_bind_other(e: EnvV, x: Seq<char>, y: Seq<char>, v: ValV)
    requires
        x != y,
    ensures
        env_lookup(env_bind(e, x, v), y) == env_lookup(e, y),
{
    assert(env_bind(e, x, v).bindings.drop_last() =~= e.bindings);
}

/// A fresh child scope resolves every name exactly as its parent does: a
/// binding made before entering a nested evaluation context is visible
/// inside it.
pub proof fn lemma_lookup_child(e: EnvV, x: Seq<char>)
    ensures
        env_lookup(child_of(e), x) == env_lookup(e, x),
{
}

/// `let x = E` makes `x` resolve to the value of `E`: after a successful
/// `let`, the resulting environment binds `x` to that value, and an
/// evaluation of the bare identifier `x` in it, or in any child scope of
/// it, yields that value and emits nothing.
pub proof fn lemma_let_then_use(x: Seq<char>, e: AstV, env: EnvV, fuel: nat, fuel2: nat)
    requires
        eval_node(e, child_of(env), fuel) matches ERes::Val { .. },
        fuel2 >= 1,
    ensures
        (spec_ltd(x, e, env, fuel) matches ERes::Val { v, env: e2, .. } && env_lookup(e2, x)
            == Option::Some(v) && eval_node(AstV::Idt(x), e2, fuel2) == (ERes::Val {
            v,
            env: e2,
            out: Seq::<ValV>::empty(),
        }) && eval_node(AstV::Idt(x), child_of(e2), fuel2) == (ERes::Val {
            v,
            env: child_of(e2),
            out: Seq::<ValV>::empty(),
        })),
{
    let res = eval_node(e, child_of(env), fuel);
    if let ERes::Val { v, .. } = res {
        lemma_lookup_bind(env, x, v);
        lemma_lookup_child(env_bind(env, x, v), x);
    }
}

/// An identifier with no binding in scope evaluates to a `RunErr` whose
/// message names that identifier, and emits no output.
pub proof fn lemma_undefined_idt(x: Seq<char>, env: EnvV, fuel: nat)
    requires
        env_lookup(env, x) is None,
        fuel >= 1,
    ensures
        eval_node(AstV::Idt(x), env, fuel) == (ERes::Fail {
            msg: msg_undef_idt(x),
            out: Seq::<ValV>::empty(),
        }),
        msg_undef_idt(x) == "Error: identifier "@ + x + " is not defined"@,
{
}

/// Shadowing is total: a binding of `x` made in an inner scope hides any
/// outer binding of `x` completely, whatever value the outer scope holds.
pub proof fn lemma_shadowing_inner(env: EnvV, x: Seq<char>, v_inner: ValV)
    ensures
        env_lookup(env_bind(child_of(env), x, v_inner), x) == Option::Some(v_inner),
{
    lemma_lookup_bind(child_of(env), x, v_inner);
}

/// Shadowing ends with the inner scope: a call never changes the caller's
/// environment, so after returning, a name resolves exactly as before the
/// call, whatever the callee's body bound.  (A failed call leaves it
/// unchanged too: that is part of every evaluator function's contract,
/// through the failure case of `obeys`.)
pub proof fn lemma_call_keeps_caller_env(name: Seq<char>, params: Seq<AstV>, env: EnvV, fuel: nat)
    ensures
        (spec_funcall(name, params, env, fuel) matches ERes::Val { env: e2, .. } ==> e2 == env),
{
}

/// The self-binding: at every call the function's captured environment is
/// extended with the function's own (defining) name bound to the function
/// itself, and the call frame is layered over that extended scope.  So a
/// reference to the defining name from inside the body — through any frame
/// whose own bindings (parameters, locals, the call-site name) do not
/// shadow it — resolves to the function itself, even when the call was
/// made under another name.
pub proof fn lemma_captured_self_binding(
    fenv: EnvV,
    fname: Seq<char>,
    fv: ValV,
    frame: Seq<(Seq<char>, ValV)>,
)
    requires
        forall|i: int| 0 <= i < frame.len() ==> (#[trigger] frame[i]).0 != fname,
    ensures
        env_lookup(env_bind(fenv, fname, fv), fname) == Option::Some(fv),
        env_lookup(
            EnvV { bindings: frame, parent: Option::Some(Box::new(env_bind(fenv, fname, fv))) },
            fname,
        ) == Option::Some(fv),
{
    lemma_lookup_bind(fenv, fname, fv);
    lemma_scope_lookup_misses(frame, fname);
}

proof fn lemma_scope_lookup_misses(bindings: Seq<(Seq<char>, ValV)>, name: Seq<char>)
    requires
        forall|i: int| 0 <= i < bindings.len() ==> (#[trigger] bindings[i]).0 != name,
    ensures
        crate::eval::scope_lookup(bindings, name) is None,
    decreases bindings.len(),
{
    if bindings.len() > 0 {
        assert(forall|i: int| 0 <= i < bindings.drop_last().len()
            ==> (#[trigger] bindings.drop_last()[i]).0 != name);
        lemma_scope_lookup_misses(bindings.drop_last(), name);
    }
}

/// A function resolves its own name inside its call frame: the frame
/// re-binds the name used at the call site to the function value, and the
/// extended captured scope below it carries the defining name (see
/// `lemma_captured_self_binding`), which is what lets a recursive call go
/// through.  And since a successful call leaves the caller's environment
/// untouched, the same call can be made again without re-declaration, with
/// the identical outcome.
pub proof fn lemma_recursion(name: Seq<char>, params: Seq<AstV>, env: EnvV, fuel: nat, frame: EnvV, fv: ValV)
    ensures
        env_lookup(env_bind(frame, name, fv), name) == Option::Some(fv),
        (spec_funcall(name, params, env, fuel) matches ERes::Val { env: e2, .. } ==> e2 == env
            && spec_funcall(name, params, e2, fuel) == spec_funcall(name, params, env, fuel)),
{
    lemma_lookup_bind(frame, name, fv);
}

/// For all integers: once the two operands of `+`, `-`, `*`, truncating `/`
/// or `**` have evaluated to the numbers `a` and `b`, the operation yields
/// exactly the native integer result, in the unchanged environment.
pub proof fn lemma_arith(l: AstV, op: AstV, r: AstV, env: EnvV, fuel: nat, a: int, b: int)
    requires
        (eval_node(l, child_of(env), fuel) matches ERes::Val { v, .. } && v == ValV::Num(a)),
        (eval_node(r, child_of(env), fuel) matches ERes::Val { v, .. } && v == ValV::Num(b)),
        op == AstV::Add || op == AstV::Sub || op == AstV::Mul || op == AstV::Div || op
            == AstV::Pow,
        op == AstV::Add ==> in_i32(a + b),
        op == AstV::Sub ==> in_i32(a - b),
        op == AstV::Mul ==> in_i32(a * b),
        op == AstV::Div ==> b != 0 && in_i32(div_trunc(a, b)),
        op == AstV::Pow ==> b >= 0 && pow_in_range(a, b as nat),
    ensures
        (spec_binop(l, op, r, env, fuel) matches ERes::Val { v, env: e2, .. } && e2 == env && v
            == ValV::Num(
            if op == AstV::Add {
                a + b
            } else if op == AstV::Sub {
                a - b
            } else if op == AstV::Mul {
                a * b
            } else if op == AstV::Div {
                div_trunc(a, b)
            } else {
                pow_int(a, b as nat)
            },
        )),
{
}

/// The same, for numeral literals: evaluating `a OP b` on two written-out
/// numerals yields the native integer result of the operation.
pub proof fn lemma_arith_literals(sa: Seq<char>, sb: Seq<char>, op: AstV, env: EnvV, fuel: nat)
    requires
        is_numeral(sa),
        is_numeral(sb),
        fuel >= 1,
        op == AstV::Add || op == AstV::Sub || op == AstV::Mul || op == AstV::Div || op
            == AstV::Pow,
        op == AstV::Add ==> in_i32(numeral_val(sa) + numeral_val(sb)),
        op == AstV::Sub ==> in_i32(numeral_val(sa) - numeral_val(sb)),
        op == AstV::Mul ==> in_i32(numeral_val(sa) * numeral_val(sb)),
        op == AstV::Div ==> numeral_val(sb) != 0 && in_i32(div_trunc(numeral_val(sa), numeral_val(sb))),
        op == AstV::Pow ==> pow_in_range(numeral_val(sa), numeral_val(sb) as nat),
    ensures
        (spec_binop(AstV::Num(sa), op, AstV::Num(sb), env, fuel) matches ERes::Val {
            v,
            env: e2,
            ..
        } && e2 == env && v == ValV::Num(
            if op == AstV::Add {
                numeral_val(sa) + numeral_val(sb)
            } else if op == AstV::Sub {
                numeral_val(sa) - numeral_val(sb)
            } else if op == AstV::Mul {
                numeral_val(sa) * numeral_val(sb)
            } else if op == AstV::Div {
                div_trunc(numeral_val(sa), numeral_val(sb))
            } else {
                pow_int(numeral_val(sa), numeral_val(sb) as nat)
            },
        )),
{
    let a = numeral_val(sa);
    let b = numeral_val(sb);
    crate::eval::lemma_numeral_nonneg(sa);
    crate::eval::lemma_numeral_nonneg(sb);
    lemma_arith(AstV::Num(sa), op, AstV::Num(sb), env, fuel, a, b);
}

/// A map key written as a bare identifier is quoted: whatever the
/// environment binds that name to, the key is the string of the name
/// itself, and nothing is evaluated or emitted for it.
pub proof fn lemma_map_bare_key_quoted(name: Seq<char>, env: EnvV, fuel: nat)
    ensures
        spec_key(AstV::Idt(name), env, fuel) == (MKey::Key {
            k: ValV::String(name),
            out: Seq::<ValV>::empty(),
        }),
{
}

/// A branch that does not decide the match: its pattern is an expression
/// that evaluates to a value, and that value and the discriminant are not
/// equal numbers.
pub open spec fn branch_skips(c: AstV, d: ValV, env: EnvV, fuel: nat) -> bool {
    c matches AstV::Branch(p, b) && !(*p == AstV::Default) && (eval_node(
        *p,
        child_of(env),
        fuel,
    ) matches ERes::Val { v, .. } && !(d matches ValV::Num(x) && v matches ValV::Num(y) && x
        == y))
}

/// A branch that decides the match: a default marker, or an expression
/// pattern whose value and the discriminant are equal numbers.
pub open spec fn branch_fires(c: AstV, d: ValV, env: EnvV, fuel: nat) -> bool {
    c matches AstV::Branch(p, b) && (*p == AstV::Default || (eval_node(
        *p,
        child_of(env),
        fuel,
    ) matches ERes::Val { v, .. } && (d matches ValV::Num(x) && v matches ValV::Num(y) && x
        == y)))
}

/// The body of a branch.
pub open spec fn branch_body(c: AstV) -> AstV {
    match c {
        AstV::Branch(p, b) => *b,
        _ => arbitrary(),
    }
}

/// `match` dispatches to the first branch that fires, in source order:
/// when every earlier branch skips and branch `i` fires, the match yields
/// exactly what branch `i`'s body yields in its own fresh child scope, and
/// the outcome is the same as if the branches after `i` were not there at
/// all — later branches, matching or not, are ignored.  With a trailing
/// default branch this covers every discriminant no earlier branch
/// catches.
pub proof fn lemma_match_first_wins(d: ValV, cases: Seq<AstV>, env: EnvV, fuel: nat, i: int)
    requires
        0 <= i < cases.len(),
        forall|j: int| 0 <= j < i ==> branch_skips(#[trigger] cases[j], d, env, fuel),
        branch_fires(cases[i], d, env, fuel),
    ensures
        match eval_node(branch_body(cases[i]), child_of(env), fuel) {
            ERes::Val { v, .. } => crate::eval::spec_branches(d, cases, env, fuel)
                matches ERes::Val { v: v2, env: e2, .. } && v2 == v && e2 == env,
            ERes::Fail { msg, .. } => crate::eval::spec_branches(d, cases, env, fuel)
                matches ERes::Fail { msg: m2, .. } && m2 == msg,
        },
        crate::eval::spec_branches(d, cases, env, fuel) == crate::eval::spec_branches(
            d,
            cases.take(i + 1),
            env,
            fuel,
        ),
    decreases i,
{
    if i == 0 {
        assert(cases[0] matches AstV::Branch(p, b));
        assert(cases.take(1)[0] == cases[0]);
    } else {
        assert(branch_skips(cases[0], d, env, fuel));
        assert(cases.skip(1)[i - 1] == cases[i]);
        assert(forall|j: int| 0 <= j < i - 1 ==> cases.skip(1)[j] == cases[j + 1]
            && branch_skips(#[trigger] cases.skip(1)[j], d, env, fuel));
        lemma_match_first_wins(d, cases.skip(1), env, fuel, i - 1);
        assert(cases.take(i + 1)[0] == cases[0]);
        assert(cases.take(i + 1).skip(1) =~= cases.skip(1).take(i));
    }
}


// ---------------------------------------------------------------------------
// A factorial-style program, evaluated once and for all
// ---------------------------------------------------------------------------
/// The mathematical factorial.
pub open spec fn fact_spec(n: nat) -> int
    decreases n,
{
    if n == 0 {
        1
    } else {
        n * fact_spec((n - 1) as nat)
    }
}

/// The recursive call's argument: `pn - 1`.
pub open spec fn fact_arg_node(pn: Seq<char>) -> AstV {
    AstV::Expr(
        Box::new(
            AstV::BinAdd(
                Box::new(AstV::Idt(pn)),
                Box::new(AstV::Sub),
                Box::new(AstV::Num(seq!['1'])),
            ),
        ),
    )
}

/// The default branch's body: `pn * fname(pn - 1)`.
pub open spec fn fact_default_body(fname: Seq<char>, pn: Seq<char>) -> AstV {
    AstV::Expr(
        Box::new(
            AstV::BinMul(
                Box::new(AstV::Idt(pn)),
                Box::new(AstV::Mul),
                Box::new(AstV::Funcall(fname, seq![fact_arg_node(pn)])),
            ),
        ),
    )
}

/// The two branches: `0 => 1` and `_ => pn * fname(pn - 1)`.
pub open spec fn fact_branches(fname: Seq<char>, pn: Seq<char>) -> Seq<AstV> {
    seq![
        AstV::Branch(
            Box::new(AstV::Expr(Box::new(AstV::Num(seq!['0'])))),
            Box::new(AstV::Expr(Box::new(AstV::Num(seq!['1'])))),
        ),
        AstV::Branch(Box::new(AstV::Default), Box::new(fact_default_body(fname, pn))),
    ]
}

/// The function body: one `match` on the parameter.
pub open spec fn fact_body(fname: Seq<char>, pn: Seq<char>) -> Seq<AstV> {
    seq![
        AstV::Expr(
            Box::new(
                AstV::Match(
                    Box::new(AstV::Expr(Box::new(AstV::Idt(pn)))),
                    fact_branches(fname, pn),
                ),
            ),
        ),
    ]
}

/// The function value a factorial-style definition produces.
pub open spec fn fact_fun(fname: Seq<char>, pn: Seq<char>, defenv: EnvV) -> ValV {
    ValV::Fun(fname, seq![AstV::Idt(pn)], fact_body(fname, pn), Box::new(child_of(defenv)))
}

proof fn lemma_numeral_digits()
    ensures
        is_numeral(seq!['0']),
        is_numeral(seq!['1']),
        numeral_val(seq!['0']) == 0,
        numeral_val(seq!['1']) == 1,
{
    assert(seq!['0'].drop_last() =~= Seq::<char>::empty());
    assert(seq!['1'].drop_last() =~= Seq::<char>::empty());
    assert(numeral_val(Seq::<char>::empty()) == 0);
    assert(numeral_val(seq!['0']) == 0);
    assert(numeral_val(seq!['1']) == 1);
}

proof fn lemma_eval_numeral(e: EnvV, s: Seq<char>, v: int, fuel: nat)
    requires
        is_numeral(s),
        numeral_val(s) == v,
        fuel >= 1,
    ensures
        eval_node(AstV::Num(s), e, fuel) == (ERes::Val {
            v: ValV::Num(v),
            env: e,
            out: Seq::<ValV>::empty(),
        }),
{
}

proof fn lemma_eval_idt_value(e: EnvV, x: Seq<char>, v: ValV, fuel: nat)
    requires
        env_lookup(e, x) == Option::Some(v),
        fuel >= 1,
    ensures
        eval_node(AstV::Idt(x), e, fuel) == (ERes::Val { v, env: e, out: Seq::<ValV>::empty() }),
{
}

proof fn lemma_eval_wrap(e: EnvV, inner: AstV, fuel: nat)
    requires
        fuel >= 1,
    ensures
        eval_node(AstV::Expr(Box::new(inner)), e, fuel) == eval_node(inner, e, (fuel - 1) as nat),
{
}

/// `pn - 1` evaluates to one less than what `pn` is bound to.
proof fn lemma_eval_fact_arg(e: EnvV, pn: Seq<char>, n: int, fuel: nat)
    requires
        env_lookup(e, pn) == Option::Some(ValV::Num(n)),
        in_i32(n),
        n >= 1,
        fuel >= 4,
    ensures
        eval_node(fact_arg_node(pn), e, fuel) == (ERes::Val {
            v: ValV::Num(n - 1),
            env: e,
            out: Seq::<ValV>::empty(),
        }),
{
    let f1 = (fuel - 1) as nat;
    let f2 = (fuel - 2) as nat;
    let binadd = AstV::BinAdd(
        Box::new(AstV::Idt(pn)),
        Box::new(AstV::Sub),
        Box::new(AstV::Num(seq!['1'])),
    );
    lemma_eval_wrap(e, binadd, fuel);
    lemma_lookup_child(e, pn);
    lemma_eval_idt_value(child_of(e), pn, ValV::Num(n), f2);
    lemma_numeral_digits();
    lemma_eval_numeral(child_of(e), seq!['1'], 1, f2);
    assert(eval_node(binadd, e, f1) == crate::eval::spec_binop(
        AstV::Idt(pn),
        AstV::Sub,
        AstV::Num(seq!['1']),
        e,
        f2,
    ));
    assert(crate::eval::apply_binop(AstV::Sub, ValV::Num(n), ValV::Num(1)) == Result::<
        ValV,
        Seq<char>,
    >::Ok(ValV::Num(n - 1)));
    assert(Seq::<ValV>::empty() + Seq::<ValV>::empty() =~= Seq::<ValV>::empty());
}

/// A zero discriminant takes the zero branch: the result is 1.
proof fn lemma_fact_branches_zero(fname: Seq<char>, pn: Seq<char>, e: EnvV, fuel: nat)
    requires
        fuel >= 2,
    ensures
        crate::eval::spec_branches(ValV::Num(0), fact_branches(fname, pn), e, fuel) == (ERes::Val {
            v: ValV::Num(1),
            env: e,
            out: Seq::<ValV>::empty(),
        }),
{
    let branches = fact_branches(fname, pn);
    assert(branches[0] == AstV::Branch(
        Box::new(AstV::Expr(Box::new(AstV::Num(seq!['0'])))),
        Box::new(AstV::Expr(Box::new(AstV::Num(seq!['1'])))),
    ));
    lemma_numeral_digits();
    lemma_eval_wrap(child_of(e), AstV::Num(seq!['0']), fuel);
    lemma_eval_numeral(child_of(e), seq!['0'], 0, (fuel - 1) as nat);
    lemma_eval_wrap(child_of(e), AstV::Num(seq!['1']), fuel);
    lemma_eval_numeral(child_of(e), seq!['1'], 1, (fuel - 1) as nat);
    assert(Seq::<ValV>::empty() + Seq::<ValV>::empty() =~= Seq::<ValV>::empty());
}

/// A nonzero discriminant skips the zero branch and takes the default; the
/// result is whatever the default body yields.
proof fn lemma_fact_branches_pos(fname: Seq<char>, pn: Seq<char>, e: EnvV, n: int, m: int, fuel: nat)
    requires
        n != 0,
        fuel >= 2,
        (eval_node(fact_default_body(fname, pn), child_of(e), fuel) matches ERes::Val {
            v,
            out,
            ..
        } && v == ValV::Num(m) && out =~= Seq::<ValV>::empty()),
    ensures
        crate::eval::spec_branches(ValV::Num(n), fact_branches(fname, pn), e, fuel) == (ERes::Val {
            v: ValV::Num(m),
            env: e,
            out: Seq::<ValV>::empty(),
        }),
{
    let branches = fact_branches(fname, pn);
    assert(branches[0] == AstV::Branch(
        Box::new(AstV::Expr(Box::new(AstV::Num(seq!['0'])))),
        Box::new(AstV::Expr(Box::new(AstV::Num(seq!['1'])))),
    ));
    assert(branches.skip(1) =~= seq![
        AstV::Branch(Box::new(AstV::Default), Box::new(fact_default_body(fname, pn))),
    ]);
    lemma_numeral_digits();
    lemma_eval_wrap(child_of(e), AstV::Num(seq!['0']), fuel);
    lemma_eval_numeral(child_of(e), seq!['0'], 0, (fuel - 1) as nat);
    assert(branches.skip(1)[0] == AstV::Branch(
        Box::new(AstV::Default),
        Box::new(fact_default_body(fname, pn)),
    ));
    assert(crate::eval::spec_branches(ValV::Num(n), branches.skip(1), e, fuel) matches ERes::Val {
        v,
        env: e2,
        out,
    } && v == ValV::Num(m) && e2 == e && out =~= Seq::<ValV>::empty());
    assert(Seq::<ValV>::empty() + Seq::<ValV>::empty() =~= Seq::<ValV>::empty());
}

/// Recursion computes: calling a factorial-style function on an argument
/// that evaluates to the number `n` yields exactly `n!`, for every `n >= 0`
/// whose factorials stay numbers, with the caller's environment unchanged
/// and nothing emitted.  The self-call inside the body resolves to the
/// function itself at every depth, without re-declaration, through the
/// frame's bindings over the extended captured scope.
pub proof fn lemma_factorial_call(
    fname: Seq<char>,
    pn: Seq<char>,
    defenv: EnvV,
    env: EnvV,
    p: AstV,
    n: int,
    fuel: nat,
)
    requires
        pn != fname,
        !crate::eval::is_builtin(fname),
        env_lookup(env, fname) == Option::Some(fact_fun(fname, pn, defenv)),
        (eval_node(p, child_of(env), fuel) matches ERes::Val { v, out, .. } && v == ValV::Num(n)
            && out =~= Seq::<ValV>::empty()),
        0 <= n,
        in_i32(n),
        forall|k: int| 0 <= k <= n ==> in_i32(fact_spec(#[trigger] (k as nat))),
        fuel >= 6 * n + 10,
    ensures
        (spec_funcall(fname, seq![p], env, fuel) matches ERes::Val { v, env: e2, out } && v
            == ValV::Num(fact_spec(n as nat)) && e2 == env && out =~= Seq::<ValV>::empty()),
    decreases n,
{
    let fv = fact_fun(fname, pn, defenv);
    let fenv = child_of(defenv);
    let ext = env_bind(fenv, fname, fv);
    let frame0 = child_of(ext);
    let args = seq![AstV::Idt(pn)];
    let params = seq![p];
    let frame = env_bind(frame0, pn, ValV::Num(n));
    let frame2 = env_bind(frame, fname, fv);
    let empt = Seq::<ValV>::empty();
    assert(empt + empt =~= empt);

    // the call frame
    assert(args.skip(1) =~= Seq::<AstV>::empty());
    assert(params.skip(1) =~= Seq::<AstV>::empty());
    let pres = eval_node(p, child_of(env), fuel);
    assert(crate::eval::spec_bind_args(args, params, env, frame0, fuel) == (BRes::Frame {
        frame,
        out: empt,
    })) by {
        assert(crate::eval::spec_bind_args(
            args.skip(1),
            params.skip(1),
            env,
            frame,
            fuel,
        ) == (BRes::Frame { frame, out: empt }));
        assert(crate::eval::eres_out(pres) == empt);
    }

    // name resolution in and under the frame
    lemma_lookup_bind(frame, fname, fv);
    lemma_lookup_bind_other(frame, fname, pn, fv);
    lemma_lookup_bind(frame0, pn, ValV::Num(n));
    assert(env_lookup(frame2, pn) == Option::Some(ValV::Num(n)));
    assert(env_lookup(frame2, fname) == Option::Some(fv));
    lemma_lookup_child(frame2, pn);
    lemma_lookup_child(frame2, fname);

    // the body: one match on the parameter
    let body = fact_body(fname, pn);
    let match_node = AstV::Match(
        Box::new(AstV::Expr(Box::new(AstV::Idt(pn)))),
        fact_branches(fname, pn),
    );
    assert(body[0] == AstV::Expr(Box::new(match_node)));
    lemma_eval_wrap(frame2, match_node, fuel);
    let f1 = (fuel - 1) as nat;
    let f2 = (fuel - 2) as nat;

    // the discriminant
    lemma_eval_wrap(child_of(frame2), AstV::Idt(pn), f2);
    lemma_eval_idt_value(child_of(frame2), pn, ValV::Num(n), (f2 - 1) as nat);
    assert(eval_node(AstV::Expr(Box::new(AstV::Idt(pn))), child_of(frame2), f2) == (ERes::Val {
        v: ValV::Num(n),
        env: child_of(frame2),
        out: empt,
    }));
    assert(eval_node(match_node, frame2, f1) == crate::eval::spec_match(
        AstV::Expr(Box::new(AstV::Idt(pn))),
        fact_branches(fname, pn),
        frame2,
        f2,
    ));

    if n == 0 {
        lemma_fact_branches_zero(fname, pn, frame2, f2);
        assert(fact_spec(0nat) == 1);
    } else {
        // the default body: pn * fname(pn - 1)
        let cb = child_of(frame2);
        let mul_node = AstV::BinMul(
            Box::new(AstV::Idt(pn)),
            Box::new(AstV::Mul),
            Box::new(AstV::Funcall(fname, seq![fact_arg_node(pn)])),
        );
        assert(fact_default_body(fname, pn) == AstV::Expr(Box::new(mul_node)));
        lemma_eval_wrap(cb, mul_node, f2);
        let f3 = (f2 - 1) as nat;
        let f4 = (f3 - 1) as nat;
        let funcall_node = AstV::Funcall(fname, seq![fact_arg_node(pn)]);
        assert(eval_node(mul_node, cb, f3) == crate::eval::spec_binop(
            AstV::Idt(pn),
            AstV::Mul,
            funcall_node,
            cb,
            f4,
        ));
        // left operand: the parameter
        lemma_lookup_child(cb, pn);
        lemma_lookup_child(child_of(cb), pn);
        lemma_eval_idt_value(child_of(cb), pn, ValV::Num(n), f4);
        // right operand: the recursive call
        let env2 = child_of(cb);
        lemma_lookup_child(cb, fname);
        lemma_lookup_child(child_of(cb), fname);
        assert(env_lookup(env2, fname) == Option::Some(fv));
        let f5 = (f4 - 1) as nat;
        lemma_lookup_child(env2, pn);
        lemma_eval_fact_arg(child_of(env2), pn, n, f5);
        assert(forall|k: int| 0 <= k <= n - 1 ==> in_i32(fact_spec(#[trigger] (k as nat))));
        lemma_factorial_call(fname, pn, defenv, env2, fact_arg_node(pn), n - 1, f5);
        // the multiplication: n * (n-1)! == n!
        assert(fact_spec(n as nat) == n * fact_spec((n - 1) as nat));
        assert(in_i32(fact_spec(n as nat)));
        assert(eval_node(AstV::Funcall(fname, seq![fact_arg_node(pn)]), child_of(cb), f4)
            == spec_funcall(fname, seq![fact_arg_node(pn)], child_of(cb), f5));
        assert(eval_node(fact_default_body(fname, pn), child_of(frame2), f2) matches ERes::Val {
            v,
            out,
            ..
        } && v == ValV::Num(fact_spec(n as nat)) && out =~= empt);
        lemma_fact_branches_pos(fname, pn, frame2, n, fact_spec(n as nat), f2);
    }
}


/// The factorial program end to end: defining a factorial-style function
/// and then calling it on `5` evaluates to `120`, through the self-call at
/// every depth.
pub proof fn lemma_factorial_program(fname: Seq<char>, pn: Seq<char>)
    requires
        pn != fname,
        !crate::eval::is_builtin(fname),
    ensures
        crate::eval::eval_prgm_spec(
            AstV::Program(
                seq![
                    AstV::Expr(
                        Box::new(AstV::Fun(fname, seq![AstV::Idt(pn)], fact_body(fname, pn))),
                    ),
                    AstV::Expr(
                        Box::new(
                            AstV::Funcall(
                                fname,
                                seq![AstV::Expr(Box::new(AstV::Num(seq!['5'])))],
                            ),
                        ),
                    ),
                ],
            ),
        ) == (crate::eval::PRes::Val { v: ValV::Num(120), out: Seq::<ValV>::empty() }),
{
    let empt = Seq::<ValV>::empty();
    assert(empt + empt =~= empt);
    let e0 = crate::eval::empty_env();
    let fv = fact_fun(fname, pn, e0);
    let fuel = crate::eval::EVAL_FUEL as nat;
    let stmts = seq![
        AstV::Expr(Box::new(AstV::Fun(fname, seq![AstV::Idt(pn)], fact_body(fname, pn)))),
        AstV::Expr(Box::new(AstV::Funcall(fname, seq![AstV::Expr(Box::new(AstV::Num(seq!['5'])))]))),
    ];

    // the definition binds the function in the root scope
    let env1 = env_bind(e0, fname, fv);
    assert(eval_node(AstV::Fun(fname, seq![AstV::Idt(pn)], fact_body(fname, pn)), e0, fuel)
        == (ERes::Val { v: ValV::Unit, env: env1, out: empt }));
    lemma_lookup_bind(e0, fname, fv);

    // the argument numeral
    assert(seq!['5'].drop_last() =~= Seq::<char>::empty());
    assert(numeral_val(Seq::<char>::empty()) == 0);
    assert(numeral_val(seq!['5']) == 5);
    assert(is_numeral(seq!['5']));
    let p = AstV::Expr(Box::new(AstV::Num(seq!['5'])));
    let f1 = (fuel - 1) as nat;
    lemma_eval_wrap(child_of(env1), AstV::Num(seq!['5']), f1);
    lemma_eval_numeral(child_of(env1), seq!['5'], 5, (f1 - 1) as nat);
    assert(eval_node(p, child_of(env1), f1) == (ERes::Val {
        v: ValV::Num(5),
        env: child_of(env1),
        out: empt,
    }));

    // the factorials of 0 through 5 are numbers
    assert(fact_spec(0nat) == 1);
    assert(fact_spec(1nat) == 1);
    assert(fact_spec(2nat) == 2);
    assert(fact_spec(3nat) == 6);
    assert(fact_spec(4nat) == 24);
    assert(fact_spec(5nat) == 120);
    assert forall|k: int| 0 <= k <= 5 implies in_i32(fact_spec(#[trigger] (k as nat))) by {
        if k == 0 {
            assert(fact_spec(k as nat) == 1);
        } else if k == 1 {
            assert(fact_spec(k as nat) == 1);
        } else if k == 2 {
            assert(fact_spec(k as nat) == 2);
        } else if k == 3 {
            assert(fact_spec(k as nat) == 6);
        } else if k == 4 {
            assert(fact_spec(k as nat) == 24);
        } else {
            assert(fact_spec(k as nat) == 120);
        }
    }

    // the call
    lemma_factorial_call(fname, pn, e0, env1, p, 5, f1);
    assert(eval_node(AstV::Funcall(fname, seq![p]), env1, fuel) == spec_funcall(
        fname,
        seq![p],
        env1,
        f1,
    ));

    // the program: definition, then call, nothing emitted
    assert(stmts.skip(1) =~= seq![stmts[1]]);
    assert(stmts.skip(1).skip(1) =~= Seq::<AstV>::empty());
    assert(crate::eval::eval_top(stmts.skip(1).skip(1), env1, ValV::Num(120))
        == (crate::eval::PRes::Val { v: ValV::Num(120), out: empt }));
    assert(crate::eval::eval_top(stmts.skip(1), env1, ValV::Unit) == (crate::eval::PRes::Val {
        v: ValV::Num(120),
        out: empt,
    }));
    assert(crate::eval::eval_top(stmts, e0, ValV::Num(-1)) == (crate::eval::PRes::Val {
        v: ValV::Num(120),
        out: empt,
    }));
}

} // verus!

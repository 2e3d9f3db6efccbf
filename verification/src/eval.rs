//! Runtime values, the environment (scope chain), and the evaluator.
//!
//! The evaluator is specified against a mathematical interpreter over the
//! models `AstV`, `ValV` and `EnvV`.  Because a user program may recurse
//! without bound, both the interpreter and the executable evaluator carry a
//! fuel argument that bounds the depth of nested evaluations; a run that
//! exhausts the (very large) depth budget ends in a `RunErr`.

use vstd::prelude::*;

use crate::parse::{
    ast_seq_view, ast_view, clone_ast_vec, is_digit, is_numeral, numeral_val, str_eq, AstNode,
    AstV,
};

verus! {

/// A runtime value.
///
/// `Fun` carries the function's own (defining) name, the parameter list,
/// the body statements, and the captured environment of the function; the
/// name is what each call binds to the function itself, over the captured
/// scope, so that the body can refer to the function even when it was
/// called under another name.  `MapVal` keeps its entries sorted by key
/// with no key repeated.  `Unit` stands for the absence of a meaningful
/// result, as produced by a function definition.
#[derive(Debug, PartialEq)]
pub enum Value {
    MapVal(Vec<(Value, Value)>),
    Num(i32),
    Fun(String, Vec<AstNode>, Vec<AstNode>, Box<Env>),
    String(String),
    Bool(bool),
    Unit,
}

/// A runtime error: a single kind carrying a human-readable message.
#[derive(Debug, Clone, PartialEq, Eq, PartialOrd, Ord)]
pub struct RunErr(pub String);

/// A scope: bindings made at this level, plus the enclosing scope, if any.
///
/// Bindings are kept in insertion order; a later binding of a name hides an
/// earlier one, so re-binding a name overwrites it as far as lookup can
/// observe.  An ordinary child scope owns a private copy of its parent taken
/// when the child is created: later changes to the parent are not visible
/// through the child.
#[derive(Debug, PartialEq)]
pub struct Env {
    env: Vec<(String, Value)>,
    parent: Option<Box<Env>>,
}

/// The mathematical model of a runtime value.
pub enum ValV {
    MapVal(Seq<(ValV, ValV)>),
    Num(int),
    Fun(Seq<char>, Seq<AstV>, Seq<AstV>, Box<EnvV>),
    String(Seq<char>),
    Bool(bool),
    Unit,
}

/// The mathematical model of a scope chain.
#[verifier::ext_equal]
pub struct EnvV {
    pub bindings: Seq<(Seq<char>, ValV)>,
    pub parent: Option<Box<EnvV>>,
}

pub open spec fn val_view(v: Value) -> ValV
    decreases v, 0int,
{
    match v {
        Value::MapVal(entries) => ValV::MapVal(val_pair_seq_view(entries@)),
        Value::Num(n) => ValV::Num(n as int),
        Value::Fun(name, args, body, env) => ValV::Fun(
            name@,
            ast_seq_view(args@),
            ast_seq_view(body@),
            Box::new(env_view(*env)),
        ),
        Value::String(s) => ValV::String(s@),
        Value::Bool(b) => ValV::Bool(b),
        Value::Unit => ValV::Unit,
    }
}

pub open spec fn val_pair_seq_view(s: Seq<(Value, Value)>) -> Seq<(ValV, ValV)>
    decreases s, 1int,
{
    if s.len() == 0 {
        Seq::empty()
    } else {
        val_pair_seq_view(s.drop_last()).push(
            (val_view(s.last().0), val_view(s.last().1)),
        )
    }
}

pub open spec fn val_seq_view(s: Seq<Value>) -> Seq<ValV>
    decreases s, 1int,
{
    if s.len() == 0 {
        Seq::empty()
    } else {
        val_seq_view(s.drop_last()).push(val_view(s.last()))
    }
}

pub open spec fn scope_view(s: Seq<(String, Value)>) -> Seq<(Seq<char>, ValV)>
    decreases s, 1int,
{
    if s.len() == 0 {
        Seq::empty()
    } else {
        scope_view(s.drop_last()).push((s.last().0@, val_view(s.last().1)))
    }
}

pub closed spec fn env_view(e: Env) -> EnvV
    decreases e, 2int,
{
    EnvV {
        bindings: scope_view(e.env@),
        parent: match e.parent {
            Option::Some(p) => Option::Some(Box::new(env_view(*p))),
            Option::None => Option::None,
        },
    }
}

impl View for Value {
    type V = ValV;

    open spec fn view(&self) -> ValV {
        val_view(*self)
    }
}

impl View for Env {
    type V = EnvV;

    open spec fn view(&self) -> EnvV {
        env_view(*self)
    }
}

impl View for RunErr {
    type V = Seq<char>;

    open spec fn view(&self) -> Seq<char> {
        self.0@
    }
}

pub proof fn lemma_val_seq_view_index(s: Seq<Value>)
    ensures
        val_seq_view(s).len() == s.len(),
        forall|i: int| 0 <= i < s.len() ==> #[trigger] val_seq_view(s)[i] == val_view(s[i]),
    decreases s.len(),
{
    if s.len() > 0 {
        lemma_val_seq_view_index(s.drop_last());
    }
}

pub proof fn lemma_scope_view_index(s: Seq<(String, Value)>)
    ensures
        scope_view(s).len() == s.len(),
        forall|i: int| 0 <= i < s.len()
            ==> #[trigger] scope_view(s)[i] == (s[i].0@, val_view(s[i].1)),
    decreases s.len(),
{
    if s.len() > 0 {
        lemma_scope_view_index(s.drop_last());
    }
}

/// The scope chain with no bindings and no parent: the root of a fresh run.
pub open spec fn empty_env() -> EnvV {
    EnvV { bindings: Seq::empty(), parent: Option::None }
}

/// A fresh scope whose parent is (a private copy of) `e`.
pub open spec fn child_of(e: EnvV) -> EnvV {
    EnvV { bindings: Seq::empty(), parent: Option::Some(Box::new(e)) }
}

/// `e` with `name` bound to `v` in its innermost scope.
pub open spec fn env_bind(e: EnvV, name: Seq<char>, v: ValV) -> EnvV {
    EnvV { bindings: e.bindings.push((name, v)), parent: e.parent }
}

pub open spec fn scope_lookup(bindings: Seq<(Seq<char>, ValV)>, name: Seq<char>) -> Option<ValV>
    decreases bindings.len(),
{
    if bindings.len() == 0 {
        Option::None
    } else if bindings.last().0 == name {
        Option::Some(bindings.last().1)
    } else {
        scope_lookup(bindings.drop_last(), name)
    }
}

/// Identifier resolution: the innermost binding of `name`, searching the
/// current scope first and the enclosing scopes outward from it.
pub open spec fn env_lookup(e: EnvV, name: Seq<char>) -> Option<ValV>
    decreases e,
{
    match scope_lookup(e.bindings, name) {
        Option::Some(v) => Option::Some(v),
        Option::None => match e.parent {
            Option::Some(p) => env_lookup(*p, name),
            Option::None => Option::None,
        },
    }
}

// ---------------------------------------------------------------------------
// Error messages
// ---------------------------------------------------------------------------
pub open spec fn msg_fuel() -> Seq<char> {
    "Error: evaluation depth limit exceeded"@
}

pub open spec fn msg_undef_idt(name: Seq<char>) -> Seq<char> {
    "Error: identifier "@ + name + " is not defined"@
}

pub open spec fn msg_undef_fun(name: Seq<char>) -> Seq<char> {
    "Error function "@ + name + " is not defined"@
}

pub open spec fn msg_not_fun(name: Seq<char>) -> Seq<char> {
    "Error: "@ + name + " is not a function"@
}

pub open spec fn msg_operands() -> Seq<char> {
    "Error: arithmetic on values that are not numbers"@
}

pub open spec fn msg_overflow() -> Seq<char> {
    "Error: arithmetic overflow"@
}

pub open spec fn msg_div_zero() -> Seq<char> {
    "Error: division by zero"@
}

pub open spec fn msg_neg_exp() -> Seq<char> {
    "Error: negative exponent"@
}

pub open spec fn msg_no_match() -> Seq<char> {
    "Error: no branch matched"@
}

pub open spec fn msg_bad_key() -> Seq<char> {
    "Error: map key has no order"@
}

pub open spec fn msg_bad_ast() -> Seq<char> {
    "Error: malformed syntax tree"@
}

pub open spec fn msg_empty_body() -> Seq<char> {
    "Error when evaluating function"@
}

// ---------------------------------------------------------------------------
// The mathematical interpreter
// ---------------------------------------------------------------------------
/// The outcome of evaluating one expression: a value, the environment after
/// the evaluation, and the values emitted by `put` along the way; or an
/// error message with whatever had been emitted before the error.
#[verifier::ext_equal]
pub enum ERes {
    Val { v: ValV, env: EnvV, out: Seq<ValV> },
    Fail { msg: Seq<char>, out: Seq<ValV> },
}

/// The outcome of a whole program run.
#[verifier::ext_equal]
pub enum PRes {
    Val { v: ValV, out: Seq<ValV> },
    Fail { msg: Seq<char>, out: Seq<ValV> },
}

/// Outcome of evaluating a list of argument expressions.
#[verifier::ext_equal]
pub enum ARes {
    Vals { vs: Seq<ValV>, out: Seq<ValV> },
    Fail { msg: Seq<char>, out: Seq<ValV> },
}

/// Outcome of building a call frame.
#[verifier::ext_equal]
pub enum BRes {
    Frame { frame: EnvV, out: Seq<ValV> },
    Fail { msg: Seq<char>, out: Seq<ValV> },
}

/// Outcome of evaluating the entries of a map literal.
#[verifier::ext_equal]
pub enum MRes {
    Entries { es: Seq<(ValV, ValV)>, out: Seq<ValV> },
    Fail { msg: Seq<char>, out: Seq<ValV> },
}

pub open spec fn in_i32(x: int) -> bool {
    -0x8000_0000 <= x <= 0x7fff_ffff
}

pub open spec fn abs_int(x: int) -> int {
    if x < 0 {
        -x
    } else {
        x
    }
}

/// Integer division truncating toward zero, as the language's `/` does.
pub open spec fn div_trunc(a: int, b: int) -> int
    recommends
        b != 0,
{
    if (a < 0) != (b < 0) {
        -(abs_int(a) / abs_int(b))
    } else {
        abs_int(a) / abs_int(b)
    }
}

pub open spec fn pow_int(a: int, e: nat) -> int
    decreases e,
{
    if e == 0 {
        1
    } else {
        pow_int(a, (e - 1) as nat) * a
    }
}

/// Whether every partial product of the left-to-right exponentiation loop
/// stays a number: the condition under which `**` succeeds.
pub open spec fn pow_in_range(a: int, e: nat) -> bool
    decreases e,
{
    if e == 0 {
        true
    } else {
        pow_in_range(a, (e - 1) as nat) && in_i32(pow_int(a, e))
    }
}

/// What a binary operator does to two already-evaluated operands.
pub open spec fn apply_binop(op: AstV, a: ValV, b: ValV) -> Result<ValV, Seq<char>> {
    match (a, b) {
        (ValV::Num(x), ValV::Num(y)) => match op {
            AstV::Add => if in_i32(x + y) {
                Result::Ok(ValV::Num(x + y))
            } else {
                Result::Err(msg_overflow())
            },
            AstV::Sub => if in_i32(x - y) {
                Result::Ok(ValV::Num(x - y))
            } else {
                Result::Err(msg_overflow())
            },
            AstV::Mul => if in_i32(x * y) {
                Result::Ok(ValV::Num(x * y))
            } else {
                Result::Err(msg_overflow())
            },
            AstV::Div => if y == 0 {
                Result::Err(msg_div_zero())
            } else if in_i32(div_trunc(x, y)) {
                Result::Ok(ValV::Num(div_trunc(x, y)))
            } else {
                Result::Err(msg_overflow())
            },
            AstV::Pow => if y < 0 {
                Result::Err(msg_neg_exp())
            } else if pow_in_range(x, y as nat) {
                Result::Ok(ValV::Num(pow_int(x, y as nat)))
            } else {
                Result::Err(msg_overflow())
            },
            _ => Result::Err(msg_bad_ast()),
        },
        _ => Result::Err(msg_operands()),
    }
}

/// Rank of a value among the kinds a map key may have; kinds without a rank
/// below 3 cannot be keys.
pub open spec fn key_rank(v: ValV) -> int {
    match v {
        ValV::Num(_) => 0,
        ValV::String(_) => 1,
        ValV::Bool(_) => 2,
        _ => 3,
    }
}

pub open spec fn is_key(v: ValV) -> bool {
    key_rank(v) < 3
}

/// Lexicographic order on text, by character code.
pub open spec fn str_lt(a: Seq<char>, b: Seq<char>) -> bool
    decreases a.len(),
{
    if b.len() == 0 {
        false
    } else if a.len() == 0 {
        true
    } else if a[0] != b[0] {
        (a[0] as u32) < (b[0] as u32)
    } else {
        str_lt(a.skip(1), b.skip(1))
    }
}

/// The total order on map keys: by rank, then within a rank by the value.
pub open spec fn key_lt(a: ValV, b: ValV) -> bool {
    match (a, b) {
        (ValV::Num(x), ValV::Num(y)) => x < y,
        (ValV::String(x), ValV::String(y)) => str_lt(x, y),
        (ValV::Bool(x), ValV::Bool(y)) => !x && y,
        _ => key_rank(a) < key_rank(b),
    }
}

/// Insertion into a key-sorted entry list: an entry with an equal key is
/// replaced in place, otherwise the new entry lands before the first key
/// that is not below it.
pub open spec fn map_insert(entries: Seq<(ValV, ValV)>, k: ValV, v: ValV) -> Seq<(ValV, ValV)>
    decreases entries.len(),
{
    if entries.len() == 0 {
        seq![(k, v)]
    } else if key_lt(entries[0].0, k) {
        seq![entries[0]] + map_insert(entries.skip(1), k, v)
    } else if entries[0].0 == k {
        seq![(k, v)] + entries.skip(1)
    } else {
        seq![(k, v)] + entries
    }
}

/// The one builtin: `put`, which emits its arguments' values.
pub open spec fn is_builtin(name: Seq<char>) -> bool {
    name == "put"@
}

/// Depth budget for nested evaluations in one top-level statement.
pub const EVAL_FUEL: u64 = 100000;

/// One step of the interpreter: the meaning of evaluating node `n` in
/// environment `env` with `fuel` nested evaluations still allowed.
pub open spec fn eval_node(n: AstV, env: EnvV, fuel: nat) -> ERes
    decreases fuel, 0int, 0int,
{
    if fuel == 0 {
        ERes::Fail { msg: msg_fuel(), out: Seq::empty() }
    } else {
        let f = (fuel - 1) as nat;
        match n {
            AstV::Expr(e) => eval_node(*e, env, f),
            AstV::Idt(s) => spec_idt(s, env),
            AstV::Num(s) => spec_num(s, env),
            AstV::Str(s) => ERes::Val { v: ValV::String(s), env, out: Seq::empty() },
            AstV::BinAdd(l, op, r) => spec_binop(*l, *op, *r, env, f),
            AstV::BinMul(l, op, r) => spec_binop(*l, *op, *r, env, f),
            AstV::BinPow(l, op, r) => spec_binop(*l, *op, *r, env, f),
            AstV::Let(x, e) => spec_ltd(x, *e, env, f),
            AstV::Fun(name, args, body) => spec_fun(name, args, body, env),
            AstV::Funcall(name, params) => spec_funcall(name, params, env, f),
            AstV::Match(h, cases) => spec_match(*h, cases, env, f),
            AstV::MapLit(pairs) => spec_map(pairs, env, f),
            _ => ERes::Fail { msg: msg_bad_ast(), out: Seq::empty() },
        }
    }
}

/// An identifier names the innermost binding; a miss is an error that names
/// the identifier.
pub open spec fn spec_idt(s: Seq<char>, env: EnvV) -> ERes {
    match env_lookup(env, s) {
        Option::Some(v) => ERes::Val { v, env, out: Seq::empty() },
        Option::None => ERes::Fail { msg: msg_undef_idt(s), out: Seq::empty() },
    }
}

/// A numeral evaluates to its base-ten value.
pub open spec fn spec_num(s: Seq<char>, env: EnvV) -> ERes {
    if is_numeral(s) {
        ERes::Val { v: ValV::Num(numeral_val(s)), env, out: Seq::empty() }
    } else {
        ERes::Fail { msg: msg_bad_ast(), out: Seq::empty() }
    }
}

/// Both operands are evaluated, each in a fresh child scope of the current
/// one, left first; the operator is then applied to the two numbers.
pub open spec fn spec_binop(l: AstV, op: AstV, r: AstV, env: EnvV, fuel: nat) -> ERes
    decreases fuel, 2int, 0int,
{
    match eval_node(l, child_of(env), fuel) {
        ERes::Fail { msg, out } => ERes::Fail { msg, out },
        ERes::Val { v: lv, out: out1, .. } => match eval_node(r, child_of(env), fuel) {
            ERes::Fail { msg, out } => ERes::Fail { msg, out: out1 + out },
            ERes::Val { v: rv, out: out2, .. } => match apply_binop(op, lv, rv) {
                Result::Ok(v) => ERes::Val { v, env, out: out1 + out2 },
                Result::Err(msg) => ERes::Fail { msg, out: out1 + out2 },
            },
        },
    }
}

/// `let` evaluates its right-hand side in a child scope, binds the result
/// under the name in the current scope, and yields that same value.
pub open spec fn spec_ltd(x: Seq<char>, e: AstV, env: EnvV, fuel: nat) -> ERes
    decreases fuel, 2int, 0int,
{
    match eval_node(e, child_of(env), fuel) {
        ERes::Fail { msg, out } => ERes::Fail { msg, out },
        ERes::Val { v, out, .. } => ERes::Val { v, env: env_bind(env, x, v), out },
    }
}

/// A function definition captures a fresh child of the defining scope and
/// binds the function under its own name in the defining scope; the
/// definition itself evaluates to `Unit`.  The function value remembers
/// its defining name: each call extends the captured scope with a binding
/// of that name to the function itself (see `spec_funcall`), which is the
/// self-binding that makes the body's references to the name resolve to
/// the function, however the call was made.  Re-establishing the binding
/// at each call is observably the same as holding one shared captured
/// scope extended once at the definition, because that scope is only ever
/// read when a call is made; it keeps the value a finite tree, which a
/// cyclic self-reference would not be.
pub open spec fn spec_fun(name: Seq<char>, args: Seq<AstV>, body: Seq<AstV>, env: EnvV) -> ERes {
    let fv = ValV::Fun(name, args, body, Box::new(child_of(env)));
    ERes::Val { v: ValV::Unit, env: env_bind(env, name, fv), out: Seq::empty() }
}

/// Argument expressions for the builtin, each evaluated in a fresh child
/// scope of the caller, left to right.
pub open spec fn spec_args(params: Seq<AstV>, env: EnvV, fuel: nat) -> ARes
    decreases fuel, 1int, params.len(),
{
    if params.len() == 0 {
        ARes::Vals { vs: Seq::empty(), out: Seq::empty() }
    } else {
        match eval_node(params[0], child_of(env), fuel) {
            ERes::Fail { msg, out } => ARes::Fail { msg, out },
            ERes::Val { v, out, .. } => match spec_args(params.skip(1), env, fuel) {
                ARes::Fail { msg, out: o2 } => ARes::Fail { msg, out: out + o2 },
                ARes::Vals { vs, out: o2 } => ARes::Vals { vs: seq![v] + vs, out: out + o2 },
            },
        }
    }
}

/// Building a call frame: each parameter name is bound, in order, to its
/// argument's value; each argument is evaluated in a fresh child scope of
/// the caller.  Surplus names or arguments beyond the shorter list are
/// ignored.
pub open spec fn spec_bind_args(
    args: Seq<AstV>,
    params: Seq<AstV>,
    env: EnvV,
    frame: EnvV,
    fuel: nat,
) -> BRes
    decreases fuel, 1int, params.len(),
{
    if args.len() == 0 || params.len() == 0 {
        BRes::Frame { frame, out: Seq::empty() }
    } else {
        match args[0] {
            AstV::Idt(x) => match eval_node(params[0], child_of(env), fuel) {
                ERes::Fail { msg, out } => BRes::Fail { msg, out },
                ERes::Val { v, out, .. } => match spec_bind_args(
                    args.skip(1),
                    params.skip(1),
                    env,
                    env_bind(frame, x, v),
                    fuel,
                ) {
                    BRes::Fail { msg, out: o2 } => BRes::Fail { msg, out: out + o2 },
                    BRes::Frame { frame: fr, out: o2 } => BRes::Frame { frame: fr, out: out + o2 },
                },
            },
            _ => BRes::Fail { msg: msg_bad_ast(), out: Seq::empty() },
        }
    }
}

/// The builtin `put`: all its arguments are evaluated first; only when
/// every one of them succeeded are their values emitted, in order.  The
/// call itself yields `Unit` and never touches the caller's environment.
pub open spec fn spec_put(params: Seq<AstV>, env: EnvV, fuel: nat) -> ERes
    decreases fuel, 1int, params.len() + 1,
{
    match spec_args(params, env, fuel) {
        ARes::Fail { msg, out } => ERes::Fail { msg, out },
        ARes::Vals { vs, out } => ERes::Val { v: ValV::Unit, env, out: out + vs },
    }
}

/// A function body: every statement in sequence, in one frame threaded
/// through, the last statement's value being the result.  An empty body is
/// an error.
pub open spec fn spec_stmts(stmts: Seq<AstV>, env: EnvV, fuel: nat) -> ERes
    decreases fuel, 1int, stmts.len(),
{
    if stmts.len() == 0 {
        ERes::Fail { msg: msg_empty_body(), out: Seq::empty() }
    } else if stmts.len() == 1 {
        eval_node(stmts[0], env, fuel)
    } else {
        match eval_node(stmts[0], env, fuel) {
            ERes::Fail { msg, out } => ERes::Fail { msg, out },
            ERes::Val { env: e2, out, .. } => match spec_stmts(stmts.skip(1), e2, fuel) {
                ERes::Fail { msg, out: o2 } => ERes::Fail { msg, out: out + o2 },
                ERes::Val { v, env: e3, out: o2 } => ERes::Val { v, env: e3, out: out + o2 },
            },
        }
    }
}

/// A call: the builtin table is consulted first; otherwise the callee is
/// resolved in the caller's environment.  The callee's captured scope is
/// extended with a binding of the callee's defining name to the callee
/// itself — the self-binding that lets the body refer to the function even
/// when the call went through another name.  The frame is a fresh scope
/// layered over that extended captured scope; the parameters are bound in
/// it, the name used at the call site is re-bound in it, and the body runs
/// there.  The caller's environment is unchanged by the call.
pub open spec fn spec_funcall(name: Seq<char>, params: Seq<AstV>, env: EnvV, fuel: nat) -> ERes
    decreases fuel, 2int, 0int,
{
    if is_builtin(name) {
        spec_put(params, env, fuel)
    } else {
        match env_lookup(env, name) {
            Option::None => ERes::Fail { msg: msg_undef_fun(name), out: Seq::empty() },
            Option::Some(ValV::Fun(fname, args, body, fenv)) => {
                let fv = ValV::Fun(fname, args, body, fenv);
                let ext = env_bind(*fenv, fname, fv);
                match spec_bind_args(args, params, env, child_of(ext), fuel) {
                    BRes::Fail { msg, out } => ERes::Fail { msg, out },
                    BRes::Frame { frame, out } => {
                        let frame2 = env_bind(frame, name, fv);
                        match spec_stmts(body, frame2, fuel) {
                            ERes::Fail { msg, out: o2 } => ERes::Fail { msg, out: out + o2 },
                            ERes::Val { v, out: o2, .. } => ERes::Val { v, env, out: out + o2 },
                        }
                    },
                }
            },
            Option::Some(_) => ERes::Fail { msg: msg_not_fun(name), out: Seq::empty() },
        }
    }
}

/// Branches in source order: a `Default` pattern always fires; an
/// expression pattern fires when it and the discriminant are equal numbers.
/// Pattern and body each run in their own fresh child scope.
pub open spec fn spec_branches(d: ValV, cases: Seq<AstV>, env: EnvV, fuel: nat) -> ERes
    decreases fuel, 1int, cases.len(),
{
    if cases.len() == 0 {
        ERes::Fail { msg: msg_no_match(), out: Seq::empty() }
    } else {
        match cases[0] {
            AstV::Branch(p, b) => if *p == AstV::Default {
                match eval_node(*b, child_of(env), fuel) {
                    ERes::Fail { msg, out } => ERes::Fail { msg, out },
                    ERes::Val { v, out, .. } => ERes::Val { v, env, out },
                }
            } else {
                match eval_node(*p, child_of(env), fuel) {
                    ERes::Fail { msg, out } => ERes::Fail { msg, out },
                    ERes::Val { v: pv, out: o1, .. } => if d matches ValV::Num(x) && pv matches
                        ValV::Num(y) && x == y {
                        match eval_node(*b, child_of(env), fuel) {
                            ERes::Fail { msg, out: o2 } => ERes::Fail { msg, out: o1 + o2 },
                            ERes::Val { v, out: o2, .. } => ERes::Val { v, env, out: o1 + o2 },
                        }
                    } else {
                        match spec_branches(d, cases.skip(1), env, fuel) {
                            ERes::Fail { msg, out: o2 } => ERes::Fail { msg, out: o1 + o2 },
                            ERes::Val { v, out: o2, .. } => ERes::Val { v, env, out: o1 + o2 },
                        }
                    },
                }
            },
            _ => ERes::Fail { msg: msg_bad_ast(), out: Seq::empty() },
        }
    }
}

/// `match`: the discriminant is evaluated once in a fresh child scope, then
/// the branches are tried in order.
pub open spec fn spec_match(h: AstV, cases: Seq<AstV>, env: EnvV, fuel: nat) -> ERes
    decreases fuel, 2int, 0int,
{
    match eval_node(h, child_of(env), fuel) {
        ERes::Fail { msg, out } => ERes::Fail { msg, out },
        ERes::Val { v: d, out: o0, .. } => match spec_branches(d, cases, env, fuel) {
            ERes::Fail { msg, out } => ERes::Fail { msg, out: o0 + out },
            ERes::Val { v, out, .. } => ERes::Val { v, env, out: o0 + out },
        },
    }
}

/// The entries of a map literal, left to right.  A key written as a bare
/// identifier is quoted: it becomes the string of its own name, never a
/// variable reference.  Any other key expression is evaluated and must
/// yield a value with an order.
pub open spec fn spec_pairs(
    pairs: Seq<(AstV, AstV)>,
    env: EnvV,
    fuel: nat,
    acc: Seq<(ValV, ValV)>,
) -> MRes
    decreases fuel, 1int, pairs.len(),
{
    if pairs.len() == 0 {
        MRes::Entries { es: acc, out: Seq::empty() }
    } else {
        let kn = pairs[0].0;
        let vn = pairs[0].1;
        match spec_key(kn, env, fuel) {
            MKey::Fail { msg, out } => MRes::Fail { msg, out },
            MKey::Key { k, out: ko } => match eval_node(vn, child_of(env), fuel) {
                ERes::Fail { msg, out } => MRes::Fail { msg, out: ko + out },
                ERes::Val { v, out: vo, .. } => match spec_pairs(
                    pairs.skip(1),
                    env,
                    fuel,
                    map_insert(acc, k, v),
                ) {
                    MRes::Fail { msg, out: o3 } => MRes::Fail { msg, out: ko + vo + o3 },
                    MRes::Entries { es, out: o3 } => MRes::Entries { es, out: ko + vo + o3 },
                },
            },
        }
    }
}

/// Outcome of obtaining one map key.
#[verifier::ext_equal]
pub enum MKey {
    Key { k: ValV, out: Seq<ValV> },
    Fail { msg: Seq<char>, out: Seq<ValV> },
}

/// One map key: quoted if a bare identifier, else evaluated in a fresh
/// child scope and required to have an order.
pub open spec fn spec_key(kn: AstV, env: EnvV, fuel: nat) -> MKey
    decreases fuel, 0int, 1int,
{
    match kn {
        AstV::Idt(name) => MKey::Key { k: ValV::String(name), out: Seq::empty() },
        _ => match eval_node(kn, child_of(env), fuel) {
            ERes::Fail { msg, out } => MKey::Fail { msg, out },
            ERes::Val { v, out, .. } => if is_key(v) {
                MKey::Key { k: v, out }
            } else {
                MKey::Fail { msg: msg_bad_key(), out }
            },
        },
    }
}

/// A map literal: its evaluated entries, sorted by key, later entries
/// replacing earlier ones with an equal key.
pub open spec fn spec_map(pairs: Seq<(AstV, AstV)>, env: EnvV, fuel: nat) -> ERes
    decreases fuel, 2int, 0int,
{
    match spec_pairs(pairs, env, fuel, Seq::empty()) {
        MRes::Fail { msg, out } => ERes::Fail { msg, out },
        MRes::Entries { es, out } => ERes::Val { v: ValV::MapVal(es), env, out },
    }
}

/// A whole program: the top-level statements in order, one environment
/// threaded through all of them, each statement given a fresh depth budget;
/// end-of-input markers contribute nothing.  The result is the last
/// statement's value, or `Num(-1)` for a program with no statements; the
/// first error halts the run.
pub open spec fn eval_top(stmts: Seq<AstV>, env: EnvV, cur: ValV) -> PRes
    decreases stmts.len(),
{
    if stmts.len() == 0 {
        PRes::Val { v: cur, out: Seq::empty() }
    } else {
        match stmts[0] {
            AstV::EOI => eval_top(stmts.skip(1), env, cur),
            AstV::Expr(e) => match eval_node(*e, env, EVAL_FUEL as nat) {
                ERes::Fail { msg, out } => PRes::Fail { msg, out },
                ERes::Val { v, env: e2, out } => match eval_top(stmts.skip(1), e2, v) {
                    PRes::Fail { msg, out: o2 } => PRes::Fail { msg, out: out + o2 },
                    PRes::Val { v: v2, out: o2 } => PRes::Val { v: v2, out: out + o2 },
                },
            },
            _ => PRes::Fail { msg: msg_bad_ast(), out: Seq::empty() },
        }
    }
}

/// The meaning of running a program node.
pub open spec fn eval_prgm_spec(prog: AstV) -> PRes {
    match prog {
        AstV::Program(stmts) => eval_top(stmts, empty_env(), ValV::Num(-1)),
        _ => PRes::Fail { msg: msg_bad_ast(), out: Seq::empty() },
    }
}

// ---------------------------------------------------------------------------
// Relating the executable evaluator to the interpreter
// ---------------------------------------------------------------------------
/// What the executable evaluator owes the interpreter: the same value or
/// message, the specified environment after a success and an untouched one
/// after a failure, and exactly the specified values appended to the output.
pub open spec fn obeys(
    res: ERes,
    env0: EnvV,
    env1: EnvV,
    r: Result<Value, RunErr>,
    out0: Seq<ValV>,
    out1: Seq<ValV>,
) -> bool {
    match res {
        ERes::Val { v, env, out } => r matches Result::Ok(val) && val@ == v && env1 == env && out1
            =~= out0 + out,
        ERes::Fail { msg, out } => r matches Result::Err(e) && e@ == msg && env1 == env0 && out1
            =~= out0 + out,
    }
}

pub open spec fn eres_prepend(o: Seq<ValV>, r: ERes) -> ERes {
    match r {
        ERes::Val { v, env, out } => ERes::Val { v, env, out: o + out },
        ERes::Fail { msg, out } => ERes::Fail { msg, out: o + out },
    }
}

pub open spec fn bres_prepend(o: Seq<ValV>, r: BRes) -> BRes {
    match r {
        BRes::Frame { frame, out } => BRes::Frame { frame, out: o + out },
        BRes::Fail { msg, out } => BRes::Fail { msg, out: o + out },
    }
}

pub open spec fn ares_prepend(o: Seq<ValV>, r: ARes) -> ARes {
    match r {
        ARes::Vals { vs, out } => ARes::Vals { vs, out: o + out },
        ARes::Fail { msg, out } => ARes::Fail { msg, out: o + out },
    }
}

pub open spec fn mres_prepend(o: Seq<ValV>, r: MRes) -> MRes {
    match r {
        MRes::Entries { es, out } => MRes::Entries { es, out: o + out },
        MRes::Fail { msg, out } => MRes::Fail { msg, out: o + out },
    }
}

fn err_str(m: &str) -> (e: RunErr)
    ensures
        e@ == m@,
{
    RunErr(m.to_owned())
}

fn err_name(pre: &str, mid: &str, post: &str) -> (e: RunErr)
    ensures
        e@ == pre@ + mid@ + post@,
{
    let mut s = pre.to_owned();
    s.append(mid);
    s.append(post);
    RunErr(s)
}

// ---------------------------------------------------------------------------
// Arithmetic helpers
// ---------------------------------------------------------------------------
pub proof fn lemma_numeral_nonneg(s: Seq<char>)
    requires
        forall|i: int| 0 <= i < s.len() ==> is_digit(#[trigger] s[i]),
    ensures
        numeral_val(s) >= 0,
    decreases s.len(),
{
    if s.len() > 0 {
        lemma_numeral_nonneg(s.drop_last());
    }
}

proof fn lemma_numeral_prefix_le(s: Seq<char>, j: int)
    requires
        0 <= j <= s.len(),
        forall|i: int| 0 <= i < s.len() ==> is_digit(#[trigger] s[i]),
    ensures
        numeral_val(s.take(j)) <= numeral_val(s),
    decreases s.len() - j,
{
    if j == s.len() {
        assert(s.take(j) =~= s);
    } else {
        lemma_numeral_prefix_le(s, j + 1);
        assert(s.take(j + 1).drop_last() =~= s.take(j));
        assert(forall|i: int| 0 <= i < s.take(j).len() ==> is_digit(#[trigger] s.take(j)[i]));
        lemma_numeral_nonneg(s.take(j));
    }
}

proof fn lemma_pow_in_range_mono(a: int, k: nat, e: nat)
    requires
        k <= e,
        pow_in_range(a, e),
    ensures
        pow_in_range(a, k),
    decreases e,
{
    if k < e {
        lemma_pow_in_range_mono(a, k, (e - 1) as nat);
    }
}

/// What a binary operator does to two evaluated operands, executably.
#[verifier::loop_isolation(false)]
fn apply_binop_exec(op: &AstNode, a: &Value, b: &Value) -> (r: Result<Value, RunErr>)
    ensures
        match apply_binop(op@, a@, b@) {
            Result::Ok(v) => r matches Result::Ok(val) && val@ == v,
            Result::Err(m) => r matches Result::Err(e) && e@ == m,
        },
{
    match (a, b) {
        (Value::Num(x), Value::Num(y)) => {
            let x = *x;
            let y = *y;
            match op {
                AstNode::Add => match x.checked_add(y) {
                    Option::Some(v) => Result::Ok(Value::Num(v)),
                    Option::None => Result::Err(err_str("Error: arithmetic overflow")),
                },
                AstNode::Sub => match x.checked_sub(y) {
                    Option::Some(v) => Result::Ok(Value::Num(v)),
                    Option::None => Result::Err(err_str("Error: arithmetic overflow")),
                },
                AstNode::Mul => match x.checked_mul(y) {
                    Option::Some(v) => Result::Ok(Value::Num(v)),
                    Option::None => Result::Err(err_str("Error: arithmetic overflow")),
                },
                AstNode::Div => {
                    if y == 0 {
                        return Result::Err(err_str("Error: division by zero"));
                    }
                    let ux: u64 = if x >= 0 {
                        x as u64
                    } else {
                        (-(x as i64)) as u64
                    };
                    let uy: u64 = if y >= 0 {
                        y as u64
                    } else {
                        (-(y as i64)) as u64
                    };
                    proof {
                        assert(ux == abs_int(x as int));
                        assert(uy == abs_int(y as int));
                    }
                    let q: u64 = ux / uy;
                    proof {
                        assert(q <= ux) by (nonlinear_arith)
                            requires
                                uy >= 1,
                                q == ux / uy,
                                ux >= 0,
                        ;
                    }
                    if (x < 0) != (y < 0) {
                        Result::Ok(Value::Num((-(q as i64)) as i32))
                    } else {
                        if q > 0x7fff_ffff {
                            return Result::Err(err_str("Error: arithmetic overflow"));
                        }
                        Result::Ok(Value::Num(q as i32))
                    }
                },
                AstNode::Pow => {
                    if y < 0 {
                        return Result::Err(err_str("Error: negative exponent"));
                    }
                    let e: u32 = y as u32;
                    let mut acc: i32 = 1;
                    let mut i: u32 = 0;
                    while i < e
                        invariant
                            0 <= i <= e,
                            acc as int == pow_int(x as int, i as nat),
                            pow_in_range(x as int, i as nat),
                        decreases e - i,
                    {
                        match acc.checked_mul(x) {
                            Option::Some(v) => {
                                acc = v;
                            },
                            Option::None => {
                                proof {
                                    assert(pow_int(x as int, (i + 1) as nat) == pow_int(
                                        x as int,
                                        i as nat,
                                    ) * x);
                                    assert(!pow_in_range(x as int, (i + 1) as nat));
                                    if pow_in_range(x as int, e as nat) {
                                        lemma_pow_in_range_mono(x as int, (i + 1) as nat, e as nat);
                                    }
                                }
                                return Result::Err(err_str("Error: arithmetic overflow"));
                            },
                        }
                        i = i + 1;
                    }
                    Result::Ok(Value::Num(acc))
                },
                _ => Result::Err(err_str("Error: malformed syntax tree")),
            }
        },
        _ => Result::Err(err_str("Error: arithmetic on values that are not numbers")),
    }
}

/// Literal handlers.
#[verifier::loop_isolation(false)]
fn eval_num(num: &String) -> (r: Result<Value, RunErr>)
    ensures
        is_numeral(num@) ==> (r matches Result::Ok(v) && v@ == ValV::Num(numeral_val(num@))),
        !is_numeral(num@) ==> (r matches Result::Err(e) && e@ == msg_bad_ast()),
{
    let s = num.as_str();
    let n = s.unicode_len();
    if n == 0 {
        return Result::Err(err_str("Error: malformed syntax tree"));
    }
    let mut acc: u64 = 0;
    let mut i: usize = 0;
    while i < n
        invariant
            i <= n,
            n == s@.len(),
            s@ == num@,
            forall|j: int| 0 <= j < i ==> is_digit(#[trigger] s@[j]),
            acc == numeral_val(s@.take(i as int)),
            acc <= 0x7fff_ffff,
        decreases n - i,
    {
        let c = s.get_char(i);
        if c < '0' || c > '9' {
            proof {
                assert(!is_digit(num@[i as int]));
            }
            return Result::Err(err_str("Error: malformed syntax tree"));
        }
        let d: u64 = (c as u32 as u64) - 48;
        acc = acc * 10 + d;
        proof {
            assert(s@.take(i + 1).drop_last() =~= s@.take(i as int));
            assert(s@.take(i + 1).last() == s@[i as int]);
        }
        i = i + 1;
        if acc > 0x7fff_ffff {
            proof {
                assert(numeral_val(s@.take(i as int)) > 0x7fff_ffff);
                if is_numeral(num@) {
                    lemma_numeral_prefix_le(num@, i as int);
                }
            }
            return Result::Err(err_str("Error: malformed syntax tree"));
        }
    }
    proof {
        assert(s@.take(n as int) =~= s@);
        lemma_numeral_nonneg(s@);
    }
    Result::Ok(Value::Num(acc as i32))
}

fn eval_str(s: &String) -> (r: Result<Value, RunErr>)
    ensures
        r matches Result::Ok(v) && v@ == ValV::String(s@),
{
    Result::Ok(Value::String(s.clone()))
}

/// An identifier resolves through the environment; a miss becomes an error
/// naming the identifier.
fn eval_idt(idt: &String, env: &Env) -> (r: Result<Value, RunErr>)
    ensures
        match spec_idt(idt@, env@) {
            ERes::Val { v, .. } => r matches Result::Ok(val) && val@ == v,
            ERes::Fail { msg, .. } => r matches Result::Err(e) && e@ == msg,
        },
{
    match env.get(idt.as_str()) {
        Option::Some(v) => Result::Ok(v),
        Option::None => Result::Err(
            err_name("Error: identifier ", idt.as_str(), " is not defined"),
        ),
    }
}

// ---------------------------------------------------------------------------
// Map keys: executable order, equality, and sorted insertion
// ---------------------------------------------------------------------------
pub proof fn lemma_val_pair_seq_view_index(s: Seq<(Value, Value)>)
    ensures
        val_pair_seq_view(s).len() == s.len(),
        forall|i: int| 0 <= i < s.len()
            ==> #[trigger] val_pair_seq_view(s)[i] == (val_view(s[i].0), val_view(s[i].1)),
    decreases s.len(),
{
    if s.len() > 0 {
        lemma_val_pair_seq_view_index(s.drop_last());
    }
}

proof fn lemma_str_lt_skip(a: Seq<char>, b: Seq<char>, i: int)
    requires
        0 <= i <= a.len(),
        i <= b.len(),
        forall|j: int| 0 <= j < i ==> a[j] == b[j],
    ensures
        str_lt(a, b) == str_lt(a.skip(i), b.skip(i)),
    decreases i,
{
    if i == 0 {
        assert(a.skip(0) =~= a);
        assert(b.skip(0) =~= b);
    } else {
        assert(a.skip(1).skip(i - 1) =~= a.skip(i));
        assert(b.skip(1).skip(i - 1) =~= b.skip(i));
        assert(forall|j: int| 0 <= j < i - 1 ==> a.skip(1)[j] == b.skip(1)[j]);
        lemma_str_lt_skip(a.skip(1), b.skip(1), i - 1);
    }
}

fn str_lt_exec(a: &str, b: &str) -> (r: bool)
    ensures
        r == str_lt(a@, b@),
{
    let la = a.unicode_len();
    let lb = b.unicode_len();
    let mut i: usize = 0;
    while i < la && i < lb
        invariant
            i <= la,
            i <= lb,
            la == a@.len(),
            lb == b@.len(),
            forall|j: int| 0 <= j < i ==> a@[j] == b@[j],
        decreases la - i,
    {
        let ca = a.get_char(i);
        let cb = b.get_char(i);
        if ca != cb {
            proof {
                lemma_str_lt_skip(a@, b@, i as int);
                assert(a@.skip(i as int)[0] == a@[i as int]);
                assert(b@.skip(i as int)[0] == b@[i as int]);
            }
            return (ca as u32) < (cb as u32);
        }
        i = i + 1;
    }
    proof {
        lemma_str_lt_skip(a@, b@, i as int);
    }
    la < lb
}

fn key_rank_exec(v: &Value) -> (r: u8)
    ensures
        r as int == key_rank(v@),
{
    match v {
        Value::Num(_) => 0,
        Value::String(_) => 1,
        Value::Bool(_) => 2,
        _ => 3,
    }
}

fn key_lt_exec(a: &Value, b: &Value) -> (r: bool)
    ensures
        r == key_lt(a@, b@),
{
    match (a, b) {
        (Value::Num(x), Value::Num(y)) => *x < *y,
        (Value::String(x), Value::String(y)) => str_lt_exec(x.as_str(), y.as_str()),
        (Value::Bool(x), Value::Bool(y)) => !*x && *y,
        _ => key_rank_exec(a) < key_rank_exec(b),
    }
}

fn key_eq_exec(a: &Value, b: &Value) -> (r: bool)
    requires
        is_key(a@),
        is_key(b@),
    ensures
        r == (a@ == b@),
{
    match (a, b) {
        (Value::Num(x), Value::Num(y)) => *x == *y,
        (Value::String(x), Value::String(y)) => str_eq(x.as_str(), y.as_str()),
        (Value::Bool(x), Value::Bool(y)) => *x == *y,
        _ => {
            proof {
                assert(a@ != b@);
            }
            false
        },
    }
}

/// Every key of an entry list is a value a key may have.
pub open spec fn entries_keys_ok(es: Seq<(ValV, ValV)>) -> bool {
    forall|i: int| 0 <= i < es.len() ==> is_key(#[trigger] es[i].0)
}

proof fn lemma_map_insert_keys(es: Seq<(ValV, ValV)>, k: ValV, v: ValV)
    requires
        entries_keys_ok(es),
        is_key(k),
    ensures
        entries_keys_ok(map_insert(es, k, v)),
    decreases es.len(),
{
    if es.len() > 0 && key_lt(es[0].0, k) {
        assert(forall|i: int| 0 <= i < es.skip(1).len() ==> is_key(#[trigger] es.skip(1)[i].0));
        lemma_map_insert_keys(es.skip(1), k, v);
    }
}

proof fn lemma_map_insert_split(es: Seq<(ValV, ValV)>, k: ValV, v: ValV, j: int)
    requires
        0 <= j <= es.len(),
        forall|i: int| 0 <= i < j ==> key_lt(#[trigger] es[i].0, k),
        j < es.len() ==> !key_lt(es[j].0, k),
    ensures
        map_insert(es, k, v) == if j < es.len() && es[j].0 == k {
            es.update(j, (k, v))
        } else {
            es.take(j) + seq![(k, v)] + es.skip(j)
        },
    decreases j,
{
    if j == 0 {
        if es.len() == 0 {
            assert(map_insert(es, k, v) =~= es.take(0) + seq![(k, v)] + es.skip(0));
        } else if es[0].0 == k {
            assert(seq![(k, v)] + es.skip(1) =~= es.update(0, (k, v)));
        } else {
            assert(seq![(k, v)] + es =~= es.take(0) + seq![(k, v)] + es.skip(0));
        }
    } else {
        let tail = es.skip(1);
        assert(forall|i: int| 0 <= i < j - 1 ==> key_lt(#[trigger] tail[i].0, k));
        lemma_map_insert_split(tail, k, v, j - 1);
        if j < es.len() && es[j].0 == k {
            assert(tail[j - 1].0 == k);
            assert(seq![es[0]] + tail.update(j - 1, (k, v)) =~= es.update(j, (k, v)));
        } else {
            assert(seq![es[0]] + (tail.take(j - 1) + seq![(k, v)] + tail.skip(j - 1)) =~= es.take(
                j,
            ) + seq![(k, v)] + es.skip(j));
        }
    }
}

/// Sorted insertion of one entry, replacing an entry with an equal key.
#[verifier::loop_isolation(false)]
fn insert_entry(entries: &mut Vec<(Value, Value)>, k: Value, v: Value)
    requires
        is_key(k@),
        entries_keys_ok(val_pair_seq_view(old(entries)@)),
    ensures
        val_pair_seq_view(final(entries)@) == map_insert(val_pair_seq_view(old(entries)@), k@, v@),
        entries_keys_ok(val_pair_seq_view(final(entries)@)),
{
    let ghost es = val_pair_seq_view(entries@);
    proof {
        lemma_val_pair_seq_view_index(entries@);
    }
    let n = entries.len();
    let mut j: usize = 0;
    while j < n && key_lt_exec(&entries[j].0, &k)
        invariant
            j <= n,
            n == entries.len(),
            forall|i: int| 0 <= i < j ==> key_lt(#[trigger] es[i].0, k@),
        decreases n - j,
    {
        j = j + 1;
    }
    proof {
        assert(j < n ==> !key_lt(es[j as int].0, k@));
        lemma_map_insert_split(es, k@, v@, j as int);
        lemma_map_insert_keys(es, k@, v@);
    }
    if j < n && key_eq_exec(&entries[j].0, &k) {
        let ghost before = entries@;
        entries[j] = (k, v);
        proof {
            lemma_val_pair_seq_view_index(entries@);
            assert(val_pair_seq_view(entries@) =~= es.update(j as int, (k@, v@)));
        }
    } else {
        let ghost before = entries@;
        entries.insert(j, (k, v));
        proof {
            lemma_val_pair_seq_view_index(entries@);
            assert(val_pair_seq_view(entries@) =~= es.take(j as int) + seq![(k@, v@)] + es.skip(
                j as int,
            ));
        }
    }
}

/// A deep copy of a value, equal to the original in the model.
#[verifier::loop_isolation(false)]
pub fn clone_value(v: &Value) -> (r: Value)
    ensures
        r@ == v@,
    decreases *v, 0int,
{
    match v {
        Value::MapVal(entries) => Value::MapVal(clone_val_pair_vec(entries)),
        Value::Num(n) => Value::Num(*n),
        Value::Fun(name, args, body, env) => Value::Fun(
            name.clone(),
            clone_ast_vec(args),
            clone_ast_vec(body),
            Box::new(clone_env(env)),
        ),
        Value::String(s) => Value::String(s.clone()),
        Value::Bool(b) => Value::Bool(*b),
        Value::Unit => Value::Unit,
    }
}

#[verifier::loop_isolation(false)]
pub fn clone_val_pair_vec(v: &Vec<(Value, Value)>) -> (r: Vec<(Value, Value)>)
    ensures
        val_pair_seq_view(r@) == val_pair_seq_view(v@),
    decreases *v, 1int,
{
    let mut r: Vec<(Value, Value)> = Vec::new();
    let mut i: usize = 0;
    while i < v.len()
        invariant
            i <= v.len(),
            val_pair_seq_view(r@) == val_pair_seq_view(v@.take(i as int)),
        decreases v.len() - i,
    {
        proof {
            assert(decreases_to!(*v, 1int => v@[i as int].0, 0int));
            assert(decreases_to!(*v, 1int => v@[i as int].1, 0int));
        }
        let ck = clone_value(&v[i].0);
        let cv = clone_value(&v[i].1);
        let ghost r0 = r@;
        r.push((ck, cv));
        proof {
            assert(r@.drop_last() =~= r0);
            assert(v@.take(i + 1).drop_last() =~= v@.take(i as int));
            assert(v@.take(i + 1).last() == v@[i as int]);
        }
        i = i + 1;
    }
    proof {
        assert(v@.take(v@.len() as int) =~= v@);
    }
    r
}

/// A deep copy of a scope chain, equal to the original in the model.
#[verifier::loop_isolation(false)]
pub fn clone_env(e: &Env) -> (r: Env)
    ensures
        r@ == e@,
    decreases *e, 2int,
{
    let mut scope: Vec<(String, Value)> = Vec::new();
    let mut i: usize = 0;
    while i < e.env.len()
        invariant
            i <= e.env.len(),
            scope_view(scope@) == scope_view(e.env@.take(i as int)),
        decreases e.env.len() - i,
    {
        proof {
            assert(decreases_to!(*e, 2int => e.env@[i as int].1, 0int));
        }
        let name = e.env[i].0.clone();
        let val = clone_value(&e.env[i].1);
        let ghost s0 = scope@;
        scope.push((name, val));
        proof {
            assert(scope@.drop_last() =~= s0);
            assert(e.env@.take(i + 1).drop_last() =~= e.env@.take(i as int));
            assert(e.env@.take(i + 1).last() == e.env@[i as int]);
        }
        i = i + 1;
    }
    proof {
        assert(e.env@.take(e.env@.len() as int) =~= e.env@);
    }
    let parent = match &e.parent {
        Option::Some(p) => Option::Some(Box::new(clone_env(p))),
        Option::None => Option::None,
    };
    Env { env: scope, parent }
}

impl Env {
    /// The root scope of a fresh run: no bindings, no parent.
    pub fn new() -> (r: Env)
        ensures
            r@ == empty_env(),
    {
        let v: Vec<(String, Value)> = Vec::new();
        proof {
            assert(v@ =~= Seq::<(String, Value)>::empty());
        }
        let r = Env { env: v, parent: Option::None };
        proof {
            assert(r.env == v);
            assert(v@.len() == 0);
            assert(scope_view(v@) == Seq::<(Seq<char>, ValV)>::empty());
            assert(env_view(r).bindings == Seq::<(Seq<char>, ValV)>::empty());
            assert(env_view(r).parent is None);
            assert(r@ == env_view(r));
            assert(r@ =~= empty_env());
        }
        r
    }

    /// A fresh empty scope whose parent is a private copy of `self`, taken
    /// now: later changes to `self` are not visible through the child.
    pub fn new_child(&self) -> (r: Env)
        ensures
            r@ == child_of(self@),
    {
        let v: Vec<(String, Value)> = Vec::new();
        proof {
            assert(v@ =~= Seq::<(String, Value)>::empty());
        }
        let c = clone_env(self);
        let r = Env { env: v, parent: Option::Some(Box::new(c)) };
        proof {
            assert(r.env == v);
            assert(scope_view(v@) == Seq::<(Seq<char>, ValV)>::empty());
            assert(env_view(r).bindings == Seq::<(Seq<char>, ValV)>::empty());
            assert(env_view(r).parent == Option::Some(Box::new(env_view(c))));
            assert(env_view(c) == self@);
            assert(r@ =~= child_of(self@));
        }
        r
    }

    /// Innermost-to-outermost resolution of `idt`; a copy of the first value
    /// found, or nothing.  A miss is not itself an error.
    #[verifier::loop_isolation(false)]
    pub fn get(&self, idt: &str) -> (r: Option<Value>)
        ensures
            match env_lookup(self@, idt@) {
                Option::Some(v) => r matches Option::Some(rv) && rv@ == v,
                Option::None => r is None,
            },
        decreases *self,
    {
        let n = self.env.len();
        proof {
            assert(self.env@.take(n as int) =~= self.env@);
        }
        let mut i: usize = n;
        while i > 0
            invariant
                i <= n,
                n == self.env.len(),
                scope_lookup(scope_view(self.env@.take(i as int)), idt@) == scope_lookup(
                    scope_view(self.env@),
                    idt@,
                ),
            decreases i,
        {
            i = i - 1;
            let hit = str_eq(self.env[i].0.as_str(), idt);
            proof {
                assert(self.env@.take(i + 1).drop_last() =~= self.env@.take(i as int));
                assert(self.env@.take(i + 1).last() == self.env@[i as int]);
                assert(scope_view(self.env@.take(i + 1)) == scope_view(
                    self.env@.take(i as int),
                ).push((self.env@[i as int].0@, val_view(self.env@[i as int].1))));
                assert(scope_view(self.env@.take(i as int)).push(
                    (self.env@[i as int].0@, val_view(self.env@[i as int].1)),
                ).drop_last() =~= scope_view(self.env@.take(i as int)));
            }
            if hit {
                return Option::Some(clone_value(&self.env[i].1));
            }
        }
        proof {
            assert(self.env@.take(0) =~= Seq::<(String, Value)>::empty());
        }
        match &self.parent {
            Option::Some(p) => {
                proof {
                    assert(decreases_to!(*self => **p));
                }
                p.get(idt)
            },
            Option::None => Option::None,
        }
    }

    /// Bind `idt` to `val` in this scope only, hiding any earlier binding of
    /// the same name here and any binding in an enclosing scope.
    pub fn insert(&mut self, idt: String, val: Value)
        ensures
            final(self)@ == env_bind(old(self)@, idt@, val@),
    {
        let ghost e0 = self.env@;
        let ghost v0 = val@;
        let ghost i0 = idt@;
        self.env.push((idt, val));
        proof {
            assert(self.env@.drop_last() =~= e0);
            assert(self.env@.last() == (idt, val));
            assert(scope_view(self.env@) == scope_view(e0).push((i0, v0)));
            assert(self@ =~= env_bind(old(self)@, i0, v0));
        }
    }
}

// ---------------------------------------------------------------------------
// Algebra of the outcome types
// ---------------------------------------------------------------------------
/// Collected values prefixed onto an argument-list outcome.
pub open spec fn ares_vals_prefix(vs0: Seq<ValV>, r: ARes) -> ARes {
    match r {
        ARes::Vals { vs, out } => ARes::Vals { vs: vs0 + vs, out },
        ARes::Fail { msg, out } => ARes::Fail { msg, out },
    }
}

pub open spec fn pres_prepend(o: Seq<ValV>, r: PRes) -> PRes {
    match r {
        PRes::Val { v, out } => PRes::Val { v, out: o + out },
        PRes::Fail { msg, out } => PRes::Fail { msg, out: o + out },
    }
}

proof fn lemma_concat_empty(s: Seq<ValV>)
    ensures
        s + Seq::<ValV>::empty() == s,
        Seq::<ValV>::empty() + s == s,
{
    assert(s + Seq::<ValV>::empty() =~= s);
    assert(Seq::<ValV>::empty() + s =~= s);
}

proof fn lemma_eres_prepend_empty(r: ERes)
    ensures
        eres_prepend(Seq::empty(), r) == r,
{
    match r {
        ERes::Val { v, env, out } => {
            lemma_concat_empty(out);
        },
        ERes::Fail { msg, out } => {
            lemma_concat_empty(out);
        },
    }
    assert(eres_prepend(Seq::empty(), r) =~= r);
}

proof fn lemma_eres_prepend_add(a: Seq<ValV>, b: Seq<ValV>, r: ERes)
    ensures
        eres_prepend(a, eres_prepend(b, r)) == eres_prepend(a + b, r),
{
    match r {
        ERes::Val { v, env, out } => {
            assert(a + (b + out) =~= (a + b) + out);
        },
        ERes::Fail { msg, out } => {
            assert(a + (b + out) =~= (a + b) + out);
        },
    }
    assert(eres_prepend(a, eres_prepend(b, r)) =~= eres_prepend(a + b, r));
}

proof fn lemma_bres_prepend_empty(r: BRes)
    ensures
        bres_prepend(Seq::empty(), r) == r,
{
    match r {
        BRes::Frame { frame, out } => {
            lemma_concat_empty(out);
        },
        BRes::Fail { msg, out } => {
            lemma_concat_empty(out);
        },
    }
    assert(bres_prepend(Seq::empty(), r) =~= r);
}

proof fn lemma_bres_prepend_add(a: Seq<ValV>, b: Seq<ValV>, r: BRes)
    ensures
        bres_prepend(a, bres_prepend(b, r)) == bres_prepend(a + b, r),
{
    match r {
        BRes::Frame { frame, out } => {
            assert(a + (b + out) =~= (a + b) + out);
        },
        BRes::Fail { msg, out } => {
            assert(a + (b + out) =~= (a + b) + out);
        },
    }
    assert(bres_prepend(a, bres_prepend(b, r)) =~= bres_prepend(a + b, r));
}

proof fn lemma_mres_prepend_empty(r: MRes)
    ensures
        mres_prepend(Seq::empty(), r) == r,
{
    match r {
        MRes::Entries { es, out } => {
            lemma_concat_empty(out);
        },
        MRes::Fail { msg, out } => {
            lemma_concat_empty(out);
        },
    }
    assert(mres_prepend(Seq::empty(), r) =~= r);
}

proof fn lemma_mres_prepend_add(a: Seq<ValV>, b: Seq<ValV>, r: MRes)
    ensures
        mres_prepend(a, mres_prepend(b, r)) == mres_prepend(a + b, r),
{
    match r {
        MRes::Entries { es, out } => {
            assert(a + (b + out) =~= (a + b) + out);
        },
        MRes::Fail { msg, out } => {
            assert(a + (b + out) =~= (a + b) + out);
        },
    }
    assert(mres_prepend(a, mres_prepend(b, r)) =~= mres_prepend(a + b, r));
}

proof fn lemma_pres_prepend_empty(r: PRes)
    ensures
        pres_prepend(Seq::empty(), r) == r,
{
    match r {
        PRes::Val { v, out } => {
            lemma_concat_empty(out);
        },
        PRes::Fail { msg, out } => {
            lemma_concat_empty(out);
        },
    }
    assert(pres_prepend(Seq::empty(), r) =~= r);
}

proof fn lemma_pres_prepend_add(a: Seq<ValV>, b: Seq<ValV>, r: PRes)
    ensures
        pres_prepend(a, pres_prepend(b, r)) == pres_prepend(a + b, r),
{
    match r {
        PRes::Val { v, out } => {
            assert(a + (b + out) =~= (a + b) + out);
        },
        PRes::Fail { msg, out } => {
            assert(a + (b + out) =~= (a + b) + out);
        },
    }
    assert(pres_prepend(a, pres_prepend(b, r)) =~= pres_prepend(a + b, r));
}

proof fn lemma_ares_prepend_empty(r: ARes)
    ensures
        ares_prepend(Seq::empty(), ares_vals_prefix(Seq::empty(), r)) == r,
{
    match r {
        ARes::Vals { vs, out } => {
            lemma_concat_empty(vs);
            lemma_concat_empty(out);
        },
        ARes::Fail { msg, out } => {
            lemma_concat_empty(out);
        },
    }
    assert(ares_prepend(Seq::empty(), ares_vals_prefix(Seq::empty(), r)) =~= r);
}

proof fn lemma_ares_compose(o1: Seq<ValV>, a: Seq<ValV>, o2: Seq<ValV>, b: Seq<ValV>, r: ARes)
    ensures
        ares_prepend(o1, ares_vals_prefix(a, ares_prepend(o2, ares_vals_prefix(b, r))))
            == ares_prepend(o1 + o2, ares_vals_prefix(a + b, r)),
{
    match r {
        ARes::Vals { vs, out } => {
            assert(o1 + (o2 + out) =~= (o1 + o2) + out);
            assert(a + (b + vs) =~= (a + b) + vs);
        },
        ARes::Fail { msg, out } => {
            assert(o1 + (o2 + out) =~= (o1 + o2) + out);
        },
    }
    assert(ares_prepend(o1, ares_vals_prefix(a, ares_prepend(o2, ares_vals_prefix(b, r))))
        =~= ares_prepend(o1 + o2, ares_vals_prefix(a + b, r)));
}

/// The output field of an expression outcome.
pub open spec fn eres_out(r: ERes) -> Seq<ValV> {
    match r {
        ERes::Val { out, .. } => out,
        ERes::Fail { out, .. } => out,
    }
}

// ---------------------------------------------------------------------------
// The executable evaluator
// ---------------------------------------------------------------------------
/// The builtin table lookup; builtins are consulted before any user binding
/// of the same name.
fn check_builtins(idt: &String) -> (r: bool)
    ensures
        r == is_builtin(idt@),
{
    str_eq(idt.as_str(), "put")
}

/// The builtin `put`: evaluates every argument, each in a fresh child scope
/// of the caller, and emits all their values only once all succeeded.
#[verifier::loop_isolation(false)]
fn eval_put(params: &Vec<AstNode>, env: &Env, out: &mut Vec<Value>, fuel: u64) -> (r: Result<
    Value,
    RunErr,
>)
    ensures
        obeys(
            spec_put(ast_seq_view(params@), env@, fuel as nat),
            env@,
            env@,
            r,
            val_seq_view(old(out)@),
            val_seq_view(final(out)@),
        ),
    decreases fuel, 1int, 0int,
{
    let ghost pv = ast_seq_view(params@);
    let ghost envv = env@;
    let ghost fueln = fuel as nat;
    let ghost out0 = val_seq_view(out@);
    proof {
        crate::parse::lemma_ast_seq_view_index(params@);
        assert(pv.skip(0) =~= pv);
        lemma_ares_prepend_empty(spec_args(pv, envv, fueln));
    }
    let mut vals: Vec<Value> = Vec::new();
    let ghost mut emitted: Seq<ValV> = Seq::empty();
    let mut i: usize = 0;
    while i < params.len()
        invariant
            i <= params.len(),
            params.len() == pv.len(),
            val_seq_view(out@) == out0 + emitted,
            spec_args(pv, envv, fueln) == ares_prepend(
                emitted,
                ares_vals_prefix(
                    val_seq_view(vals@),
                    spec_args(pv.skip(i as int), envv, fueln),
                ),
            ),
        decreases params.len() - i,
    {
        let ghost valsv = val_seq_view(vals@);
        let ghost step = eval_node(pv[i as int], child_of(envv), fueln);
        let ghost so = eres_out(step);
        proof {
            assert(pv.skip(i as int)[0] == pv[i as int]);
            assert(pv.skip(i as int).skip(1) =~= pv.skip(i + 1));
        }
        let mut c = env.new_child();
        match eval_expr(&params[i], &mut c, out, fuel) {
            Result::Err(e) => {
                proof {
                    assert((out0 + emitted) + so =~= out0 + (emitted + so));
                }
                return Result::Err(e);
            },
            Result::Ok(v) => {
                let ghost vv = v@;
                let ghost vs0 = vals@;
                vals.push(v);
                proof {
                    assert(vals@.drop_last() =~= vs0);
                    assert(val_seq_view(vals@) == val_seq_view(vs0).push(vv));
                    assert(val_seq_view(vals@) =~= valsv + seq![vv]);
                    assert(spec_args(pv.skip(i as int), envv, fueln) == ares_prepend(
                        so,
                        ares_vals_prefix(seq![vv], spec_args(pv.skip(i + 1), envv, fueln)),
                    ));
                    lemma_ares_compose(
                        emitted,
                        valsv,
                        so,
                        seq![vv],
                        spec_args(pv.skip(i + 1), envv, fueln),
                    );
                    emitted = emitted + so;
                }
            },
        }
        i = i + 1;
    }
    proof {
        assert(pv.skip(pv.len() as int) =~= Seq::<AstV>::empty());
        lemma_concat_empty(val_seq_view(vals@));
        lemma_concat_empty(emitted);
        assert(spec_args(pv, envv, fueln) == ARes::Vals {
            vs: val_seq_view(vals@),
            out: emitted,
        });
        lemma_val_seq_view_index(vals@);
        assert(vals@.take(0) =~= Seq::<Value>::empty());
    }
    let ghost valsv = val_seq_view(vals@);
    let n = vals.len();
    let mut j: usize = 0;
    while j < n
        invariant
            j <= n,
            n == vals.len(),
            valsv == val_seq_view(vals@),
            val_seq_view(out@) == (out0 + emitted) + val_seq_view(vals@.take(j as int)),
        decreases n - j,
    {
        let ghost o0v = out@;
        let c = clone_value(&vals[j]);
        out.push(c);
        proof {
            assert(out@.drop_last() =~= o0v);
            assert(val_seq_view(out@) == val_seq_view(o0v).push(val_view(vals@[j as int])));
            assert(vals@.take(j + 1).drop_last() =~= vals@.take(j as int));
            assert(vals@.take(j + 1).last() == vals@[j as int]);
            assert(val_seq_view(vals@.take(j + 1)) == val_seq_view(vals@.take(j as int)).push(
                val_view(vals@[j as int]),
            ));
            assert(val_seq_view(out@) =~= (out0 + emitted) + val_seq_view(vals@.take(j + 1)));
        }
        j = j + 1;
    }
    proof {
        assert(vals@.take(n as int) =~= vals@);
        assert(val_seq_view(out@) =~= out0 + (emitted + valsv));
    }
    Result::Ok(Value::Unit)
}

/// Shared evaluation of the three binary-operator node kinds: each operand
/// in its own fresh child scope, left first, then the operator applied.
fn eval_binop(l: &AstNode, op: &AstNode, r2: &AstNode, env: &Env, out: &mut Vec<Value>, fuel: u64)
    -> (r: Result<Value, RunErr>)
    ensures
        obeys(
            spec_binop(l@, op@, r2@, env@, fuel as nat),
            env@,
            env@,
            r,
            val_seq_view(old(out)@),
            val_seq_view(final(out)@),
        ),
    decreases fuel, 1int, 0int,
{
    let ghost out0 = val_seq_view(out@);
    let ghost lstep = eval_node(l@, child_of(env@), fuel as nat);
    let ghost o1 = eres_out(lstep);
    let mut c1 = env.new_child();
    let lv = match eval_expr(l, &mut c1, out, fuel) {
        Result::Ok(v) => v,
        Result::Err(e) => {
            return Result::Err(e);
        },
    };
    let ghost rstep = eval_node(r2@, child_of(env@), fuel as nat);
    let ghost o2 = eres_out(rstep);
    let mut c2 = env.new_child();
    let rv = match eval_expr(r2, &mut c2, out, fuel) {
        Result::Ok(v) => v,
        Result::Err(e) => {
            proof {
                assert((out0 + o1) + o2 =~= out0 + (o1 + o2));
            }
            return Result::Err(e);
        },
    };
    proof {
        assert((out0 + o1) + o2 =~= out0 + (o1 + o2));
    }
    apply_binop_exec(op, &lv, &rv)
}

fn eval_binadd(l: &AstNode, op: &AstNode, r2: &AstNode, env: &Env, out: &mut Vec<Value>, fuel: u64)
    -> (r: Result<Value, RunErr>)
    ensures
        obeys(
            spec_binop(l@, op@, r2@, env@, fuel as nat),
            env@,
            env@,
            r,
            val_seq_view(old(out)@),
            val_seq_view(final(out)@),
        ),
    decreases fuel, 2int, 0int,
{
    eval_binop(l, op, r2, env, out, fuel)
}

fn eval_binmul(l: &AstNode, op: &AstNode, r2: &AstNode, env: &Env, out: &mut Vec<Value>, fuel: u64)
    -> (r: Result<Value, RunErr>)
    ensures
        obeys(
            spec_binop(l@, op@, r2@, env@, fuel as nat),
            env@,
            env@,
            r,
            val_seq_view(old(out)@),
            val_seq_view(final(out)@),
        ),
    decreases fuel, 2int, 0int,
{
    eval_binop(l, op, r2, env, out, fuel)
}

fn eval_binpow(l: &AstNode, op: &AstNode, r2: &AstNode, env: &Env, out: &mut Vec<Value>, fuel: u64)
    -> (r: Result<Value, RunErr>)
    ensures
        obeys(
            spec_binop(l@, op@, r2@, env@, fuel as nat),
            env@,
            env@,
            r,
            val_seq_view(old(out)@),
            val_seq_view(final(out)@),
        ),
    decreases fuel, 2int, 0int,
{
    eval_binop(l, op, r2, env, out, fuel)
}

/// `let`: the right-hand side in a fresh child scope, the result bound in
/// the current scope and yielded as the expression's own value.
fn eval_ltd(idt: &String, eqv: &AstNode, env: &mut Env, out: &mut Vec<Value>, fuel: u64) -> (r:
    Result<Value, RunErr>)
    ensures
        obeys(
            spec_ltd(idt@, eqv@, old(env)@, fuel as nat),
            old(env)@,
            final(env)@,
            r,
            val_seq_view(old(out)@),
            val_seq_view(final(out)@),
        ),
    decreases fuel, 2int, 0int,
{
    let mut c = env.new_child();
    match eval_expr(eqv, &mut c, out, fuel) {
        Result::Err(e) => Result::Err(e),
        Result::Ok(v) => {
            let v2 = clone_value(&v);
            env.insert(idt.clone(), v2);
            Result::Ok(v)
        },
    }
}

/// A function definition: the function value captures a fresh child of the
/// defining scope, is bound under its own name, and the definition itself
/// yields `Unit` and emits nothing.
fn eval_fun(idt: &String, args: &Vec<AstNode>, body: &Vec<AstNode>, env: &mut Env) -> (r: Result<
    Value,
    RunErr,
>)
    ensures
        ({
            let res = spec_fun(idt@, ast_seq_view(args@), ast_seq_view(body@), old(env)@);
            &&& res matches ERes::Val { v, env: e2, out } && r matches Result::Ok(val) && val@ == v
                && final(env)@ == e2 && out == Seq::<ValV>::empty()
        }),
{
    let fenv = env.new_child();
    let fv = Value::Fun(idt.clone(), clone_ast_vec(args), clone_ast_vec(body), Box::new(fenv));
    proof {
        assert(fv@ == ValV::Fun(
            idt@,
            ast_seq_view(args@),
            ast_seq_view(body@),
            Box::new(child_of(env@)),
        ));
    }
    env.insert(idt.clone(), fv);
    Result::Ok(Value::Unit)
}

/// A call: builtins first; then the callee resolved in the caller's scope.
/// The callee's captured scope is extended with the self-binding of the
/// callee's defining name, the frame is a fresh scope over that, the
/// parameters and the name used at the call site are bound in the frame,
/// and the body runs there.  The caller's environment is left as it was.
#[verifier::loop_isolation(false)]
#[verifier::rlimit(60)]
fn eval_funcall(idt: &String, params: &Vec<AstNode>, env: &Env, out: &mut Vec<Value>, fuel: u64)
    -> (r: Result<Value, RunErr>)
    ensures
        obeys(
            spec_funcall(idt@, ast_seq_view(params@), env@, fuel as nat),
            env@,
            env@,
            r,
            val_seq_view(old(out)@),
            val_seq_view(final(out)@),
        ),
    decreases fuel, 2int, 0int,
{
    let ghost pv = ast_seq_view(params@);
    let ghost envv = env@;
    let ghost fueln = fuel as nat;
    let ghost out0 = val_seq_view(out@);
    if check_builtins(idt) {
        return eval_put(params, env, out, fuel);
    }
    proof {
        lemma_concat_empty(out0);
    }
    let looked = env.get(idt.as_str());
    match looked {
        Option::None => Result::Err(err_name("Error function ", idt.as_str(), " is not defined")),
        Option::Some(Value::Fun(fname, args, body, fenv)) => {
            let ghost fnamev = fname@;
            let ghost argsv = ast_seq_view(args@);
            let ghost bodyv = ast_seq_view(body@);
            let ghost fenvv = fenv@;
            let ghost funv = ValV::Fun(fnamev, argsv, bodyv, Box::new(fenvv));
            proof {
                assert(env_lookup(envv, idt@) == Option::Some(funv));
                crate::parse::lemma_ast_seq_view_index(args@);
                crate::parse::lemma_ast_seq_view_index(params@);
            }
            // the self-binding: the captured scope, extended with the
            // function's defining name bound to the function itself
            let fv1 = Value::Fun(
                fname.clone(),
                clone_ast_vec(&args),
                clone_ast_vec(&body),
                Box::new(clone_env(&fenv)),
            );
            proof {
                assert(fv1@ == funv);
            }
            let fv2 = clone_value(&fv1);
            let mut ext = *fenv;
            ext.insert(fname, fv1);
            proof {
                assert(ext@ == env_bind(fenvv, fnamev, funv));
            }
            let mut new_env = ext.new_child();
            let ghost frame0 = child_of(env_bind(fenvv, fnamev, funv));
            let k = if args.len() < params.len() {
                args.len()
            } else {
                params.len()
            };
            let ghost mut emitted: Seq<ValV> = Seq::empty();
            proof {
                assert(argsv.skip(0) =~= argsv);
                assert(pv.skip(0) =~= pv);
                lemma_bres_prepend_empty(spec_bind_args(argsv, pv, envv, frame0, fueln));
            }
            let mut i: usize = 0;
            while i < k
                invariant
                    i <= k,
                    k <= args.len(),
                    k <= params.len(),
                    k == if args.len() < params.len() {
                        args.len()
                    } else {
                        params.len()
                    },
                    argsv.len() == args.len(),
                    pv.len() == params.len(),
                    val_seq_view(out@) == out0 + emitted,
                    spec_bind_args(argsv, pv, envv, frame0, fueln) == bres_prepend(
                        emitted,
                        spec_bind_args(
                            argsv.skip(i as int),
                            pv.skip(i as int),
                            envv,
                            new_env@,
                            fueln,
                        ),
                    ),
                decreases k - i,
            {
                proof {
                    assert(argsv.skip(i as int)[0] == argsv[i as int]);
                    assert(pv.skip(i as int)[0] == pv[i as int]);
                    assert(argsv.skip(i as int).skip(1) =~= argsv.skip(i + 1));
                    assert(pv.skip(i as int).skip(1) =~= pv.skip(i + 1));
                }
                match &args[i] {
                    AstNode::Idt(x) => {
                        let ghost step = eval_node(pv[i as int], child_of(envv), fueln);
                        let ghost so = eres_out(step);
                        let ghost frame_before = new_env@;
                        let mut c = env.new_child();
                        match eval_expr(&params[i], &mut c, out, fuel) {
                            Result::Err(e) => {
                                proof {
                                    assert((out0 + emitted) + so =~= out0 + (emitted + so));
                                }
                                return Result::Err(e);
                            },
                            Result::Ok(v) => {
                                let ghost vv = v@;
                                new_env.insert(x.clone(), v);
                                proof {
                                    assert(spec_bind_args(
                                        argsv.skip(i as int),
                                        pv.skip(i as int),
                                        envv,
                                        frame_before,
                                        fueln,
                                    ) == bres_prepend(
                                        so,
                                        spec_bind_args(
                                            argsv.skip(i + 1),
                                            pv.skip(i + 1),
                                            envv,
                                            new_env@,
                                            fueln,
                                        ),
                                    ));
                                    lemma_bres_prepend_add(
                                        emitted,
                                        so,
                                        spec_bind_args(
                                            argsv.skip(i + 1),
                                            pv.skip(i + 1),
                                            envv,
                                            new_env@,
                                            fueln,
                                        ),
                                    );
                                    emitted = emitted + so;
                                }
                            },
                        }
                    },
                    _ => {
                        proof {
                            lemma_concat_empty(emitted);
                        }
                        return Result::Err(err_str("Error: malformed syntax tree"));
                    },
                }
                i = i + 1;
            }
            proof {
                assert(argsv.skip(k as int).len() == 0 || pv.skip(k as int).len() == 0);
                lemma_concat_empty(emitted);
                assert(spec_bind_args(argsv, pv, envv, frame0, fueln) == BRes::Frame {
                    frame: new_env@,
                    out: emitted,
                });
            }
            proof {
                assert(fv2@ == funv);
            }
            new_env.insert(idt.clone(), fv2);
            let ghost frame2 = new_env@;
            if body.len() == 0 {
                proof {
                    lemma_concat_empty(emitted);
                }
                return Result::Err(err_str("Error when evaluating function"));
            }
            proof {
                crate::parse::lemma_ast_seq_view_index(body@);
                assert(bodyv.skip(0) =~= bodyv);
                lemma_eres_prepend_empty(spec_stmts(bodyv, frame2, fueln));
            }
            let n = body.len();
            let ghost mut emitted2: Seq<ValV> = Seq::empty();
            let mut j: usize = 0;
            while j + 1 < n
                invariant
                    j < n,
                    n == body.len(),
                    bodyv.len() == n,
                    val_seq_view(out@) == (out0 + emitted) + emitted2,
                    spec_stmts(bodyv, frame2, fueln) == eres_prepend(
                        emitted2,
                        spec_stmts(bodyv.skip(j as int), new_env@, fueln),
                    ),
                decreases n - j,
            {
                proof {
                    assert(bodyv.skip(j as int)[0] == bodyv[j as int]);
                    assert(bodyv.skip(j as int).skip(1) =~= bodyv.skip(j + 1));
                }
                let ghost step = eval_node(bodyv[j as int], new_env@, fueln);
                let ghost so = eres_out(step);
                match eval_expr(&body[j], &mut new_env, out, fuel) {
                    Result::Err(e) => {
                        proof {
                            assert(((out0 + emitted) + emitted2) + so =~= out0 + (emitted + (
                            emitted2 + so)));
                        }
                        return Result::Err(e);
                    },
                    Result::Ok(_) => {
                        proof {
                            lemma_eres_prepend_add(
                                emitted2,
                                so,
                                spec_stmts(bodyv.skip(j + 1), new_env@, fueln),
                            );
                            emitted2 = emitted2 + so;
                        }
                    },
                }
                j = j + 1;
            }
            proof {
                assert(bodyv.skip(j as int)[0] == bodyv[j as int]);
                assert(bodyv.skip(j as int).len() == 1);
            }
            let ghost step = eval_node(bodyv[j as int], new_env@, fueln);
            let ghost so = eres_out(step);
            match eval_expr(&body[j], &mut new_env, out, fuel) {
                Result::Err(e) => {
                    proof {
                        assert(((out0 + emitted) + emitted2) + so =~= out0 + (emitted + (emitted2
                            + so)));
                    }
                    Result::Err(e)
                },
                Result::Ok(v) => {
                    proof {
                        assert(((out0 + emitted) + emitted2) + so =~= out0 + (emitted + (emitted2
                            + so)));
                    }
                    Result::Ok(v)
                },
            }
        },
        Option::Some(other) => {
            proof {
                assert(val_view(other) is Fun ==> other is Fun);
            }
            Result::Err(err_name("Error: ", idt.as_str(), " is not a function"))
        },
    }
}

/// `match`: the discriminant once in a fresh child scope, then the branches
/// in source order, the first hit deciding.
#[verifier::loop_isolation(false)]
fn eval_match(expr: &AstNode, cases: &Vec<AstNode>, env: &Env, out: &mut Vec<Value>, fuel: u64)
    -> (r: Result<Value, RunErr>)
    ensures
        obeys(
            spec_match(expr@, ast_seq_view(cases@), env@, fuel as nat),
            env@,
            env@,
            r,
            val_seq_view(old(out)@),
            val_seq_view(final(out)@),
        ),
    decreases fuel, 2int, 0int,
{
    let ghost cv = ast_seq_view(cases@);
    let ghost envv = env@;
    let ghost fueln = fuel as nat;
    let ghost out0 = val_seq_view(out@);
    let ghost hstep = eval_node(expr@, child_of(envv), fueln);
    let ghost o0 = eres_out(hstep);
    proof {
        crate::parse::lemma_ast_seq_view_index(cases@);
    }
    let mut c = env.new_child();
    let d = match eval_expr(expr, &mut c, out, fuel) {
        Result::Err(e) => {
            return Result::Err(e);
        },
        Result::Ok(v) => v,
    };
    let ghost dv = d@;
    proof {
        assert(cv.skip(0) =~= cv);
        lemma_eres_prepend_empty(spec_branches(dv, cv, envv, fueln));
    }
    let ghost mut emitted: Seq<ValV> = Seq::empty();
    let mut i: usize = 0;
    while i < cases.len()
        invariant
            i <= cases.len(),
            cv.len() == cases.len(),
            val_seq_view(out@) == (out0 + o0) + emitted,
            spec_branches(dv, cv, envv, fueln) == eres_prepend(
                emitted,
                spec_branches(dv, cv.skip(i as int), envv, fueln),
            ),
        decreases cases.len() - i,
    {
        proof {
            assert(cv.skip(i as int)[0] == cv[i as int]);
            assert(cv.skip(i as int).skip(1) =~= cv.skip(i + 1));
        }
        match &cases[i] {
            AstNode::Branch(p, b) => {
                let is_def = match &**p {
                    AstNode::Default => true,
                    _ => false,
                };
                if is_def {
                    let ghost bstep = eval_node(ast_view(**b), child_of(envv), fueln);
                    let ghost so = eres_out(bstep);
                    let mut cb = env.new_child();
                    match eval_expr(b, &mut cb, out, fuel) {
                        Result::Err(e) => {
                            proof {
                                assert(((out0 + o0) + emitted) + so =~= out0 + (o0 + (emitted
                                    + so)));
                            }
                            return Result::Err(e);
                        },
                        Result::Ok(v) => {
                            proof {
                                assert(((out0 + o0) + emitted) + so =~= out0 + (o0 + (emitted
                                    + so)));
                            }
                            return Result::Ok(v);
                        },
                    }
                } else {
                    let ghost pstep = eval_node(ast_view(**p), child_of(envv), fueln);
                    let ghost so = eres_out(pstep);
                    let mut cp = env.new_child();
                    let pval = match eval_expr(p, &mut cp, out, fuel) {
                        Result::Err(e) => {
                            proof {
                                assert(((out0 + o0) + emitted) + so =~= out0 + (o0 + (emitted
                                    + so)));
                            }
                            return Result::Err(e);
                        },
                        Result::Ok(v) => v,
                    };
                    let matched = match (&d, &pval) {
                        (Value::Num(a), Value::Num(bn)) => *a == *bn,
                        _ => false,
                    };
                    if matched {
                        let ghost bstep = eval_node(ast_view(**b), child_of(envv), fueln);
                        let ghost so2 = eres_out(bstep);
                        let mut cb = env.new_child();
                        match eval_expr(b, &mut cb, out, fuel) {
                            Result::Err(e) => {
                                proof {
                                    assert((((out0 + o0) + emitted) + so) + so2 =~= out0 + (o0 + (
                                    emitted + (so + so2))));
                                }
                                return Result::Err(e);
                            },
                            Result::Ok(v) => {
                                proof {
                                    assert((((out0 + o0) + emitted) + so) + so2 =~= out0 + (o0 + (
                                    emitted + (so + so2))));
                                }
                                return Result::Ok(v);
                            },
                        }
                    } else {
                        proof {
                            assert(spec_branches(dv, cv.skip(i as int), envv, fueln)
                                == eres_prepend(
                                so,
                                spec_branches(dv, cv.skip(i + 1), envv, fueln),
                            ));
                            lemma_eres_prepend_add(
                                emitted,
                                so,
                                spec_branches(dv, cv.skip(i + 1), envv, fueln),
                            );
                            emitted = emitted + so;
                        }
                    }
                }
            },
            _ => {
                proof {
                    lemma_concat_empty(emitted);
                    assert(((out0 + o0) + emitted) =~= out0 + (o0 + (emitted
                        + Seq::<ValV>::empty())));
                }
                return Result::Err(err_str("Error: malformed syntax tree"));
            },
        }
        i = i + 1;
    }
    proof {
        assert(cv.skip(cases.len() as int).len() == 0);
        lemma_concat_empty(emitted);
        assert(((out0 + o0) + emitted) =~= out0 + (o0 + (emitted + Seq::<ValV>::empty())));
    }
    Result::Err(err_str("Error: no branch matched"))
}

/// A map literal: entries left to right, bare-identifier keys quoted, other
/// keys and all values evaluated in fresh child scopes, assembled sorted.
#[verifier::loop_isolation(false)]
fn eval_map(pairs: &Vec<(AstNode, AstNode)>, env: &Env, out: &mut Vec<Value>, fuel: u64) -> (r:
    Result<Value, RunErr>)
    ensures
        obeys(
            spec_map(crate::parse::ast_pair_seq_view(pairs@), env@, fuel as nat),
            env@,
            env@,
            r,
            val_seq_view(old(out)@),
            val_seq_view(final(out)@),
        ),
    decreases fuel, 2int, 0int,
{
    let ghost pv = crate::parse::ast_pair_seq_view(pairs@);
    let ghost envv = env@;
    let ghost fueln = fuel as nat;
    let ghost out0 = val_seq_view(out@);
    proof {
        crate::parse::lemma_ast_pair_seq_view_index(pairs@);
        assert(pv.skip(0) =~= pv);
        assert(val_pair_seq_view(Seq::<(Value, Value)>::empty()) == Seq::<(ValV, ValV)>::empty());
        lemma_mres_prepend_empty(spec_pairs(pv, envv, fueln, Seq::empty()));
    }
    let mut entries: Vec<(Value, Value)> = Vec::new();
    proof {
        assert(entries@ =~= Seq::<(Value, Value)>::empty());
    }
    let ghost mut emitted: Seq<ValV> = Seq::empty();
    let mut i: usize = 0;
    while i < pairs.len()
        invariant
            i <= pairs.len(),
            pv.len() == pairs.len(),
            entries_keys_ok(val_pair_seq_view(entries@)),
            val_seq_view(out@) == out0 + emitted,
            spec_pairs(pv, envv, fueln, Seq::empty()) == mres_prepend(
                emitted,
                spec_pairs(pv.skip(i as int), envv, fueln, val_pair_seq_view(entries@)),
            ),
        decreases pairs.len() - i,
    {
        proof {
            assert(pv.skip(i as int)[0] == pv[i as int]);
            assert(pv.skip(i as int).skip(1) =~= pv.skip(i + 1));
        }
        let ghost kstep = spec_key(pv[i as int].0, envv, fueln);
        let ghost ko: Seq<ValV> = match kstep {
            MKey::Key { out, .. } => out,
            MKey::Fail { out, .. } => out,
        };
        let kv: Value = match &pairs[i].0 {
            AstNode::Idt(name) => {
                proof {
                    assert(kstep == MKey::Key {
                        k: ValV::String(name@),
                        out: Seq::<ValV>::empty(),
                    });
                }
                Value::String(name.clone())
            },
            _ => {
                let mut ck = env.new_child();
                let k = match eval_expr(&pairs[i].0, &mut ck, out, fuel) {
                    Result::Err(e) => {
                        proof {
                            let so = eres_out(eval_node(pv[i as int].0, child_of(envv), fueln));
                            assert((out0 + emitted) + so =~= out0 + (emitted + so));
                        }
                        return Result::Err(e);
                    },
                    Result::Ok(v) => v,
                };
                if key_rank_exec(&k) >= 3 {
                    proof {
                        assert((out0 + emitted) + ko =~= out0 + (emitted + ko));
                    }
                    return Result::Err(err_str("Error: map key has no order"));
                }
                k
            },
        };
        proof {
            assert(kstep matches MKey::Key { k, .. } && k == kv@);
            assert(is_key(kv@));
            assert(val_seq_view(out@) == (out0 + emitted) + ko);
        }
        let ghost vstep = eval_node(pv[i as int].1, child_of(envv), fueln);
        let ghost vo = eres_out(vstep);
        let mut cv2 = env.new_child();
        let vval = match eval_expr(&pairs[i].1, &mut cv2, out, fuel) {
            Result::Err(e) => {
                proof {
                    assert(((out0 + emitted) + ko) + vo =~= out0 + (emitted + (ko + vo)));
                }
                return Result::Err(e);
            },
            Result::Ok(v) => v,
        };
        let ghost acc0 = val_pair_seq_view(entries@);
        let ghost kvv = kv@;
        let ghost vvv = vval@;
        insert_entry(&mut entries, kv, vval);
        proof {
            assert(spec_pairs(pv.skip(i as int), envv, fueln, acc0) == mres_prepend(
                ko + vo,
                spec_pairs(pv.skip(i + 1), envv, fueln, map_insert(acc0, kvv, vvv)),
            ));
            lemma_mres_prepend_add(
                emitted,
                ko + vo,
                spec_pairs(pv.skip(i + 1), envv, fueln, val_pair_seq_view(entries@)),
            );
            emitted = emitted + (ko + vo);
            assert(((out0 + emitted)) =~= val_seq_view(out@));
        }
        i = i + 1;
    }
    proof {
        assert(pv.skip(pairs.len() as int).len() == 0);
        lemma_concat_empty(emitted);
        assert(spec_pairs(pv, envv, fueln, Seq::empty()) == MRes::Entries {
            es: val_pair_seq_view(entries@),
            out: emitted,
        });
    }
    Result::Ok(Value::MapVal(entries))
}

/// Dispatch over the node kinds; consumes one unit of depth budget.
#[verifier::loop_isolation(false)]
fn eval_expr(pair: &AstNode, env: &mut Env, out: &mut Vec<Value>, fuel: u64) -> (r: Result<
    Value,
    RunErr,
>)
    ensures
        obeys(
            eval_node(pair@, old(env)@, fuel as nat),
            old(env)@,
            final(env)@,
            r,
            val_seq_view(old(out)@),
            val_seq_view(final(out)@),
        ),
    decreases fuel, 0int, 0int,
{
    proof {
        lemma_concat_empty(val_seq_view(out@));
    }
    if fuel == 0 {
        return Result::Err(err_str("Error: evaluation depth limit exceeded"));
    }
    let f = fuel - 1;
    match pair {
        AstNode::Expr(e) => eval_expr(e, env, out, f),
        AstNode::Idt(s) => {
            let r = eval_idt(s, env);
            proof {
                lemma_concat_empty(val_seq_view(out@));
            }
            r
        },
        AstNode::Num(s) => {
            let r = eval_num(s);
            proof {
                lemma_concat_empty(val_seq_view(out@));
            }
            r
        },
        AstNode::Str(s) => {
            let r = eval_str(s);
            proof {
                lemma_concat_empty(val_seq_view(out@));
            }
            r
        },
        AstNode::BinAdd(l, op, r2) => eval_binadd(l, op, r2, env, out, f),
        AstNode::BinMul(l, op, r2) => eval_binmul(l, op, r2, env, out, f),
        AstNode::BinPow(l, op, r2) => eval_binpow(l, op, r2, env, out, f),
        AstNode::Let(x, e) => eval_ltd(x, e, env, out, f),
        AstNode::Fun(name, args, body) => {
            let r = eval_fun(name, args, body, env);
            proof {
                lemma_concat_empty(val_seq_view(out@));
            }
            r
        },
        AstNode::Funcall(name, ps) => eval_funcall(name, ps, env, out, f),
        AstNode::Match(h, cases) => eval_match(h, cases, env, out, f),
        AstNode::MapLit(prs) => eval_map(prs, env, out, f),
        _ => Result::Err(err_str("Error: malformed syntax tree")),
    }
}

/// Runs a whole program: the top-level statements in order, one root
/// environment threaded through them, and returns the last statement's
/// value together with everything `put` emitted along the way.
#[verifier::loop_isolation(false)]
pub fn eval_prgm_with_output(pair: AstNode) -> (r: (Result<Value, RunErr>, Vec<Value>))
    ensures
        match eval_prgm_spec(pair@) {
            PRes::Val { v, out } => r.0 matches Result::Ok(val) && val@ == v && val_seq_view(r.1@)
                == out,
            PRes::Fail { msg, out } => r.0 matches Result::Err(e) && e@ == msg && val_seq_view(
                r.1@,
            ) == out,
        },
{
    let mut out: Vec<Value> = Vec::new();
    proof {
        assert(out@ =~= Seq::<Value>::empty());
    }
    let lst = match pair {
        AstNode::Program(lst) => lst,
        _ => {
            return (Result::Err(err_str("Error: malformed syntax tree")), out);
        },
    };
    let ghost sv = ast_seq_view(lst@);
    let mut env = Env::new();
    let mut val = Value::Num(-1i32);
    proof {
        crate::parse::lemma_ast_seq_view_index(lst@);
        assert(sv.skip(0) =~= sv);
        lemma_pres_prepend_empty(eval_top(sv, empty_env(), ValV::Num(-1)));
    }
    let ghost mut emitted: Seq<ValV> = Seq::empty();
    let mut i: usize = 0;
    while i < lst.len()
        invariant
            i <= lst.len(),
            sv.len() == lst.len(),
            val_seq_view(out@) == emitted,
            eval_top(sv, empty_env(), ValV::Num(-1)) == pres_prepend(
                emitted,
                eval_top(sv.skip(i as int), env@, val@),
            ),
        decreases lst.len() - i,
    {
        proof {
            assert(sv.skip(i as int)[0] == sv[i as int]);
            assert(sv.skip(i as int).skip(1) =~= sv.skip(i + 1));
        }
        match &lst[i] {
            AstNode::EOI => {},
            AstNode::Expr(e) => {
                let ghost step = eval_node(ast_view(**e), env@, EVAL_FUEL as nat);
                let ghost so = eres_out(step);
                match eval_expr(e, &mut env, &mut out, EVAL_FUEL) {
                    Result::Err(er) => {
                        proof {
                            assert(emitted + so =~= val_seq_view(out@));
                        }
                        return (Result::Err(er), out);
                    },
                    Result::Ok(v) => {
                        val = v;
                        proof {
                            lemma_pres_prepend_add(
                                emitted,
                                so,
                                eval_top(sv.skip(i + 1), env@, val@),
                            );
                            emitted = emitted + so;
                        }
                    },
                }
            },
            _ => {
                proof {
                    lemma_concat_empty(emitted);
                }
                return (Result::Err(err_str("Error: malformed syntax tree")), out);
            },
        }
        i = i + 1;
    }
    proof {
        assert(sv.skip(lst.len() as int).len() == 0);
        lemma_concat_empty(emitted);
    }
    (Result::Ok(val), out)
}

/// Runs a whole program and returns the value of its last top-level
/// statement, or the first error; what `put` emitted is discarded here.
pub fn eval_prgm(pair: AstNode) -> (r: Result<Value, RunErr>)
    ensures
        match eval_prgm_spec(pair@) {
            PRes::Val { v, .. } => r matches Result::Ok(val) && val@ == v,
            PRes::Fail { msg, .. } => r matches Result::Err(e) && e@ == msg,
        },
{
    let rr = eval_prgm_with_output(pair);
    rr.0
}


} // verus!

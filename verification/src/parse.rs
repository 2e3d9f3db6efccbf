//! Syntax trees for the Bang language, their mathematical model, and the
//! parser that turns source text into a well-formed tree.

use vstd::prelude::*;

verus! {

/// A node of the syntax tree handed to the evaluator.
///
/// `Num` carries the numeral's text; `Idt`, `Let`, `Fun` and `Funcall` carry
/// identifier text.  Operator nodes (`Add` .. `Pow`) only ever appear as the
/// middle child of a `BinAdd`, `BinMul` or `BinPow` node, and `Default` only
/// as the pattern of a `Branch`.
#[derive(Debug, PartialEq)]
pub enum AstNode {
    Program(Vec<AstNode>),
    Expr(Box<AstNode>),
    Idt(String),
    Num(String),
    Str(String),
    Add,
    Sub,
    Mul,
    Div,
    Pow,
    Default,
    Let(String, Box<AstNode>),
    Fun(String, Vec<AstNode>, Vec<AstNode>),
    Funcall(String, Vec<AstNode>),
    BinAdd(Box<AstNode>, Box<AstNode>, Box<AstNode>),
    BinMul(Box<AstNode>, Box<AstNode>, Box<AstNode>),
    BinPow(Box<AstNode>, Box<AstNode>, Box<AstNode>),
    Branch(Box<AstNode>, Box<AstNode>),
    Match(Box<AstNode>, Vec<AstNode>),
    MapLit(Vec<(AstNode, AstNode)>),
    EOI,
}

/// The mathematical model of a syntax tree: the same shape as `AstNode`,
/// with text as `Seq<char>` and lists as `Seq`.
pub enum AstV {
    Program(Seq<AstV>),
    Expr(Box<AstV>),
    Idt(Seq<char>),
    Num(Seq<char>),
    Str(Seq<char>),
    Add,
    Sub,
    Mul,
    Div,
    Pow,
    Default,
    Let(Seq<char>, Box<AstV>),
    Fun(Seq<char>, Seq<AstV>, Seq<AstV>),
    Funcall(Seq<char>, Seq<AstV>),
    BinAdd(Box<AstV>, Box<AstV>, Box<AstV>),
    BinMul(Box<AstV>, Box<AstV>, Box<AstV>),
    BinPow(Box<AstV>, Box<AstV>, Box<AstV>),
    Branch(Box<AstV>, Box<AstV>),
    Match(Box<AstV>, Seq<AstV>),
    MapLit(Seq<(AstV, AstV)>),
    EOI,
}

pub open spec fn ast_view(n: AstNode) -> AstV
    decreases n, 0int,
{
    match n {
        AstNode::Program(l) => AstV::Program(ast_seq_view(l@)),
        AstNode::Expr(e) => AstV::Expr(Box::new(ast_view(*e))),
        AstNode::Idt(s) => AstV::Idt(s@),
        AstNode::Num(s) => AstV::Num(s@),
        AstNode::Str(s) => AstV::Str(s@),
        AstNode::Add => AstV::Add,
        AstNode::Sub => AstV::Sub,
        AstNode::Mul => AstV::Mul,
        AstNode::Div => AstV::Div,
        AstNode::Pow => AstV::Pow,
        AstNode::Default => AstV::Default,
        AstNode::Let(x, e) => AstV::Let(x@, Box::new(ast_view(*e))),
        AstNode::Fun(f, args, body) => AstV::Fun(f@, ast_seq_view(args@), ast_seq_view(body@)),
        AstNode::Funcall(f, params) => AstV::Funcall(f@, ast_seq_view(params@)),
        AstNode::BinAdd(l, op, r) => AstV::BinAdd(
            Box::new(ast_view(*l)),
            Box::new(ast_view(*op)),
            Box::new(ast_view(*r)),
        ),
        AstNode::BinMul(l, op, r) => AstV::BinMul(
            Box::new(ast_view(*l)),
            Box::new(ast_view(*op)),
            Box::new(ast_view(*r)),
        ),
        AstNode::BinPow(l, op, r) => AstV::BinPow(
            Box::new(ast_view(*l)),
            Box::new(ast_view(*op)),
            Box::new(ast_view(*r)),
        ),
        AstNode::Branch(p, b) => AstV::Branch(Box::new(ast_view(*p)), Box::new(ast_view(*b))),
        AstNode::Match(h, cases) => AstV::Match(Box::new(ast_view(*h)), ast_seq_view(cases@)),
        AstNode::MapLit(pairs) => AstV::MapLit(ast_pair_seq_view(pairs@)),
        AstNode::EOI => AstV::EOI,
    }
}

pub open spec fn ast_seq_view(s: Seq<AstNode>) -> Seq<AstV>
    decreases s, 1int,
{
    if s.len() == 0 {
        Seq::empty()
    } else {
        ast_seq_view(s.drop_last()).push(ast_view(s.last()))
    }
}

pub open spec fn ast_pair_seq_view(s: Seq<(AstNode, AstNode)>) -> Seq<(AstV, AstV)>
    decreases s, 1int,
{
    if s.len() == 0 {
        Seq::empty()
    } else {
        ast_pair_seq_view(s.drop_last()).push(
            (ast_view(s.last().0), ast_view(s.last().1)),
        )
    }
}

impl View for AstNode {
    type V = AstV;

    open spec fn view(&self) -> AstV {
        ast_view(*self)
    }
}

pub proof fn lemma_ast_seq_view_index(s: Seq<AstNode>)
    ensures
        ast_seq_view(s).len() == s.len(),
        forall|i: int| 0 <= i < s.len() ==> #[trigger] ast_seq_view(s)[i] == ast_view(s[i]),
    decreases s.len(),
{
    if s.len() > 0 {
        lemma_ast_seq_view_index(s.drop_last());
    }
}

pub proof fn lemma_ast_pair_seq_view_index(s: Seq<(AstNode, AstNode)>)
    ensures
        ast_pair_seq_view(s).len() == s.len(),
        forall|i: int| 0 <= i < s.len()
            ==> #[trigger] ast_pair_seq_view(s)[i] == (ast_view(s[i].0), ast_view(s[i].1)),
    decreases s.len(),
{
    if s.len() > 0 {
        lemma_ast_pair_seq_view_index(s.drop_last());
    }
}

/// The numeric value of a digit string, read in base ten.
pub open spec fn numeral_val(s: Seq<char>) -> int
    decreases s.len(),
{
    if s.len() == 0 {
        0
    } else {
        numeral_val(s.drop_last()) * 10 + (s.last() as u32 - '0' as u32)
    }
}

pub open spec fn is_digit(c: char) -> bool {
    '0' <= c <= '9'
}

/// A numeral the evaluator accepts: at least one digit, nothing else, and a
/// value that fits the evaluator's number type.
pub open spec fn is_numeral(s: Seq<char>) -> bool {
    &&& s.len() > 0
    &&& forall|i: int| 0 <= i < s.len() ==> is_digit(#[trigger] s[i])
    &&& numeral_val(s) <= 0x7fff_ffff
}

/// Well-formedness of a node standing where an expression is expected: the
/// shapes the grammar can produce.  Structural nodes (`Program`, `Branch`,
/// operators, `Default`, `EOI`) are not expressions.
pub open spec fn wf_expr(n: AstV) -> bool
    decreases n, 0int,
{
    match n {
        AstV::Expr(e) => wf_expr(*e),
        AstV::Idt(s) => s.len() > 0,
        AstV::Num(s) => is_numeral(s),
        AstV::Str(_) => true,
        AstV::BinAdd(l, op, r) => (*op == AstV::Add || *op == AstV::Sub) && wf_expr(*l)
            && wf_expr(*r),
        AstV::BinMul(l, op, r) => (*op == AstV::Mul || *op == AstV::Div) && wf_expr(*l)
            && wf_expr(*r),
        AstV::BinPow(l, op, r) => *op == AstV::Pow && wf_expr(*l) && wf_expr(*r),
        AstV::Let(x, e) => x.len() > 0 && wf_expr(*e),
        AstV::Fun(f, args, body) => f.len() > 0 && wf_idt_seq(args) && body.len() > 0
            && wf_expr_seq(body),
        AstV::Funcall(f, params) => f.len() > 0 && wf_expr_seq(params),
        AstV::Match(h, cases) => wf_expr(*h) && wf_branch_seq(cases),
        AstV::MapLit(pairs) => wf_pair_seq(pairs),
        _ => false,
    }
}

pub open spec fn wf_expr_seq(s: Seq<AstV>) -> bool
    decreases s, 1int,
{
    if s.len() == 0 {
        true
    } else {
        wf_expr_seq(s.drop_last()) && wf_expr(s.last())
    }
}

pub open spec fn wf_idt_seq(s: Seq<AstV>) -> bool
    decreases s, 1int,
{
    if s.len() == 0 {
        true
    } else {
        wf_idt_seq(s.drop_last()) && (s.last() matches AstV::Idt(x) && x.len() > 0)
    }
}

pub open spec fn wf_branch_seq(s: Seq<AstV>) -> bool
    decreases s, 1int,
{
    if s.len() == 0 {
        true
    } else {
        wf_branch_seq(s.drop_last()) && (s.last() matches AstV::Branch(p, b)
            && (*p == AstV::Default || wf_expr(*p)) && wf_expr(*b))
    }
}

/// Character-for-character equality of two string slices.
pub fn str_eq(a: &str, b: &str) -> (r: bool)
    ensures
        r == (a@ == b@),
{
    let la = a.unicode_len();
    let lb = b.unicode_len();
    if la != lb {
        return false;
    }
    let mut i: usize = 0;
    while i < la
        invariant
            i <= la,
            la == a@.len() && lb == b@.len() && la == lb,
            forall|j: int| 0 <= j < i ==> a@[j] == b@[j],
        decreases la - i,
    {
        if a.get_char(i) != b.get_char(i) {
            proof {
                assert(a@[i as int] != b@[i as int]);
            }
            return false;
        }
        i = i + 1;
    }
    proof {
        assert(a@ =~= b@);
    }
    true
}

/// A deep copy of a syntax tree, equal to the original in the model.
#[verifier::loop_isolation(false)]
pub fn clone_ast(n: &AstNode) -> (r: AstNode)
    ensures
        r@ == n@,
    decreases *n, 0int,
{
    match n {
        AstNode::Program(l) => AstNode::Program(clone_ast_vec(l)),
        AstNode::Expr(e) => AstNode::Expr(Box::new(clone_ast(e))),
        AstNode::Idt(s) => AstNode::Idt(s.clone()),
        AstNode::Num(s) => AstNode::Num(s.clone()),
        AstNode::Str(s) => AstNode::Str(s.clone()),
        AstNode::Add => AstNode::Add,
        AstNode::Sub => AstNode::Sub,
        AstNode::Mul => AstNode::Mul,
        AstNode::Div => AstNode::Div,
        AstNode::Pow => AstNode::Pow,
        AstNode::Default => AstNode::Default,
        AstNode::Let(x, e) => AstNode::Let(x.clone(), Box::new(clone_ast(e))),
        AstNode::Fun(f, args, body) => AstNode::Fun(
            f.clone(),
            clone_ast_vec(args),
            clone_ast_vec(body),
        ),
        AstNode::Funcall(f, params) => AstNode::Funcall(f.clone(), clone_ast_vec(params)),
        AstNode::BinAdd(l, op, r2) => AstNode::BinAdd(
            Box::new(clone_ast(l)),
            Box::new(clone_ast(op)),
            Box::new(clone_ast(r2)),
        ),
        AstNode::BinMul(l, op, r2) => AstNode::BinMul(
            Box::new(clone_ast(l)),
            Box::new(clone_ast(op)),
            Box::new(clone_ast(r2)),
        ),
        AstNode::BinPow(l, op, r2) => AstNode::BinPow(
            Box::new(clone_ast(l)),
            Box::new(clone_ast(op)),
            Box::new(clone_ast(r2)),
        ),
        AstNode::Branch(p, b) => AstNode::Branch(
            Box::new(clone_ast(p)),
            Box::new(clone_ast(b)),
        ),
        AstNode::Match(h, cases) => AstNode::Match(
            Box::new(clone_ast(h)),
            clone_ast_vec(cases),
        ),
        AstNode::MapLit(pairs) => AstNode::MapLit(clone_ast_pair_vec(pairs)),
        AstNode::EOI => AstNode::EOI,
    }
}

#[verifier::loop_isolation(false)]
pub fn clone_ast_vec(v: &Vec<AstNode>) -> (r: Vec<AstNode>)
    ensures
        ast_seq_view(r@) == ast_seq_view(v@),
    decreases *v, 1int,
{
    let mut r: Vec<AstNode> = Vec::new();
    let mut i: usize = 0;
    while i < v.len()
        invariant
            i <= v.len(),
            ast_seq_view(r@) == ast_seq_view(v@.take(i as int)),
        decreases v.len() - i,
    {
        proof {
            assert(decreases_to!(*v, 1int => v@[i as int], 0int));
        }
        let c = clone_ast(&v[i]);
        let ghost r0 = r@;
        r.push(c);
        proof {
            assert(r@.drop_last() =~= r0);
            assert(v@.take(i + 1).drop_last() =~= v@.take(i as int));
            assert(v@.take(i + 1).last() == v@[i as int]);
        }
        i = i + 1;
    }
    proof {
        assert(v@.take(v@.len() as int) =~= v@);
    }
    r
}

#[verifier::loop_isolation(false)]
pub fn clone_ast_pair_vec(v: &Vec<(AstNode, AstNode)>) -> (r: Vec<(AstNode, AstNode)>)
    ensures
        ast_pair_seq_view(r@) == ast_pair_seq_view(v@),
    decreases *v, 1int,
{
    let mut r: Vec<(AstNode, AstNode)> = Vec::new();
    let mut i: usize = 0;
    while i < v.len()
        invariant
            i <= v.len(),
            ast_pair_seq_view(r@) == ast_pair_seq_view(v@.take(i as int)),
        decreases v.len() - i,
    {
        proof {
            assert(decreases_to!(*v, 1int => v@[i as int].0, 0int));
            assert(decreases_to!(*v, 1int => v@[i as int].1, 0int));
        }
        let ck = clone_ast(&v[i].0);
        let cv = clone_ast(&v[i].1);
        let ghost r0 = r@;
        r.push((ck, cv));
        proof {
            assert(r@.drop_last() =~= r0);
            assert(v@.take(i + 1).drop_last() =~= v@.take(i as int));
            assert(v@.take(i + 1).last() == v@[i as int]);
        }
        i = i + 1;
    }
    proof {
        assert(v@.take(v@.len() as int) =~= v@);
    }
    r
}

pub open spec fn wf_pair_seq(s: Seq<(AstV, AstV)>) -> bool
    decreases s, 1int,
{
    if s.len() == 0 {
        true
    } else {
        wf_pair_seq(s.drop_last()) && wf_expr(s.last().0) && wf_expr(s.last().1)
    }
}

/// Well-formedness of a whole program: a `Program` node whose items are each
/// a wrapped well-formed expression or the end-of-input marker.
pub open spec fn wf_program(n: AstV) -> bool {
    n matches AstV::Program(l) && wf_top_seq(l)
}

pub open spec fn wf_top_seq(s: Seq<AstV>) -> bool
    decreases s, 1int,
{
    if s.len() == 0 {
        true
    } else {
        wf_top_seq(s.drop_last()) && (s.last() == AstV::EOI || (s.last() matches AstV::Expr(e)
            && wf_expr(*e)))
    }
}

// ---------------------------------------------------------------------------
// Tokens
// ---------------------------------------------------------------------------
/// A lexical token of the language.
enum Tok {
    Idt(String),
    Num(String),
    StrTok(String),
    KwLet,
    KwFun,
    KwEnd,
    KwMatch,
    Underscore,
    Arrow,
    Assign,
    Plus,
    Minus,
    Star,
    Slash,
    DStar,
    LParen,
    RParen,
    LBrace,
    RBrace,
    Colon,
    Comma,
    Newline,
}

/// The tokenizer only ever produces nonempty identifiers and numerals the
/// evaluator accepts.
spec fn tok_wf(t: Tok) -> bool {
    match t {
        Tok::Idt(s) => s@.len() > 0,
        Tok::Num(s) => is_numeral(s@),
        _ => true,
    }
}

spec fn toks_wf(toks: Seq<Tok>) -> bool {
    forall|i: int| 0 <= i < toks.len() ==> tok_wf(#[trigger] toks[i])
}

/// The error of the parser: a single kind with a short description.
#[derive(Debug, Clone)]
pub struct BangParseError(String);

fn parse_err(m: &str) -> (e: BangParseError) {
    BangParseError(m.to_owned())
}

fn is_digit_exec(c: char) -> (r: bool)
    ensures
        r == is_digit(c),
{
    '0' <= c && c <= '9'
}

fn is_idt_start(c: char) -> bool {
    ('a' <= c && c <= 'z') || ('A' <= c && c <= 'Z') || c == '_'
}

fn is_idt_char(c: char) -> bool {
    ('a' <= c && c <= 'z') || ('A' <= c && c <= 'Z') || ('0' <= c && c <= '9') || c == '_'
}

proof fn lemma_numeral_nonneg_tok(s: Seq<char>)
    requires
        forall|i: int| 0 <= i < s.len() ==> is_digit(#[trigger] s[i]),
    ensures
        numeral_val(s) >= 0,
    decreases s.len(),
{
    if s.len() > 0 {
        lemma_numeral_nonneg_tok(s.drop_last());
    }
}

proof fn lemma_numeral_prefix_le_tok(s: Seq<char>, j: int)
    requires
        0 <= j <= s.len(),
        forall|i: int| 0 <= i < s.len() ==> is_digit(#[trigger] s[i]),
    ensures
        numeral_val(s.take(j)) <= numeral_val(s),
    decreases s.len() - j,
{
    if j == s.len() {
        assert(s.take(j) =~= s);
    } else {
        lemma_numeral_prefix_le_tok(s, j + 1);
        assert(s.take(j + 1).drop_last() =~= s.take(j));
        assert(forall|i: int| 0 <= i < s.take(j).len() ==> is_digit(#[trigger] s.take(j)[i]));
        lemma_numeral_nonneg_tok(s.take(j));
    }
}

/// Whether a digit string is a numeral the evaluator accepts.
#[verifier::loop_isolation(false)]
fn check_numeral(s: &str) -> (r: bool)
    ensures
        r == is_numeral(s@),
{
    let n = s.unicode_len();
    if n == 0 {
        return false;
    }
    let mut acc: u64 = 0;
    let mut i: usize = 0;
    while i < n
        invariant
            i <= n,
            n == s@.len(),
            forall|j: int| 0 <= j < i ==> is_digit(#[trigger] s@[j]),
            acc == numeral_val(s@.take(i as int)),
            acc <= 0x7fff_ffff,
        decreases n - i,
    {
        let c = s.get_char(i);
        if c < '0' || c > '9' {
            return false;
        }
        let d: u64 = (c as u32 as u64) - 48;
        acc = acc * 10 + d;
        proof {
            assert(s@.take(i + 1).drop_last() =~= s@.take(i as int));
            assert(s@.take(i + 1).last() == s@[i as int]);
        }
        i = i + 1;
        if acc > 0x7fff_ffff {
            proof {
                if is_numeral(s@) {
                    lemma_numeral_prefix_le_tok(s@, i as int);
                }
            }
            return false;
        }
    }
    proof {
        assert(s@.take(n as int) =~= s@);
    }
    true
}

/// Splits the source text into tokens; rejects characters outside the
/// language and numerals too large for the evaluator's number type.
#[verifier::loop_isolation(false)]
fn tokenize(txt: &str) -> (r: Result<Vec<Tok>, BangParseError>)
    ensures
        r matches Result::Ok(toks) ==> toks_wf(toks@),
{
    let n = txt.unicode_len();
    let mut toks: Vec<Tok> = Vec::new();
    let mut i: usize = 0;
    while i < n
        invariant
            i <= n,
            n == txt@.len(),
            toks_wf(toks@),
        decreases n - i,
    {
        let c = txt.get_char(i);
        if c == '\n' {
            toks.push(Tok::Newline);
            i = i + 1;
        } else if c == ' ' || c == '\t' || c == '\r' {
            i = i + 1;
        } else if c == '+' {
            toks.push(Tok::Plus);
            i = i + 1;
        } else if c == '-' {
            toks.push(Tok::Minus);
            i = i + 1;
        } else if c == '*' {
            if i + 1 < n && txt.get_char(i + 1) == '*' {
                toks.push(Tok::DStar);
                i = i + 2;
            } else {
                toks.push(Tok::Star);
                i = i + 1;
            }
        } else if c == '/' {
            toks.push(Tok::Slash);
            i = i + 1;
        } else if c == '(' {
            toks.push(Tok::LParen);
            i = i + 1;
        } else if c == ')' {
            toks.push(Tok::RParen);
            i = i + 1;
        } else if c == '{' {
            toks.push(Tok::LBrace);
            i = i + 1;
        } else if c == '}' {
            toks.push(Tok::RBrace);
            i = i + 1;
        } else if c == ':' {
            toks.push(Tok::Colon);
            i = i + 1;
        } else if c == ',' {
            toks.push(Tok::Comma);
            i = i + 1;
        } else if c == '=' {
            if i + 1 < n && txt.get_char(i + 1) == '>' {
                toks.push(Tok::Arrow);
                i = i + 2;
            } else {
                toks.push(Tok::Assign);
                i = i + 1;
            }
        } else if c == '"' {
            let mut j: usize = i + 1;
            while j < n && txt.get_char(j) != '"'
                invariant
                    i + 1 <= j <= n,
                decreases n - j,
            {
                j = j + 1;
            }
            if j == n {
                return Result::Err(parse_err("unterminated string literal"));
            }
            let inner = txt.substring_char(i + 1, j).to_owned();
            toks.push(Tok::StrTok(inner));
            i = j + 1;
        } else if is_digit_exec(c) {
            let mut j: usize = i + 1;
            while j < n && is_digit_exec(txt.get_char(j))
                invariant
                    i + 1 <= j <= n,
                decreases n - j,
            {
                j = j + 1;
            }
            let num = txt.substring_char(i, j);
            if !check_numeral(num) {
                return Result::Err(parse_err("numeral out of range"));
            }
            toks.push(Tok::Num(num.to_owned()));
            i = j;
        } else if is_idt_start(c) {
            let mut j: usize = i + 1;
            while j < n && is_idt_char(txt.get_char(j))
                invariant
                    i + 1 <= j <= n,
                decreases n - j,
            {
                j = j + 1;
            }
            let word = txt.substring_char(i, j);
            proof {
                assert(word@.len() == j - i);
            }
            if str_eq(word, "let") {
                toks.push(Tok::KwLet);
            } else if str_eq(word, "fun") {
                toks.push(Tok::KwFun);
            } else if str_eq(word, "end") {
                toks.push(Tok::KwEnd);
            } else if str_eq(word, "match") {
                toks.push(Tok::KwMatch);
            } else if j == i + 1 && c == '_' {
                toks.push(Tok::Underscore);
            } else {
                toks.push(Tok::Idt(word.to_owned()));
            }
            i = j;
        } else {
            return Result::Err(parse_err("unexpected character"));
        }
    }
    Result::Ok(toks)
}

// ---------------------------------------------------------------------------
// Recursive-descent parsing
// ---------------------------------------------------------------------------
/// The index after any run of newline tokens starting at `pos`.
#[verifier::loop_isolation(false)]
fn skip_newlines(toks: &Vec<Tok>, pos: usize) -> (p: usize)
    requires
        pos <= toks.len(),
    ensures
        pos <= p <= toks.len(),
{
    let mut p = pos;
    while p < toks.len() && matches!(&toks[p], Tok::Newline)
        invariant
            pos <= p <= toks.len(),
        decreases toks.len() - p,
    {
        proof {
            reveal_with_fuel(ast_view, 4);
            reveal_with_fuel(wf_expr, 4);
        }
        p = p + 1;
    }
    p
}

/// A statement: a binding, a function definition, a `match`, or arithmetic.
#[verifier::loop_isolation(false)]
fn parse_stmt(toks: &Vec<Tok>, pos: usize) -> (r: Result<(AstNode, usize), BangParseError>)
    requires
        pos <= toks.len(),
        toks_wf(toks@),
    ensures
        r matches Result::Ok(p) ==> pos < p.1 <= toks.len() && wf_expr(p.0@),
    decreases toks.len() - pos, 9int,
{
    if pos == toks.len() {
        return Result::Err(parse_err("unexpected end of input"));
    }
    match &toks[pos] {
        Tok::KwLet => parse_let(toks, pos),
        Tok::KwFun => parse_fun(toks, pos),
        Tok::KwMatch => parse_match(toks, pos),
        _ => parse_addsub(toks, pos),
    }
}

/// `let` IDT `=` statement.
#[verifier::loop_isolation(false)]
fn parse_let(toks: &Vec<Tok>, pos: usize) -> (r: Result<(AstNode, usize), BangParseError>)
    requires
        pos < toks.len(),
        toks_wf(toks@),
    ensures
        r matches Result::Ok(p) ==> pos < p.1 <= toks.len() && wf_expr(p.0@),
    decreases toks.len() - pos, 8int,
{
    proof {
        reveal_with_fuel(ast_view, 3);
        reveal_with_fuel(wf_expr, 3);
    }
    if toks.len() - pos < 3 {
        return Result::Err(parse_err("unfinished binding"));
    }
    let name = match &toks[pos + 1] {
        Tok::Idt(s) => {
            proof {
                assert(tok_wf(toks@[pos + 1]));
            }
            s.clone()
        },
        _ => {
            return Result::Err(parse_err("expected a name after 'let'"));
        },
    };
    match &toks[pos + 2] {
        Tok::Assign => {},
        _ => {
            return Result::Err(parse_err("expected '=' in binding"));
        },
    }
    match parse_stmt(toks, pos + 3) {
        Result::Err(e) => Result::Err(e),
        Result::Ok((rhs, p2)) => {
            let node = AstNode::Let(name, Box::new(AstNode::Expr(Box::new(rhs))));
            Result::Ok((node, p2))
        },
    }
}

/// `fun` IDT `(` names `)` newline body `end`.
#[verifier::loop_isolation(false)]
#[verifier::rlimit(60)]
fn parse_fun(toks: &Vec<Tok>, pos: usize) -> (r: Result<(AstNode, usize), BangParseError>)
    requires
        pos < toks.len(),
        toks_wf(toks@),
    ensures
        r matches Result::Ok(p) ==> pos < p.1 <= toks.len() && wf_expr(p.0@),
    decreases toks.len() - pos, 8int,
{
    proof {
        reveal_with_fuel(ast_view, 3);
        reveal_with_fuel(wf_expr, 3);
        reveal_with_fuel(ast_seq_view, 2);
        reveal_with_fuel(wf_idt_seq, 2);
        reveal_with_fuel(wf_expr_seq, 2);
    }
    if toks.len() - pos < 3 {
        return Result::Err(parse_err("unfinished function definition"));
    }
    let name = match &toks[pos + 1] {
        Tok::Idt(s) => {
            proof {
                assert(tok_wf(toks@[pos + 1]));
            }
            s.clone()
        },
        _ => {
            return Result::Err(parse_err("expected a name after 'fun'"));
        },
    };
    match &toks[pos + 2] {
        Tok::LParen => {},
        _ => {
            return Result::Err(parse_err("expected '(' in function definition"));
        },
    }
    let mut args: Vec<AstNode> = Vec::new();
    proof {
        assert(args@ =~= Seq::<AstNode>::empty());
    }
    let mut p = pos + 3;
    if p < toks.len() && matches!(&toks[p], Tok::RParen) {
        p = p + 1;
    } else {
        loop
            invariant
                pos + 3 <= p <= toks.len(),
                toks_wf(toks@),
                wf_idt_seq(ast_seq_view(args@)),
            decreases toks.len() - p,
        {
            proof {
                reveal_with_fuel(ast_view, 3);
                reveal_with_fuel(wf_expr, 3);
                reveal_with_fuel(ast_seq_view, 2);
                reveal_with_fuel(wf_idt_seq, 2);
                reveal_with_fuel(wf_expr_seq, 2);
            }
            if p >= toks.len() {
                return Result::Err(parse_err("unfinished parameter list"));
            }
            let ghost a0 = args@;
            match &toks[p] {
                Tok::Idt(s) => {
                    proof {
                        assert(tok_wf(toks@[p as int]));
                    }
                    args.push(AstNode::Idt(s.clone()));
                    proof {
                        assert(args@.drop_last() =~= a0);
                        assert(ast_seq_view(args@).drop_last() =~= ast_seq_view(a0));
                    }
                },
                _ => {
                    return Result::Err(parse_err("expected a parameter name"));
                },
            }
            p = p + 1;
            if p < toks.len() && matches!(&toks[p], Tok::Comma) {
                p = p + 1;
            } else {
                break;
            }
        }
        if p >= toks.len() || !matches!(&toks[p], Tok::RParen) {
            return Result::Err(parse_err("expected ')' after parameters"));
        }
        p = p + 1;
    }
    let mut body: Vec<AstNode> = Vec::new();
    proof {
        assert(body@ =~= Seq::<AstNode>::empty());
    }
    loop
        invariant
            pos < p <= toks.len(),
            toks_wf(toks@),
            wf_idt_seq(ast_seq_view(args@)),
            wf_expr_seq(ast_seq_view(body@)),
            name@.len() > 0,
        decreases toks.len() - p,
    {
        proof {
            reveal_with_fuel(ast_view, 3);
            reveal_with_fuel(wf_expr, 3);
            reveal_with_fuel(ast_seq_view, 2);
            reveal_with_fuel(wf_idt_seq, 2);
            reveal_with_fuel(wf_expr_seq, 2);
        }
        let p2 = skip_newlines(toks, p);
        if p2 >= toks.len() {
            return Result::Err(parse_err("unfinished function body"));
        }
        if matches!(&toks[p2], Tok::KwEnd) {
            if body.len() == 0 {
                return Result::Err(parse_err("empty function body"));
            }
            proof {
                lemma_ast_seq_view_index(body@);
            }
            let node = AstNode::Fun(name, args, body);
            return Result::Ok((node, p2 + 1));
        }
        match parse_stmt(toks, p2) {
            Result::Err(e) => {
                return Result::Err(e);
            },
            Result::Ok((stmt, p3)) => {
                let ghost b0 = body@;
                body.push(AstNode::Expr(Box::new(stmt)));
                proof {
                    assert(body@.drop_last() =~= b0);
                    assert(ast_seq_view(body@).drop_last() =~= ast_seq_view(b0));
                }
                p = p3;
            },
        }
    }
}

/// Wraps a well-formed expression in an `Expr` node.
fn mk_wrapped(e: AstNode) -> (r: AstNode)
    requires
        wf_expr(e@),
    ensures
        r@ == AstV::Expr(Box::new(e@)),
        wf_expr(r@),
{
    AstNode::Expr(Box::new(e))
}

/// Builds one `match` branch from its pattern and its body.
fn mk_branch(pat: AstNode, bodye: AstNode) -> (r: AstNode)
    requires
        pat@ == AstV::Default || wf_expr(pat@),
        wf_expr(bodye@),
    ensures
        (r@ matches AstV::Branch(p, b) && (*p == AstV::Default || wf_expr(*p)) && wf_expr(*b)),
{
    let w = mk_wrapped(bodye);
    AstNode::Branch(Box::new(pat), Box::new(w))
}

/// `match` head newline branches `end`.
#[verifier::loop_isolation(false)]
fn parse_match(toks: &Vec<Tok>, pos: usize) -> (r: Result<(AstNode, usize), BangParseError>)
    requires
        pos < toks.len(),
        toks_wf(toks@),
    ensures
        r matches Result::Ok(p) ==> pos < p.1 <= toks.len() && wf_expr(p.0@),
    decreases toks.len() - pos, 8int,
{
    let (head, first_p) = match parse_addsub(toks, pos + 1) {
        Result::Err(e) => {
            return Result::Err(e);
        },
        Result::Ok(hp) => hp,
    };
    let whead = mk_wrapped(head);
    let mut p = first_p;
    let mut cases: Vec<AstNode> = Vec::new();
    proof {
        assert(cases@ =~= Seq::<AstNode>::empty());
        reveal_with_fuel(wf_branch_seq, 2);
        reveal_with_fuel(ast_seq_view, 2);
    }
    loop
        invariant
            pos < p <= toks.len(),
            toks_wf(toks@),
            wf_branch_seq(ast_seq_view(cases@)),
            wf_expr(whead@),
        decreases toks.len() - p,
    {
        let p2 = skip_newlines(toks, p);
        if p2 >= toks.len() {
            return Result::Err(parse_err("unfinished match"));
        }
        if matches!(&toks[p2], Tok::KwEnd) {
            let node = AstNode::Match(Box::new(whead), cases);
            proof {
                reveal_with_fuel(ast_view, 2);
                reveal_with_fuel(wf_expr, 2);
            }
            return Result::Ok((node, p2 + 1));
        }
        let (pat, p3) = if matches!(&toks[p2], Tok::Underscore) {
            proof {
                reveal_with_fuel(ast_view, 1);
            }
            (AstNode::Default, p2 + 1)
        } else {
            match parse_addsub(toks, p2) {
                Result::Err(e) => {
                    return Result::Err(e);
                },
                Result::Ok((pe, pp)) => (mk_wrapped(pe), pp),
            }
        };
        if p3 >= toks.len() || !matches!(&toks[p3], Tok::Arrow) {
            return Result::Err(parse_err("expected '=>' in branch"));
        }
        match parse_stmt(toks, p3 + 1) {
            Result::Err(e) => {
                return Result::Err(e);
            },
            Result::Ok((bodye, p4)) => {
                let ghost c0 = cases@;
                let br = mk_branch(pat, bodye);
                cases.push(br);
                proof {
                    reveal_with_fuel(wf_branch_seq, 2);
                    reveal_with_fuel(ast_seq_view, 2);
                    assert(cases@.drop_last() =~= c0);
                    assert(ast_seq_view(cases@).drop_last() =~= ast_seq_view(c0));
                }
                p = p4;
            },
        }
    }
}

/// Additive chain, left associative.
#[verifier::loop_isolation(false)]
fn parse_addsub(toks: &Vec<Tok>, pos: usize) -> (r: Result<(AstNode, usize), BangParseError>)
    requires
        pos <= toks.len(),
        toks_wf(toks@),
    ensures
        r matches Result::Ok(p) ==> pos < p.1 <= toks.len() && wf_expr(p.0@),
    decreases toks.len() - pos, 7int,
{
    proof {
        reveal_with_fuel(ast_view, 2);
        reveal_with_fuel(wf_expr, 2);
    }
    let first = match parse_mul(toks, pos) {
        Result::Err(e) => {
            return Result::Err(e);
        },
        Result::Ok(np) => np,
    };
    let mut node = first.0;
    let mut p = first.1;
    while p < toks.len() && (matches!(&toks[p], Tok::Plus) || matches!(&toks[p], Tok::Minus))
        invariant
            pos < p <= toks.len(),
            toks_wf(toks@),
            wf_expr(node@),
        decreases toks.len() - p,
    {
        proof {
            reveal_with_fuel(ast_view, 2);
            reveal_with_fuel(wf_expr, 2);
        }
        let op = match &toks[p] {
            Tok::Plus => AstNode::Add,
            _ => AstNode::Sub,
        };
        match parse_mul(toks, p + 1) {
            Result::Err(e) => {
                return Result::Err(e);
            },
            Result::Ok((rhs, p2)) => {
                node = AstNode::BinAdd(Box::new(node), Box::new(op), Box::new(rhs));
                p = p2;
            },
        }
    }
    Result::Ok((node, p))
}

/// Multiplicative chain, left associative.
#[verifier::loop_isolation(false)]
fn parse_mul(toks: &Vec<Tok>, pos: usize) -> (r: Result<(AstNode, usize), BangParseError>)
    requires
        pos <= toks.len(),
        toks_wf(toks@),
    ensures
        r matches Result::Ok(p) ==> pos < p.1 <= toks.len() && wf_expr(p.0@),
    decreases toks.len() - pos, 6int,
{
    proof {
        reveal_with_fuel(ast_view, 2);
        reveal_with_fuel(wf_expr, 2);
    }
    let first = match parse_pow(toks, pos) {
        Result::Err(e) => {
            return Result::Err(e);
        },
        Result::Ok(np) => np,
    };
    let mut node = first.0;
    let mut p = first.1;
    while p < toks.len() && (matches!(&toks[p], Tok::Star) || matches!(&toks[p], Tok::Slash))
        invariant
            pos < p <= toks.len(),
            toks_wf(toks@),
            wf_expr(node@),
        decreases toks.len() - p,
    {
        proof {
            reveal_with_fuel(ast_view, 2);
            reveal_with_fuel(wf_expr, 2);
        }
        let op = match &toks[p] {
            Tok::Star => AstNode::Mul,
            _ => AstNode::Div,
        };
        match parse_pow(toks, p + 1) {
            Result::Err(e) => {
                return Result::Err(e);
            },
            Result::Ok((rhs, p2)) => {
                node = AstNode::BinMul(Box::new(node), Box::new(op), Box::new(rhs));
                p = p2;
            },
        }
    }
    Result::Ok((node, p))
}

/// Power chain, left associative.
#[verifier::loop_isolation(false)]
fn parse_pow(toks: &Vec<Tok>, pos: usize) -> (r: Result<(AstNode, usize), BangParseError>)
    requires
        pos <= toks.len(),
        toks_wf(toks@),
    ensures
        r matches Result::Ok(p) ==> pos < p.1 <= toks.len() && wf_expr(p.0@),
    decreases toks.len() - pos, 5int,
{
    proof {
        reveal_with_fuel(ast_view, 2);
        reveal_with_fuel(wf_expr, 2);
    }
    let first = match parse_atom(toks, pos) {
        Result::Err(e) => {
            return Result::Err(e);
        },
        Result::Ok(np) => np,
    };
    let mut node = first.0;
    let mut p = first.1;
    while p < toks.len() && matches!(&toks[p], Tok::DStar)
        invariant
            pos < p <= toks.len(),
            toks_wf(toks@),
            wf_expr(node@),
        decreases toks.len() - p,
    {
        proof {
            reveal_with_fuel(ast_view, 2);
            reveal_with_fuel(wf_expr, 2);
        }
        match parse_atom(toks, p + 1) {
            Result::Err(e) => {
                return Result::Err(e);
            },
            Result::Ok((rhs, p2)) => {
                node = AstNode::BinPow(Box::new(node), Box::new(AstNode::Pow), Box::new(rhs));
                p = p2;
            },
        }
    }
    Result::Ok((node, p))
}

/// A numeral, a string, a parenthesised statement, a map literal, a call,
/// or a plain identifier.
#[verifier::loop_isolation(false)]
fn parse_atom(toks: &Vec<Tok>, pos: usize) -> (r: Result<(AstNode, usize), BangParseError>)
    requires
        pos <= toks.len(),
        toks_wf(toks@),
    ensures
        r matches Result::Ok(p) ==> pos < p.1 <= toks.len() && wf_expr(p.0@),
    decreases toks.len() - pos, 4int,
{
    proof {
        reveal_with_fuel(ast_view, 2);
        reveal_with_fuel(wf_expr, 2);
    }
    if pos == toks.len() {
        return Result::Err(parse_err("unexpected end of input"));
    }
    match &toks[pos] {
        Tok::Num(s) => {
            proof {
                assert(tok_wf(toks@[pos as int]));
            }
            Result::Ok((AstNode::Num(s.clone()), pos + 1))
        },
        Tok::StrTok(s) => Result::Ok((AstNode::Str(s.clone()), pos + 1)),
        Tok::LParen => match parse_stmt(toks, pos + 1) {
            Result::Err(e) => Result::Err(e),
            Result::Ok((inner, p2)) => {
                if p2 < toks.len() && matches!(&toks[p2], Tok::RParen) {
                    Result::Ok((AstNode::Expr(Box::new(inner)), p2 + 1))
                } else {
                    Result::Err(parse_err("expected ')'"))
                }
            },
        },
        Tok::LBrace => parse_map_lit(toks, pos),
        Tok::Idt(s) => {
            if pos + 1 < toks.len() && matches!(&toks[pos + 1], Tok::LParen) {
                parse_funcall(toks, pos)
            } else {
                proof {
                    assert(tok_wf(toks@[pos as int]));
                }
                Result::Ok((AstNode::Idt(s.clone()), pos + 1))
            }
        },
        _ => Result::Err(parse_err("unexpected token")),
    }
}

/// IDT `(` arguments `)`.
#[verifier::loop_isolation(false)]
fn parse_funcall(toks: &Vec<Tok>, pos: usize) -> (r: Result<(AstNode, usize), BangParseError>)
    requires
        pos + 1 < toks.len(),
        toks@[pos as int] is Idt,
        toks@[pos + 1] is LParen,
        toks_wf(toks@),
    ensures
        r matches Result::Ok(p) ==> pos < p.1 <= toks.len() && wf_expr(p.0@),
    decreases toks.len() - pos, 3int,
{
    proof {
        reveal_with_fuel(ast_view, 3);
        reveal_with_fuel(wf_expr, 3);
        reveal_with_fuel(ast_seq_view, 2);
        reveal_with_fuel(wf_expr_seq, 2);
    }
    let name = match &toks[pos] {
        Tok::Idt(s) => {
            proof {
                assert(tok_wf(toks@[pos as int]));
            }
            s.clone()
        },
        _ => {
            return Result::Err(parse_err("expected a name"));
        },
    };
    let mut params: Vec<AstNode> = Vec::new();
    proof {
        assert(params@ =~= Seq::<AstNode>::empty());
    }
    let mut p = pos + 2;
    if p < toks.len() && matches!(&toks[p], Tok::RParen) {
        proof {
            assert(name@.len() > 0);
            assert(ast_seq_view(params@) =~= Seq::<AstV>::empty());
            assert(wf_expr_seq(ast_seq_view(params@)));
        }
        let node = AstNode::Funcall(name, params);
        proof {
            assert(wf_expr(node@));
        }
        return Result::Ok((node, p + 1));
    }
    loop
        invariant
            pos + 2 <= p <= toks.len(),
            toks_wf(toks@),
            wf_expr_seq(ast_seq_view(params@)),
            name@.len() > 0,
        decreases toks.len() - p,
    {
        proof {
            reveal_with_fuel(ast_view, 3);
            reveal_with_fuel(wf_expr, 3);
            reveal_with_fuel(ast_seq_view, 2);
            reveal_with_fuel(wf_expr_seq, 2);
        }
        match parse_stmt(toks, p) {
            Result::Err(e) => {
                return Result::Err(e);
            },
            Result::Ok((arg, p2)) => {
                let ghost a0 = params@;
                params.push(AstNode::Expr(Box::new(arg)));
                proof {
                    assert(params@.drop_last() =~= a0);
                    assert(ast_seq_view(params@).drop_last() =~= ast_seq_view(a0));
                }
                p = p2;
            },
        }
        if p < toks.len() && matches!(&toks[p], Tok::Comma) {
            p = p + 1;
        } else {
            break;
        }
    }
    if p < toks.len() && matches!(&toks[p], Tok::RParen) {
        Result::Ok((AstNode::Funcall(name, params), p + 1))
    } else {
        Result::Err(parse_err("expected ')' after arguments"))
    }
}

/// `{` key `:` value `,` ... `}`; a bare identifier key is kept as written.
#[verifier::loop_isolation(false)]
fn parse_map_lit(toks: &Vec<Tok>, pos: usize) -> (r: Result<(AstNode, usize), BangParseError>)
    requires
        pos < toks.len(),
        toks@[pos as int] is LBrace,
        toks_wf(toks@),
    ensures
        r matches Result::Ok(p) ==> pos < p.1 <= toks.len() && wf_expr(p.0@),
    decreases toks.len() - pos, 3int,
{
    proof {
        reveal_with_fuel(ast_view, 3);
        reveal_with_fuel(wf_expr, 3);
        reveal_with_fuel(ast_pair_seq_view, 2);
        reveal_with_fuel(wf_pair_seq, 2);
    }
    let mut pairs: Vec<(AstNode, AstNode)> = Vec::new();
    proof {
        assert(pairs@ =~= Seq::<(AstNode, AstNode)>::empty());
    }
    let mut p = pos + 1;
    if p < toks.len() && matches!(&toks[p], Tok::RBrace) {
        return Result::Ok((AstNode::MapLit(pairs), p + 1));
    }
    loop
        invariant
            pos + 1 <= p <= toks.len(),
            toks_wf(toks@),
            wf_pair_seq(ast_pair_seq_view(pairs@)),
        decreases toks.len() - p,
    {
        proof {
            reveal_with_fuel(ast_view, 3);
            reveal_with_fuel(wf_expr, 3);
            reveal_with_fuel(ast_pair_seq_view, 2);
            reveal_with_fuel(wf_pair_seq, 2);
        }
        if p >= toks.len() {
            return Result::Err(parse_err("unfinished map literal"));
        }
        let bare = match &toks[p] {
            Tok::Idt(_) => p + 1 < toks.len() && matches!(&toks[p + 1], Tok::Colon),
            _ => false,
        };
        let (key, pk) = if bare {
            match &toks[p] {
                Tok::Idt(s) => {
                    proof {
                        assert(tok_wf(toks@[p as int]));
                    }
                    (AstNode::Idt(s.clone()), p + 1)
                },
                _ => {
                    return Result::Err(parse_err("expected a key"));
                },
            }
        } else {
            match parse_addsub(toks, p) {
                Result::Err(e) => {
                    return Result::Err(e);
                },
                Result::Ok(kp) => kp,
            }
        };
        if pk >= toks.len() || !matches!(&toks[pk], Tok::Colon) {
            return Result::Err(parse_err("expected ':' in map literal"));
        }
        match parse_stmt(toks, pk + 1) {
            Result::Err(e) => {
                return Result::Err(e);
            },
            Result::Ok((val, p2)) => {
                let ghost prs0 = pairs@;
                pairs.push((key, AstNode::Expr(Box::new(val))));
                proof {
                    assert(pairs@.drop_last() =~= prs0);
                    assert(ast_pair_seq_view(pairs@).drop_last() =~= ast_pair_seq_view(prs0));
                }
                p = p2;
            },
        }
        if p < toks.len() && matches!(&toks[p], Tok::Comma) {
            p = p + 1;
        } else {
            break;
        }
    }
    if p < toks.len() && matches!(&toks[p], Tok::RBrace) {
        Result::Ok((AstNode::MapLit(pairs), p + 1))
    } else {
        Result::Err(parse_err("expected '}' after map literal"))
    }
}

/// The whole program: newline-separated statements, wrapped one by one,
/// with the end-of-input marker appended.
#[verifier::loop_isolation(false)]
fn parse_program(toks: &Vec<Tok>) -> (r: Result<AstNode, BangParseError>)
    requires
        toks_wf(toks@),
    ensures
        r matches Result::Ok(node) ==> wf_program(node@),
{
    proof {
        reveal_with_fuel(ast_view, 2);
        reveal_with_fuel(wf_expr, 2);
        reveal_with_fuel(ast_seq_view, 2);
        reveal_with_fuel(wf_top_seq, 2);
    }
    let mut items: Vec<AstNode> = Vec::new();
    proof {
        assert(items@ =~= Seq::<AstNode>::empty());
    }
    let mut p: usize = 0;
    loop
        invariant
            p <= toks.len(),
            toks_wf(toks@),
            wf_top_seq(ast_seq_view(items@)),
        decreases toks.len() - p + 1,
    {
        let p2 = skip_newlines(toks, p);
        if p2 >= toks.len() {
            let ghost i0 = items@;
            items.push(AstNode::EOI);
            proof {
                assert(items@.drop_last() =~= i0);
                assert(ast_seq_view(items@).drop_last() =~= ast_seq_view(i0));
            }
            return Result::Ok(AstNode::Program(items));
        }
        match parse_stmt(toks, p2) {
            Result::Err(e) => {
                return Result::Err(e);
            },
            Result::Ok((stmt, p3)) => {
                let ghost i0 = items@;
                items.push(AstNode::Expr(Box::new(stmt)));
                proof {
                    assert(items@.drop_last() =~= i0);
                    assert(ast_seq_view(items@).drop_last() =~= ast_seq_view(i0));
                }
                if p3 < toks.len() && !matches!(&toks[p3], Tok::Newline) {
                    return Result::Err(parse_err("expected a newline between statements"));
                }
                p = p3;
            },
        }
    }
}

/// The parser's entry point.
pub struct BangParser;

impl BangParser {
    /// Parses a whole program.  A parsed program is well formed: every
    /// identifier nonempty, every numeral within the evaluator's number
    /// type, every node standing where its kind is allowed.
    pub fn parse(txt: &str) -> (r: Result<AstNode, BangParseError>)
        ensures
            r matches Result::Ok(node) ==> wf_program(node@),
    {
        match tokenize(txt) {
            Result::Err(e) => Result::Err(e),
            Result::Ok(toks) => parse_program(&toks),
        }
    }
}

} // verus!

//! The grammar of HULK as a relation between token sequences and syntax
//! trees: for each kind of node, the sequences of tokens it is written as,
//! and how tightly its operands must bind, which fixes the precedence and
//! associativity of the operators.  A parse that succeeds returns a tree
//! that the input's tokens derive.

use vstd::prelude::*;
use crate::ast::{
    AsExpr, AssignExpr, Atom, Attribute, BinaryOp, Body, CaseBranch, CaseExpr, ClassDecl, CondBranch, ExprBody,
    Expression, ForExpr, FunctionCall, FunctionDecl, Group, IfExpr, IndexAccess, IsExpr, LetDecl, LetExpr,
    MemberAccess, Method, MethodCall, NewArray, NewInstance, Param, Program, WhileExpr,
};
use crate::lexer::{Token, TokenKind};
use crate::parser::is_keyword;
use crate::tokens::{BinOp, Literal, UnaryOp, spec_binop_text};
use crate::ast;

verus! {

/// A token as the grammar sees it.
pub enum Tok {
    /// An identifier or a keyword.
    Word(Seq<char>),
    /// A whole number, by its value.
    Num(int),
    /// A number with a fractional part, by its text: no literal of the
    /// grammar is written so.
    Fraction(Seq<char>),
    /// A string literal, by its text between the quotes.
    Text(Seq<char>),
    /// An operator or a punctuation sign.
    Sym(Seq<char>),
}

/// The value of a sequence of decimal digits.
pub open spec fn digits_value(s: Seq<char>) -> int
    decreases s.len(),
{
    if s.len() == 0 {
        0
    } else {
        digits_value(s.drop_last()) * 10 + (s.last() as int - '0' as int)
    }
}

/// The token `t` of the source `src`.
pub open spec fn tok_of(src: Seq<char>, t: Token) -> Tok {
    match t.kind {
        TokenKind::Ident => Tok::Word(src.subrange(t.start as int, t.end as int)),
        TokenKind::Number => if crate::parser::all_digits(src.subrange(t.start as int, t.end as int)) {
            Tok::Num(digits_value(src.subrange(t.start as int, t.end as int)))
        } else {
            Tok::Fraction(src.subrange(t.start as int, t.end as int))
        },
        TokenKind::Str => Tok::Text(src.subrange(t.start + 1, t.end - 1)),
        TokenKind::Symbol => Tok::Sym(src.subrange(t.start as int, t.end as int)),
    }
}

/// The tokens `ts` of the source `src`.
pub open spec fn toks_of(src: Seq<char>, ts: Seq<Token>) -> Seq<Tok> {
    ts.map_values(|t: Token| tok_of(src, t))
}

pub open spec fn sym(s: Seq<char>) -> Seq<Tok> {
    seq![Tok::Sym(s)]
}

pub open spec fn word(s: Seq<char>) -> Seq<Tok> {
    seq![Tok::Word(s)]
}

/// A name: an identifier that is no keyword.
pub open spec fn is_name(s: Seq<char>) -> bool {
    !is_keyword(s)
}

/// `: T` after a name, if annotated.
pub open spec fn annotation(t: Option<String>) -> Seq<Tok> {
    match t {
        Some(x) => sym(":"@) + word(x@),
        None => Seq::empty(),
    }
}

pub open spec fn annotation_ok(t: Option<String>) -> bool {
    match t {
        Some(x) => is_name(x@),
        None => true,
    }
}

pub open spec fn unop_text(op: UnaryOp) -> Seq<char> {
    match op {
        UnaryOp::Minus(_) => "-"@,
        UnaryOp::Not(_) => "!"@,
    }
}

pub open spec fn derives_atom(ts: Seq<Tok>, a: Atom) -> bool
    decreases a,
{
    match a {
        Atom::NumberLiteral(l) => match l {
            Literal::Number(n, _) => ts == seq![Tok::Num(n as int)],
            _ => false,
        },
        Atom::BooleanLiteral(l) => match l {
            Literal::Bool(b, _) => ts == word(
                if b {
                    "true"@
                } else {
                    "false"@
                },
            ),
            _ => false,
        },
        Atom::StringLiteral(l) => match l {
            Literal::Str(s, _) => ts == seq![Tok::Text(s@)],
            _ => false,
        },
        Atom::Variable(id) => ts == word(id.name@) && is_name(id.name@),
        Atom::Group(g) => exists|m: Seq<Tok>|
            #![trigger sym("("@) + m + sym(")"@)]
            ts == sym("("@) + m + sym(")"@) && derives_expr(m, g.expression),
    }
}

/// Expressions separated by commas.
pub open spec fn derives_list(ts: Seq<Tok>, es: Seq<Expression>) -> bool
    decreases es,
{
    if es.len() == 0 {
        ts.len() == 0
    } else if es.len() == 1 {
        derives_expr(ts, es[0])
    } else {
        exists|a: Seq<Tok>, b: Seq<Tok>|
            #![trigger a + sym(","@) + b]
            ts == a + sym(","@) + b && derives_list(a, es.drop_last()) && derives_expr(
                b,
                es.last(),
            )
    }
}

/// Expressions, each followed by `;`.
pub open spec fn derives_stmts(ts: Seq<Tok>, es: Seq<Expression>) -> bool
    decreases es,
{
    if es.len() == 0 {
        ts.len() == 0
    } else {
        exists|a: Seq<Tok>, b: Seq<Tok>|
            #![trigger a + b + sym(";"@)]
            ts == a + b + sym(";"@) && derives_stmts(a, es.drop_last()) && derives_expr(
                b,
                es.last(),
            )
    }
}

/// An expression body: an expression, or a block `{ (e ;)+ }`.
pub open spec fn derives_body(ts: Seq<Tok>, b: ExprBody) -> bool
    decreases b,
{
    match b {
        ExprBody::Single(e) => derives_expr(ts, *e),
        ExprBody::Block(es) => es@.len() > 0 && exists|m: Seq<Tok>|
            #![trigger sym("{"@) + m + sym("}"@)]
            ts == sym("{"@) + m + sym("}"@) && derives_stmts(m, es@),
    }
}

/// The declarations of a `let`, separated by commas.
pub open spec fn derives_decls(ts: Seq<Tok>, ds: Seq<LetDecl>) -> bool
    decreases ds,
{
    if ds.len() == 0 {
        ts.len() == 0
    } else {
        let d = ds.last();
        let head = word(d.name@) + annotation(d.type_ann) + sym("="@);
        is_name(d.name@) && annotation_ok(d.type_ann) && if ds.len() == 1 {
            exists|b: Seq<Tok>| #![trigger head + b] ts == head + b && derives_expr(b, d.value)
        } else {
            exists|a: Seq<Tok>, b: Seq<Tok>|
                #![trigger a + sym(","@) + head + b]
                ts == a + sym(","@) + head + b && derives_decls(a, ds.drop_last()) && derives_expr(
                    b,
                    d.value,
                )
        }
    }
}

/// The `elif` branches of an `if`.
pub open spec fn derives_elifs(ts: Seq<Tok>, bs: Seq<CondBranch>) -> bool
    decreases bs,
{
    if bs.len() == 0 {
        ts.len() == 0
    } else {
        exists|a: Seq<Tok>, c: Seq<Tok>, b: Seq<Tok>|
            #![trigger a + word("elif"@) + sym("("@) + c + sym(")"@) + b]
            ts == a + word("elif"@) + sym("("@) + c + sym(")"@) + b && derives_elifs(a, bs.drop_last())
                && derives_expr(c, bs.last().condition) && derives_body(b, bs.last().body)
    }
}

/// An optional `else` branch.
pub open spec fn derives_else(ts: Seq<Tok>, o: Option<ExprBody>) -> bool
    decreases o,
{
    match o {
        Some(b) => exists|x: Seq<Tok>|
            #![trigger word("else"@) + x]
            ts == word("else"@) + x && derives_body(x, b),
        None => ts.len() == 0,
    }
}

/// A branch of a `case`: `ID ":" ID "->" expr-body`.
pub open spec fn derives_branch(ts: Seq<Tok>, b: CaseBranch) -> bool
    decreases b,
{
    is_name(b.name@) && is_name(b.type_ident@) && exists|x: Seq<Tok>|
        #![trigger word(b.name@) + sym(":"@) + word(b.type_ident@) + sym("->"@) + x]
        ts == word(b.name@) + sym(":"@) + word(b.type_ident@) + sym("->"@) + x && derives_body(x, b.body)
}

/// Branches of a `case`, each followed by `;`.
pub open spec fn derives_branch_list(ts: Seq<Tok>, bs: Seq<CaseBranch>) -> bool
    decreases bs,
{
    if bs.len() == 0 {
        ts.len() == 0
    } else {
        exists|a: Seq<Tok>, x: Seq<Tok>|
            #![trigger a + x + sym(";"@)]
            ts == a + x + sym(";"@) && derives_branch_list(a, bs.drop_last()) && derives_branch(
                x,
                bs.last(),
            )
    }
}

/// The branches after `of`: a single branch, or branches each followed
/// by `;` in braces.
pub open spec fn derives_case_tail(ts: Seq<Tok>, bs: Seq<CaseBranch>) -> bool
    decreases bs,
{
    (bs.len() == 1 && derives_branch(ts, bs[0])) || (bs.len() == 0 && ts == sym("{"@) + sym("}"@)) || (bs.len() > 0
        && exists|a: Seq<Tok>, x: Seq<Tok>|
            #![trigger sym("{"@) + a + x + sym(";"@) + sym("}"@)]
            ts == sym("{"@) + a + x + sym(";"@) + sym("}"@) && derives_branch_list(a, bs.drop_last())
            && derives_branch(x, bs.last()))
}

/// The optional initializer of an array: `{ ID -> expr }`.
pub open spec fn derives_init(ts: Seq<Tok>, o: Option<(String, Expression)>) -> bool
    decreases o,
{
    match o {
        Some(p) => is_name(p.0@) && exists|v: Seq<Tok>|
            #![trigger sym("{"@) + word(p.0@) + sym("->"@) + v + sym("}"@)]
            ts == sym("{"@) + word(p.0@) + sym("->"@) + v + sym("}"@) && derives_expr(v, p.1),
        None => ts.len() == 0,
    }
}

pub open spec fn opt_word(t: Option<String>) -> Seq<Tok> {
    match t {
        Some(x) => word(x@),
        None => Seq::empty(),
    }
}

/// The precedence level of a binary operator, from 19 (`|`, the loosest)
/// to 12 (`^`, the tightest); 0 for `=` and `:=`, which join no operands
/// of an expression.
pub open spec fn binop_level(op: BinOp) -> int {
    match op {
        BinOp::Or(_) => 19,
        BinOp::And(_) => 18,
        BinOp::EqualEqual(_) | BinOp::NotEqual(_) => 17,
        BinOp::Less(_) | BinOp::LessEqual(_) | BinOp::Greater(_) | BinOp::GreaterEqual(_) => 16,
        BinOp::Concat(_) | BinOp::ConcatSpaced(_) => 15,
        BinOp::Plus(_) | BinOp::Minus(_) => 14,
        BinOp::Mul(_) | BinOp::Div(_) | BinOp::Mod(_) => 13,
        BinOp::Pow(_) => 12,
        BinOp::Equal(_) | BinOp::Assign(_) => 0,
    }
}

/// How tightly an expression binds, by its outermost node: 0 for `let`,
/// `if`, `while`, `for` and `case`, 1 for `:=`, 21 less the level of a
/// binary operator (5 for `is` and `as`, which share the level of `<`),
/// 10 for a unary operator, 11 for `.`, `[]` and method calls, and 12 for
/// literals, variables, groups, calls and `new`.
pub open spec fn binding(e: Expression) -> int {
    match e {
        Expression::Let(_) | Expression::If(_) | Expression::While(_) | Expression::For(_) | Expression::Case(_) => 0,
        Expression::Assign(_) => 1,
        Expression::BinaryOp(b) => 21 - binop_level(b.operator),
        Expression::IsType(_) | Expression::AsType(_) => 5,
        Expression::UnaryOp(_) => 10,
        Expression::MemberAccess(_) | Expression::MethodCall(_) | Expression::IndexAccess(_) => 11,
        _ => 12,
    }
}

/// The operands of a binary operator bind as its precedence and
/// associativity ask: `^` is right associative, the others left
/// associative.
pub open spec fn operands_bind(b: BinaryOp) -> bool {
    let lv = binop_level(b.operator);
    lv > 0 && if lv == 12 {
        binding(*b.left) > 9 && binding(*b.right) >= 9
    } else {
        binding(*b.left) >= 21 - lv && binding(*b.right) > 21 - lv
    }
}

/// The tokens an expression is written as.
pub open spec fn derives_expr(ts: Seq<Tok>, e: Expression) -> bool
    decreases e,
{
    match e {
        Expression::Atom(a) => derives_atom(ts, *a),
        Expression::BinaryOp(b) => operands_bind(b) && exists|l: Seq<Tok>, r: Seq<Tok>|
            #![trigger l + sym(spec_binop_text(b.operator)) + r]
            ts == l + sym(spec_binop_text(b.operator)) + r && derives_expr(l, *b.left)
                && derives_expr(r, *b.right),
        Expression::UnaryOp(u) => binding(*u.expr) >= 10 && exists|x: Seq<Tok>|
            #![trigger sym(unop_text(u.op)) + x]
            ts == sym(unop_text(u.op)) + x && derives_expr(x, *u.expr),
        Expression::Let(l) => exists|a: Seq<Tok>, b: Seq<Tok>|
            #![trigger word("let"@) + a + word("in"@) + b]
            ts == word("let"@) + a + word("in"@) + b && l.decls@.len() > 0 && derives_decls(a, l.decls@)
                && derives_body(b, l.body),
        Expression::If(i) => exists|c: Seq<Tok>, t: Seq<Tok>, a: Seq<Tok>, el: Seq<Tok>|
            #![trigger word("if"@) + sym("("@) + c + sym(")"@) + t + a + el]
            ts == word("if"@) + sym("("@) + c + sym(")"@) + t + a + el && derives_expr(c, i.condition)
                && derives_body(t, i.then_body) && derives_elifs(a, i.elif_branches@)
                && derives_else(el, i.else_body),
        Expression::While(w) => exists|c: Seq<Tok>, b: Seq<Tok>, el: Seq<Tok>|
            #![trigger word("while"@) + sym("("@) + c + sym(")"@) + b + el]
            ts == word("while"@) + sym("("@) + c + sym(")"@) + b + el && derives_expr(c, w.condition)
                && derives_body(b, w.body) && derives_else(el, w.else_body),
        Expression::For(f) => is_name(f.var@) && exists|x: Seq<Tok>, b: Seq<Tok>|
            #![trigger word("for"@) + sym("("@) + word(f.var@) + word("in"@) + x + sym(")"@) + b]
            ts == word("for"@) + sym("("@) + word(f.var@) + word("in"@) + x + sym(")"@) + b
                && derives_expr(x, f.iterable) && derives_body(b, f.body),
        Expression::IsType(x) => is_name(x.type_ident@) && binding(x.expr) >= 5 && exists|a: Seq<Tok>|
            #![trigger a + word("is"@) + word(x.type_ident@)]
            ts == a + word("is"@) + word(x.type_ident@) && derives_expr(a, x.expr),
        Expression::AsType(x) => is_name(x.type_ident@) && binding(x.expr) >= 5 && exists|a: Seq<Tok>|
            #![trigger a + word("as"@) + word(x.type_ident@)]
            ts == a + word("as"@) + word(x.type_ident@) && derives_expr(a, x.expr),
        Expression::Case(k) => exists|x: Seq<Tok>, bs: Seq<Tok>|
            #![trigger word("case"@) + x + word("of"@) + bs]
            ts == word("case"@) + x + word("of"@) + bs && derives_expr(x, k.expr)
                && derives_case_tail(bs, k.branches@),
        Expression::Assign(a) => binding(a.target) >= 2 && binding(a.value) >= 1 && exists|t: Seq<Tok>, v: Seq<Tok>|
            #![trigger t + sym(":="@) + v]
            ts == t + sym(":="@) + v && derives_expr(t, a.target) && derives_expr(v, a.value),
        Expression::FunctionCall(c) => is_name(c.name@) && exists|a: Seq<Tok>|
            #![trigger word(c.name@) + sym("("@) + a + sym(")"@)]
            ts == word(c.name@) + sym("("@) + a + sym(")"@) && derives_list(a, c.args@),
        Expression::MemberAccess(m) => is_name(m.member@) && binding(m.object) >= 11 && exists|o: Seq<Tok>|
            #![trigger o + sym("."@) + word(m.member@)]
            ts == o + sym("."@) + word(m.member@) && derives_expr(o, m.object),
        Expression::MethodCall(m) => is_name(m.method@) && binding(m.object) >= 11 && exists|o: Seq<Tok>, a: Seq<Tok>|
            #![trigger o + sym("."@) + word(m.method@) + sym("("@) + a + sym(")"@)]
            ts == o + sym("."@) + word(m.method@) + sym("("@) + a + sym(")"@) && derives_expr(o, m.object)
                && derives_list(a, m.args@),
        Expression::IndexAccess(x) => binding(x.object) >= 11 && exists|o: Seq<Tok>, i: Seq<Tok>|
            #![trigger o + sym("["@) + i + sym("]"@)]
            ts == o + sym("["@) + i + sym("]"@) && derives_expr(o, x.object) && derives_expr(
                i,
                x.index,
            ),
        Expression::NewInstance(n) => is_name(n.type_ident@) && exists|a: Seq<Tok>|
            #![trigger word("new"@) + word(n.type_ident@) + sym("("@) + a + sym(")"@)]
            ts == word("new"@) + word(n.type_ident@) + sym("("@) + a + sym(")"@) && derives_list(a, n.args@),
        Expression::NewArray(n) => annotation_ok(n.type_ident) && exists|s: Seq<Tok>, i: Seq<Tok>|
            #![trigger word("new"@) + opt_word(n.type_ident) + sym("["@) + s + sym("]"@) + i]
            ts == word("new"@) + opt_word(n.type_ident) + sym("["@) + s + sym("]"@) + i && derives_expr(
                s,
                n.size,
            ) && derives_init(i, n.init),
    }
}

// ── Declarations ──

/// A block `{ (e ;)+ }`.
pub open spec fn derives_block(ts: Seq<Tok>, es: Seq<Expression>) -> bool {
    es.len() > 0 && exists|m: Seq<Tok>|
        #![trigger sym("{"@) + m + sym("}"@)]
        ts == sym("{"@) + m + sym("}"@) && derives_stmts(m, es)
}

pub open spec fn param_toks(p: Param) -> Seq<Tok> {
    word(p.name@) + annotation(p.type_ann)
}

pub open spec fn param_ok(p: Param) -> bool {
    is_name(p.name@) && annotation_ok(p.type_ann)
}

/// Parameters separated by commas.
pub open spec fn derives_params(ts: Seq<Tok>, ps: Seq<Param>) -> bool
    decreases ps.len(),
{
    if ps.len() == 0 {
        ts.len() == 0
    } else if ps.len() == 1 {
        ts == param_toks(ps[0]) && param_ok(ps[0])
    } else {
        param_ok(ps.last()) && exists|a: Seq<Tok>|
            #![trigger a + sym(","@) + param_toks(ps.last())]
            ts == a + sym(","@) + param_toks(ps.last()) && derives_params(a, ps.drop_last())
    }
}

/// The body of a function or method: `-> e ;` or a block.
pub open spec fn derives_fn_body(ts: Seq<Tok>, b: Body) -> bool {
    match b {
        Body::Inline(e) => exists|x: Seq<Tok>|
            #![trigger sym("->"@) + x + sym(";"@)]
            ts == sym("->"@) + x + sym(";"@) && derives_expr(x, e),
        Body::Block(es) => derives_block(ts, es@),
    }
}

/// `name ( params ) [: T] body`, the part of a function or method after
/// the keyword.
pub open spec fn derives_signature(ts: Seq<Tok>, name: Seq<char>, ps: Seq<Param>, ret: Option<String>, b: Body) -> bool {
    is_name(name) && annotation_ok(ret) && exists|p: Seq<Tok>, x: Seq<Tok>|
        #![trigger word(name) + sym("("@) + p + sym(")"@) + annotation(ret) + x]
        ts == word(name) + sym("("@) + p + sym(")"@) + annotation(ret) + x && derives_params(p, ps)
            && derives_fn_body(x, b)
}

pub open spec fn derives_function(ts: Seq<Tok>, f: FunctionDecl) -> bool {
    exists|x: Seq<Tok>|
        #![trigger word("function"@) + x]
        ts == word("function"@) + x && derives_signature(x, f.name@, f.params@, f.return_type, f.body)
}

pub open spec fn derives_functions(ts: Seq<Tok>, fs: Seq<FunctionDecl>) -> bool
    decreases fs.len(),
{
    if fs.len() == 0 {
        ts.len() == 0
    } else {
        exists|a: Seq<Tok>, b: Seq<Tok>|
            #![trigger a + b]
            ts == a + b && derives_functions(a, fs.drop_last()) && derives_function(b, fs.last())
    }
}

/// An attribute: `ID [":" ID] "=" expr ";"`.
pub open spec fn derives_attribute(ts: Seq<Tok>, a: Attribute) -> bool {
    is_name(a.name@) && annotation_ok(a.type_ann) && exists|x: Seq<Tok>|
        #![trigger word(a.name@) + annotation(a.type_ann) + sym("="@) + x + sym(";"@)]
        ts == word(a.name@) + annotation(a.type_ann) + sym("="@) + x + sym(";"@) && derives_expr(x, a.init)
}

pub open spec fn derives_attributes(ts: Seq<Tok>, attrs: Seq<Attribute>) -> bool
    decreases attrs.len(),
{
    if attrs.len() == 0 {
        ts.len() == 0
    } else {
        exists|a: Seq<Tok>, b: Seq<Tok>|
            #![trigger a + b]
            ts == a + b && derives_attributes(a, attrs.drop_last()) && derives_attribute(
                b,
                attrs.last(),
            )
    }
}

pub open spec fn derives_methods(ts: Seq<Tok>, ms: Seq<Method>) -> bool
    decreases ms.len(),
{
    if ms.len() == 0 {
        ts.len() == 0
    } else {
        let m = ms.last();
        exists|a: Seq<Tok>, b: Seq<Tok>|
            #![trigger a + b]
            ts == a + b && derives_methods(a, ms.drop_last()) && derives_signature(b, m.name@,
                m.params@, m.return_type, m.body)
    }
}

/// The optional constructor parameters of a class.
pub open spec fn derives_class_params(ts: Seq<Tok>, ps: Seq<Param>) -> bool {
    (ps.len() == 0 && ts.len() == 0) || exists|x: Seq<Tok>|
        #![trigger sym("("@) + x + sym(")"@)]
        ts == sym("("@) + x + sym(")"@) && derives_params(
        x,
        ps,
    )
}

/// The optional parent of a class, with the optional arguments of its
/// constructor.
pub open spec fn derives_parent(ts: Seq<Tok>, parent: Option<String>, args: Seq<Expression>) -> bool {
    match parent {
        None => ts.len() == 0 && args.len() == 0,
        Some(p) => is_name(p@) && ((args.len() == 0 && ts == word("is"@) + word(p@)) || exists|x: Seq<Tok>|
            #![trigger word("is"@) + word(p@) + sym("("@) + x + sym(")"@)]
            ts == word("is"@) + word(p@) + sym("("@) + x + sym(")"@) && derives_list(x, args)),
    }
}

pub open spec fn derives_class(ts: Seq<Tok>, c: ClassDecl) -> bool {
    is_name(c.name@) && exists|ps: Seq<Tok>, pa: Seq<Tok>, at: Seq<Tok>, ms: Seq<Tok>|
        #![trigger word("class"@) + word(c.name@) + ps + pa + sym("{"@) + at + ms + sym("}"@)]
        ts == word("class"@) + word(c.name@) + ps + pa + sym("{"@) + at + ms + sym("}"@)
            && derives_class_params(ps, c.params@) && derives_parent(pa, c.parent,
            c.parent_args@) && derives_attributes(at, c.attributes@) && derives_methods(ms,
            c.methods@)
}

pub open spec fn derives_classes(ts: Seq<Tok>, cs: Seq<ClassDecl>) -> bool
    decreases cs.len(),
{
    if cs.len() == 0 {
        ts.len() == 0
    } else {
        exists|a: Seq<Tok>, b: Seq<Tok>|
            #![trigger a + b]
            ts == a + b && derives_classes(a, cs.drop_last()) && derives_class(b, cs.last())
    }
}

/// The optional entry of a program: `expr ;`, or a block with an
/// optional `;` after it.
pub open spec fn derives_entry(ts: Seq<Tok>, o: Option<ExprBody>) -> bool {
    match o {
        None => ts.len() == 0,
        Some(ExprBody::Single(e)) => exists|x: Seq<Tok>|
            #![trigger x + sym(";"@)]
            ts == x + sym(";"@) && derives_expr(x, *e),
        Some(ExprBody::Block(es)) => exists|x: Seq<Tok>| (ts == x || ts == x + sym(";"@)) && #[trigger] derives_block(
            x,
            es@,
        ),
    }
}

/// The tokens a program is written as: its classes, its functions and
/// its entry, in this order.
pub open spec fn derives_program(ts: Seq<Tok>, p: Program) -> bool {
    exists|c: Seq<Tok>, f: Seq<Tok>, e: Seq<Tok>|
        #![trigger c + f + e]
        ts == c + f + e && derives_classes(c, p.classes@) && derives_functions(f,
            p.functions@) && derives_entry(e, p.entry)
}

// ── Building derivations ──

pub proof fn lemma_binary(l: Seq<Tok>, r: Seq<Tok>, b: BinaryOp)
    requires
        operands_bind(b),
        derives_expr(l, *b.left),
        derives_expr(r, *b.right),
    ensures
        derives_expr(l + sym(spec_binop_text(b.operator)) + r, Expression::BinaryOp(b)),
{
}

pub proof fn lemma_unary(x: Seq<Tok>, u: ast::UnaryOp)
    requires
        binding(*u.expr) >= 10,
        derives_expr(x, *u.expr),
    ensures
        derives_expr(sym(unop_text(u.op)) + x, Expression::UnaryOp(u)),
{
}

pub proof fn lemma_assign(t: Seq<Tok>, v: Seq<Tok>, a: AssignExpr)
    requires
        binding(a.target) >= 2,
        binding(a.value) >= 1,
        derives_expr(t, a.target),
        derives_expr(v, a.value),
    ensures
        derives_expr(t + sym(":="@) + v, Expression::Assign(Box::new(a))),
{
}

pub proof fn lemma_is(a: Seq<Tok>, x: IsExpr)
    requires
        binding(x.expr) >= 5,
        derives_expr(a, x.expr),
        is_name(x.type_ident@),
    ensures
        derives_expr(a + word("is"@) + word(x.type_ident@), Expression::IsType(Box::new(x))),
{
}

pub proof fn lemma_as(a: Seq<Tok>, x: AsExpr)
    requires
        binding(x.expr) >= 5,
        derives_expr(a, x.expr),
        is_name(x.type_ident@),
    ensures
        derives_expr(a + word("as"@) + word(x.type_ident@), Expression::AsType(Box::new(x))),
{
}

pub proof fn lemma_member(o: Seq<Tok>, m: MemberAccess)
    requires
        binding(m.object) >= 11,
        derives_expr(o, m.object),
        is_name(m.member@),
    ensures
        derives_expr(o + sym("."@) + word(m.member@), Expression::MemberAccess(Box::new(m))),
{
}

pub proof fn lemma_method_call(o: Seq<Tok>, a: Seq<Tok>, m: MethodCall)
    requires
        binding(m.object) >= 11,
        derives_expr(o, m.object),
        derives_list(a, m.args@),
        is_name(m.method@),
    ensures
        derives_expr(o + sym("."@) + word(m.method@) + sym("("@) + a + sym(")"@), Expression::MethodCall(Box::new(m))),
{
}

pub proof fn lemma_index(o: Seq<Tok>, i: Seq<Tok>, x: IndexAccess)
    requires
        binding(x.object) >= 11,
        derives_expr(o, x.object),
        derives_expr(i, x.index),
    ensures
        derives_expr(o + sym("["@) + i + sym("]"@), Expression::IndexAccess(Box::new(x))),
{
}

pub proof fn lemma_call(a: Seq<Tok>, c: FunctionCall)
    requires
        derives_list(a, c.args@),
        is_name(c.name@),
    ensures
        derives_expr(word(c.name@) + sym("("@) + a + sym(")"@), Expression::FunctionCall(Box::new(c))),
{
}

pub proof fn lemma_new_instance(a: Seq<Tok>, n: NewInstance)
    requires
        derives_list(a, n.args@),
        is_name(n.type_ident@),
    ensures
        derives_expr(word("new"@) + word(n.type_ident@) + sym("("@) + a + sym(")"@), Expression::NewInstance(
            Box::new(n),
        )),
{
}

pub proof fn lemma_new_array(sz: Seq<Tok>, i: Seq<Tok>, n: NewArray)
    requires
        derives_expr(sz, n.size),
        derives_init(i, n.init),
        annotation_ok(n.type_ident),
    ensures
        derives_expr(word("new"@) + opt_word(n.type_ident) + sym("["@) + sz + sym("]"@) + i, Expression::NewArray(
            Box::new(n),
        )),
{
}

pub proof fn lemma_init(v: Seq<Tok>, var: String, e: Expression)
    requires
        derives_expr(v, e),
        is_name(var@),
    ensures
        derives_init(sym("{"@) + word(var@) + sym("->"@) + v + sym("}"@), Some((var, e))),
{
}

pub proof fn lemma_group(m: Seq<Tok>, g: Group)
    requires
        derives_expr(m, g.expression),
    ensures
        derives_expr(sym("("@) + m + sym(")"@), Expression::Atom(Box::new(Atom::Group(Box::new(g))))),
{
    assert(derives_atom(sym("("@) + m + sym(")"@), Atom::Group(Box::new(g))));
}

pub proof fn lemma_stmts_push(a: Seq<Tok>, b: Seq<Tok>, es: Seq<Expression>, e: Expression)
    requires
        derives_stmts(a, es),
        derives_expr(b, e),
    ensures
        derives_stmts(a + b + sym(";"@), es.push(e)),
{
    assert(es.push(e).drop_last() =~= es);
}

pub proof fn lemma_body_block(m: Seq<Tok>, es: Vec<Expression>)
    requires
        es@.len() > 0,
        derives_stmts(m, es@),
    ensures
        derives_body(sym("{"@) + m + sym("}"@), ExprBody::Block(es)),
        derives_block(sym("{"@) + m + sym("}"@), es@),
{
}

pub proof fn lemma_decls_push(a: Seq<Tok>, b: Seq<Tok>, ds: Seq<LetDecl>, d: LetDecl)
    requires
        ds.len() >= 1,
        derives_decls(a, ds),
        derives_expr(b, d.value),
        is_name(d.name@),
        annotation_ok(d.type_ann),
    ensures
        derives_decls(a + sym(","@) + (word(d.name@) + annotation(d.type_ann) + sym("="@)) + b, ds.push(d)),
{
    assert(ds.push(d).drop_last() =~= ds);
}

pub proof fn lemma_decls_one(b: Seq<Tok>, d: LetDecl)
    requires
        derives_expr(b, d.value),
        is_name(d.name@),
        annotation_ok(d.type_ann),
    ensures
        derives_decls((word(d.name@) + annotation(d.type_ann) + sym("="@)) + b, seq![d]),
{
}

pub proof fn lemma_let(a: Seq<Tok>, b: Seq<Tok>, l: LetExpr)
    requires
        l.decls@.len() > 0,
        derives_decls(a, l.decls@),
        derives_body(b, l.body),
    ensures
        derives_expr(word("let"@) + a + word("in"@) + b, Expression::Let(Box::new(l))),
{
}

pub proof fn lemma_elifs_push(a: Seq<Tok>, c: Seq<Tok>, b: Seq<Tok>, bs: Seq<CondBranch>, x: CondBranch)
    requires
        derives_elifs(a, bs),
        derives_expr(c, x.condition),
        derives_body(b, x.body),
    ensures
        derives_elifs(a + word("elif"@) + sym("("@) + c + sym(")"@) + b, bs.push(x)),
{
    assert(bs.push(x).drop_last() =~= bs);
}

pub proof fn lemma_else(x: Seq<Tok>, b: ExprBody)
    requires
        derives_body(x, b),
    ensures
        derives_else(word("else"@) + x, Some(b)),
{
}

pub proof fn lemma_if(c: Seq<Tok>, t: Seq<Tok>, a: Seq<Tok>, el: Seq<Tok>, i: IfExpr)
    requires
        derives_expr(c, i.condition),
        derives_body(t, i.then_body),
        derives_elifs(a, i.elif_branches@),
        derives_else(el, i.else_body),
    ensures
        derives_expr(word("if"@) + sym("("@) + c + sym(")"@) + t + a + el, Expression::If(Box::new(i))),
{
}

pub proof fn lemma_while(c: Seq<Tok>, b: Seq<Tok>, el: Seq<Tok>, w: WhileExpr)
    requires
        derives_expr(c, w.condition),
        derives_body(b, w.body),
        derives_else(el, w.else_body),
    ensures
        derives_expr(word("while"@) + sym("("@) + c + sym(")"@) + b + el, Expression::While(Box::new(w))),
{
}

pub proof fn lemma_for(x: Seq<Tok>, b: Seq<Tok>, f: ForExpr)
    requires
        derives_expr(x, f.iterable),
        derives_body(b, f.body),
        is_name(f.var@),
    ensures
        derives_expr(word("for"@) + sym("("@) + word(f.var@) + word("in"@) + x + sym(")"@) + b, Expression::For(
            Box::new(f),
        )),
{
}

pub proof fn lemma_branch(x: Seq<Tok>, b: CaseBranch)
    requires
        derives_body(x, b.body),
        is_name(b.name@),
        is_name(b.type_ident@),
    ensures
        derives_branch(word(b.name@) + sym(":"@) + word(b.type_ident@) + sym("->"@) + x, b),
{
}

pub proof fn lemma_branch_list_push(a: Seq<Tok>, x: Seq<Tok>, bs: Seq<CaseBranch>, b: CaseBranch)
    requires
        derives_branch_list(a, bs),
        derives_branch(x, b),
    ensures
        derives_branch_list(a + x + sym(";"@), bs.push(b)),
{
    assert(bs.push(b).drop_last() =~= bs);
}

/// The braced branches of a `case`, from the branch list inside.
pub proof fn lemma_case_braced(m: Seq<Tok>, bs: Seq<CaseBranch>)
    requires
        derives_branch_list(m, bs),
    ensures
        derives_case_tail(sym("{"@) + m + sym("}"@), bs),
{
    if bs.len() == 0 {
        assert(m.len() == 0);
        assert(sym("{"@) + m + sym("}"@) =~= sym("{"@) + sym("}"@));
    } else {
        let (a, x) = choose|a: Seq<Tok>, x: Seq<Tok>| #![trigger a + x + sym(";"@)]
            m == a + x + sym(";"@) && derives_branch_list(a, bs.drop_last()) && derives_branch(x, bs.last());
        assert(sym("{"@) + m + sym("}"@) =~= sym("{"@) + a + x + sym(";"@) + sym("}"@));
    }
}

pub proof fn lemma_case_single(x: Seq<Tok>, b: CaseBranch)
    requires
        derives_branch(x, b),
    ensures
        derives_case_tail(x, seq![b]),
{
}

pub proof fn lemma_case(x: Seq<Tok>, bs: Seq<Tok>, k: CaseExpr)
    requires
        derives_expr(x, k.expr),
        derives_case_tail(bs, k.branches@),
    ensures
        derives_expr(word("case"@) + x + word("of"@) + bs, Expression::Case(Box::new(k))),
{
}

} // verus!

//! Pass 3: type checking.
//!
//! Infers the type of every expression and verifies that operators are
//! applied to operands of the right types, that conditions are Boolean,
//! that arguments conform to parameter types, that bodies conform to
//! declared return types, that assigned values conform to their targets,
//! and that members and methods exist on the types they are used on.

use vstd::prelude::*;
use crate::ast::{
    Attribute, Param, AssignExpr, Atom, BinaryOp, Body, CaseBranch, CaseExpr, ClassDecl, CondBranch, ExprBody,
    Expression, ForExpr, FunctionCall, FunctionDecl, IfExpr, IndexAccess, LetDecl, LetExpr,
    MemberAccess, Method, MethodCall, NewArray, NewInstance, Program, UnaryOp, WhileExpr, spec_expr_span,
};
use crate::tokens::{BinOp, Span, spec_binop_text, spec_unop_text};
use crate::tokens;
use crate::text::{str_eq, spec_decimal};
use super::errors::{CompilerError, Severity, DiagV, diag_view, diags_view};
use super::symbol_table::{
    SymbolTable, VarInfo, FuncInfo, ClassInfo, find_class, find_func, find_name, var_names, copy_params,
    spec_lookup, spec_lca, spec_conforms, spec_resolve_attribute, spec_resolve_method,
};
use super::types::{HulkType, TypeV, spec_from_name, spec_is_resolved, spec_type_name};

verus! {

// ───────────────────────── The typing model ─────────────────────────

/// What typing reads of the symbol table: classes, functions and the
/// class being checked.
pub type TcCtx = (Seq<ClassInfo>, Seq<FuncInfo>, Option<Seq<char>>);

/// The variables in scope, by name and type, outermost scope first.
pub type TStack = Seq<Seq<(Seq<char>, TypeV)>>;

/// The names and types of a stack of scopes.
pub open spec fn tview(stack: Seq<Seq<VarInfo>>) -> TStack {
    stack.map_values(|sc: Seq<VarInfo>| sc.map_values(|v: VarInfo| (v.name@, v.hulk_type@)))
}

pub open spec fn scope_names(sc: Seq<(Seq<char>, TypeV)>) -> Seq<Seq<char>> {
    sc.map_values(|v: (Seq<char>, TypeV)| v.0)
}

/// The type of the innermost variable `name`.
pub open spec fn tc_lookup(st: TStack, name: Seq<char>) -> Option<TypeV>
    decreases st.len(),
{
    if st.len() == 0 {
        None
    } else {
        match find_name(scope_names(st.last()), name, 0) {
            Some(i) => Some(st.last()[i].1),
            None => tc_lookup(st.drop_last(), name),
        }
    }
}

/// `st` with `name` bound to `t` in the innermost scope, unless that scope
/// already binds it.
pub open spec fn tc_define(st: TStack, name: Seq<char>, t: TypeV) -> TStack {
    if find_name(scope_names(st.last()), name, 0) is Some {
        st
    } else {
        st.update(st.len() - 1, st.last().push((name, t)))
    }
}

/// The class whose members a value of type `t` has.
pub open spec fn class_name_of(current: Option<Seq<char>>, t: TypeV) -> Option<Seq<char>> {
    match t {
        TypeV::Class(n) => Some(n),
        TypeV::Number => Some("Number"@),
        TypeV::Str => Some("String"@),
        TypeV::Boolean => Some("Boolean"@),
        TypeV::Object => Some("Object"@),
        TypeV::SelfType => current,
        _ => None,
    }
}

pub open spec fn is_arithmetic(op: BinOp) -> bool {
    op is Plus || op is Minus || op is Mul || op is Div || op is Mod || op is Pow
}

pub open spec fn is_comparison(op: BinOp) -> bool {
    op is Less || op is LessEqual || op is Greater || op is GreaterEqual
}

/// The type of `l op r`, and whether the operand types are reported.
pub open spec fn binop_rule(op: BinOp, l: TypeV, r: TypeV) -> (TypeV, bool) {
    if l is Error || r is Error {
        (TypeV::Error, false)
    } else if is_arithmetic(op) {
        if l != TypeV::Number || r != TypeV::Number {
            (TypeV::Error, true)
        } else {
            (TypeV::Number, false)
        }
    } else if is_comparison(op) {
        if l != TypeV::Number || r != TypeV::Number {
            (TypeV::Error, true)
        } else {
            (TypeV::Boolean, false)
        }
    } else if op is EqualEqual || op is NotEqual {
        (TypeV::Boolean, false)
    } else if op is And || op is Or {
        if l != TypeV::Boolean || r != TypeV::Boolean {
            (TypeV::Error, true)
        } else {
            (TypeV::Boolean, false)
        }
    } else if op is Concat || op is ConcatSpaced {
        (TypeV::Str, false)
    } else {
        (TypeV::Error, false)
    }
}

/// The type of `op t`, and whether the operand type is reported.
pub open spec fn unop_rule(op: tokens::UnaryOp, t: TypeV) -> (TypeV, bool) {
    if t is Error {
        (TypeV::Error, false)
    } else {
        match op {
            tokens::UnaryOp::Minus(_) => if t == TypeV::Number {
                (TypeV::Number, false)
            } else {
                (TypeV::Error, true)
            },
            tokens::UnaryOp::Not(_) => if t == TypeV::Boolean {
                (TypeV::Boolean, false)
            } else {
                (TypeV::Error, true)
            },
        }
    }
}

pub open spec fn type_mismatch_v(expected: TypeV, got: TypeV, span: Span) -> DiagV {
    ("E200"@, "Se esperaba tipo '"@ + spec_type_name(expected) + "', pero se obtuvo '"@ + spec_type_name(got)
        + "'"@, span, Severity::Error, None)
}

pub open spec fn binop_error_v(op: BinOp, l: TypeV, r: TypeV, span: Span) -> DiagV {
    ("E201"@, "Operador '"@ + spec_binop_text(op) + "' no se puede aplicar a tipos '"@ + spec_type_name(l)
        + "' y '"@ + spec_type_name(r) + "'"@, span, Severity::Error, None)
}

pub open spec fn unop_error_v(op: tokens::UnaryOp, t: TypeV, span: Span) -> DiagV {
    ("E202"@, "Operador unario '"@ + spec_unop_text(op) + "' no se puede aplicar al tipo '"@
        + spec_type_name(t) + "'"@, span, Severity::Error, None)
}

pub open spec fn condition_v(span: Span) -> DiagV {
    ("E203"@, "La condición debe ser de tipo 'Boolean'"@, span, Severity::Error, None)
}

pub open spec fn not_indexable_v(t: TypeV, span: Span) -> DiagV {
    ("E204"@, "El tipo '"@ + spec_type_name(t) + "' no es indexable"@, span, Severity::Error,
        Some("Solo los arrays pueden ser indexados con []."@))
}

pub open spec fn index_v(span: Span) -> DiagV {
    ("E205"@, "El índice de un array debe ser de tipo 'Number'"@, span, Severity::Error, None)
}

pub open spec fn return_mismatch_v(func: Seq<char>, expected: TypeV, got: TypeV, span: Span) -> DiagV {
    ("E207"@, "La función '"@ + func + "' debe retornar '"@ + spec_type_name(expected) + "', pero retorna '"@
        + spec_type_name(got) + "'"@, span, Severity::Error, None)
}

pub open spec fn nonconform_v(got: TypeV, expected: TypeV, span: Span) -> DiagV {
    ("E208"@, "El tipo '"@ + spec_type_name(got) + "' no conforma al tipo esperado '"@ + spec_type_name(expected)
        + "'"@, span, Severity::Error, None)
}

pub open spec fn undefined_member_v(class: Seq<char>, member: Seq<char>, span: Span) -> DiagV {
    ("E108"@, "El tipo '"@ + class + "' no tiene un miembro '"@ + member + "'"@, span, Severity::Error, None)
}

pub open spec fn undefined_method_v(class: Seq<char>, method: Seq<char>, span: Span) -> DiagV {
    ("E109"@, "El tipo '"@ + class + "' no tiene un método '"@ + method + "'"@, span, Severity::Error, None)
}

pub open spec fn arity_v(name: Seq<char>, expected: nat, got: nat, span: Span) -> DiagV {
    ("E104"@, "'"@ + name + "' espera "@ + spec_decimal(expected) + " argumento(s), pero se proporcionaron "@
        + spec_decimal(got), span, Severity::Error, None)
}

/// The report when `got` does not conform to the declared `expected`
/// (both resolved), with `mk` building it.
pub open spec fn conformance_check(classes: Seq<ClassInfo>, got: TypeV, expected: TypeV, report: DiagV) -> Seq<DiagV> {
    if spec_is_resolved(expected) && spec_is_resolved(got) && !spec_conforms(classes, got, expected) {
        seq![report]
    } else {
        Seq::empty()
    }
}

/// The reports of arguments whose types do not conform to the parameter
/// types, for the first `n` positions.
pub open spec fn argument_reports(classes: Seq<ClassInfo>, params: Seq<(String, HulkType)>, arg_types: Seq<TypeV>,
    args: Seq<Expression>, fallback: Span, n: nat) -> Seq<DiagV>
    decreases n,
{
    if n == 0 {
        Seq::empty()
    } else {
        let i = n - 1;
        let p = params[i].1@;
        let a = arg_types[i];
        let span = if i < args.len() { spec_expr_span(args[i]) } else { fallback };
        argument_reports(classes, params, arg_types, args, fallback, (n - 1) as nat) + conformance_check(classes, a, p,
            nonconform_v(a, p, span))
    }
}

pub open spec fn min_nat(a: nat, b: nat) -> nat {
    if a <= b { a } else { b }
}

/// The type of an atom.
pub open spec fn tc_atom(cx: TcCtx, st: TStack, a: Atom) -> (TypeV, Seq<DiagV>)
    decreases a,
{
    match a {
        Atom::NumberLiteral(_) => (TypeV::Number, Seq::empty()),
        Atom::StringLiteral(_) => (TypeV::Str, Seq::empty()),
        Atom::BooleanLiteral(_) => (TypeV::Boolean, Seq::empty()),
        Atom::Variable(id) => if id.name@ == "self"@ {
            (match cx.2 {
                Some(n) => TypeV::Class(n),
                None => TypeV::Error,
            }, Seq::empty())
        } else {
            (match tc_lookup(st, id.name@) {
                Some(t) => t,
                None => TypeV::Error,
            }, Seq::empty())
        },
        Atom::Group(g) => tc_expr(cx, st, g.expression),
    }
}

/// The types of a list of expressions, each in `st`, with their reports.
pub open spec fn tc_list(cx: TcCtx, st: TStack, es: Seq<Expression>) -> (Seq<TypeV>, Seq<DiagV>)
    decreases es,
{
    if es.len() == 0 {
        (Seq::empty(), Seq::empty())
    } else {
        let pre = tc_list(cx, st, es.drop_last());
        let last = tc_expr(cx, st, es.last());
        (pre.0.push(last.0), pre.1 + last.1)
    }
}

/// The type of a block: that of its last expression, `Void` if empty.
pub open spec fn block_type(types: Seq<TypeV>) -> TypeV {
    if types.len() == 0 { TypeV::Void } else { types.last() }
}

/// The type of an expression body and the reports of checking it.
pub open spec fn tc_body(cx: TcCtx, st: TStack, b: ExprBody) -> (TypeV, Seq<DiagV>)
    decreases b,
{
    match b {
        ExprBody::Single(e) => tc_expr(cx, st, *e),
        ExprBody::Block(es) => {
            let l = tc_list(cx, st, es@);
            (block_type(l.0), l.1)
        },
    }
}

/// The type of a function or method body and the reports of checking it.
pub open spec fn tc_fn_body(cx: TcCtx, st: TStack, b: Body) -> (TypeV, Seq<DiagV>) {
    match b {
        Body::Inline(e) => tc_expr(cx, st, e),
        Body::Block(es) => {
            let l = tc_list(cx, st, es@);
            (block_type(l.0), l.1)
        },
    }
}

/// The report of a non-Boolean condition.
pub open spec fn condition_check(t: TypeV, span: Span) -> Seq<DiagV> {
    if spec_is_resolved(t) && t != TypeV::Boolean {
        seq![condition_v(span)]
    } else {
        Seq::empty()
    }
}

/// The declarations of a `let`, in order: the scope after each is bound,
/// and the reports.
pub open spec fn tc_decls(cx: TcCtx, st: TStack, ds: Seq<LetDecl>) -> (TStack, Seq<DiagV>)
    decreases ds,
{
    if ds.len() == 0 {
        (st, Seq::empty())
    } else {
        let pre = tc_decls(cx, st, ds.drop_last());
        let d = ds.last();
        let init = tc_expr(cx, pre.0, d.value);
        let declared = match d.type_ann {
            Some(ann) => spec_from_name(ann@),
            None => init.0,
        };
        let check = match d.type_ann {
            Some(ann) => conformance_check(cx.0, init.0, spec_from_name(ann@), type_mismatch_v(spec_from_name(ann@),
                init.0, d.span)),
            None => Seq::empty(),
        };
        (tc_define(pre.0, d.name@, declared), pre.1 + init.1 + check)
    }
}

/// The `elif` branches: the running least common ancestor, starting from
/// `first`, and the reports.
pub open spec fn tc_elifs(cx: TcCtx, st: TStack, bs: Seq<CondBranch>, first: TypeV) -> (TypeV, Seq<DiagV>)
    decreases bs,
{
    if bs.len() == 0 {
        (first, Seq::empty())
    } else {
        let pre = tc_elifs(cx, st, bs.drop_last(), first);
        let b = bs.last();
        let c = tc_expr(cx, st, b.condition);
        let t = tc_body(cx, st, b.body);
        (spec_lca(cx.0, pre.0, t.0), pre.1 + c.1 + condition_check(c.0, b.span) + t.1)
    }
}

/// The branches of a `case`, each in a scope binding its variable.
pub open spec fn tc_branches(cx: TcCtx, st: TStack, bs: Seq<CaseBranch>) -> (TypeV, Seq<DiagV>)
    decreases bs,
{
    if bs.len() == 0 {
        (TypeV::Error, Seq::empty())
    } else {
        let pre = tc_branches(cx, st, bs.drop_last());
        let b = bs.last();
        let inner = tc_define(st.push(Seq::empty()), b.name@, spec_from_name(b.type_ident@));
        let t = tc_body(cx, inner, b.body);
        (if pre.0 is Error { t.0 } else { spec_lca(cx.0, pre.0, t.0) }, pre.1 + t.1)
    }
}

/// The type of an expression and the reports of checking it, in order.
pub open spec fn tc_expr(cx: TcCtx, st: TStack, e: Expression) -> (TypeV, Seq<DiagV>)
    decreases e,
{
    match e {
        Expression::Atom(a) => tc_atom(cx, st, *a),
        Expression::BinaryOp(b) => {
            let l = tc_expr(cx, st, *b.left);
            let r = tc_expr(cx, st, *b.right);
            let rule = binop_rule(b.operator, l.0, r.0);
            (rule.0, l.1 + r.1 + if rule.1 { seq![binop_error_v(b.operator, l.0, r.0, b.span)] } else { Seq::empty() })
        },
        Expression::UnaryOp(u) => {
            let o = tc_expr(cx, st, *u.expr);
            let rule = unop_rule(u.op, o.0);
            (rule.0, o.1 + if rule.1 { seq![unop_error_v(u.op, o.0, u.span)] } else { Seq::empty() })
        },
        Expression::Let(l) => {
            let decls = tc_decls(cx, st.push(Seq::empty()), l.decls@);
            let body = tc_body(cx, decls.0, l.body);
            (body.0, decls.1 + body.1)
        },
        Expression::If(i) => {
            let c = tc_expr(cx, st, i.condition);
            let then = tc_body(cx, st, i.then_body);
            let elifs = tc_elifs(cx, st, i.elif_branches@, then.0);
            match i.else_body {
                Some(eb) => {
                    let el = tc_body(cx, st, eb);
                    (spec_lca(cx.0, elifs.0, el.0), c.1 + condition_check(c.0, i.span) + then.1 + elifs.1 + el.1)
                },
                None => (elifs.0, c.1 + condition_check(c.0, i.span) + then.1 + elifs.1),
            }
        },
        Expression::While(w) => {
            let c = tc_expr(cx, st, w.condition);
            let body = tc_body(cx, st, w.body);
            match w.else_body {
                Some(eb) => {
                    let el = tc_body(cx, st, eb);
                    (spec_lca(cx.0, body.0, el.0), c.1 + condition_check(c.0, w.span) + body.1 + el.1)
                },
                None => (TypeV::Void, c.1 + condition_check(c.0, w.span) + body.1),
            }
        },
        Expression::For(f) => {
            let it = tc_expr(cx, st, f.iterable);
            let body = tc_body(cx, tc_define(st.push(Seq::empty()), f.var@, TypeV::Unknown), f.body);
            (TypeV::Void, it.1 + body.1)
        },
        Expression::IsType(i) => (TypeV::Boolean, tc_expr(cx, st, i.expr).1),
        Expression::AsType(a) => (spec_from_name(a.type_ident@), tc_expr(cx, st, a.expr).1),
        Expression::Case(c) => {
            let scrutinee = tc_expr(cx, st, c.expr);
            let bs = tc_branches(cx, st, c.branches@);
            (bs.0, scrutinee.1 + bs.1)
        },
        Expression::Assign(a) => {
            let t = tc_expr(cx, st, a.target);
            let v = tc_expr(cx, st, a.value);
            (v.0, t.1 + v.1 + conformance_check(cx.0, v.0, t.0, nonconform_v(v.0, t.0, a.span)))
        },
        Expression::FunctionCall(c) => {
            let args = tc_list(cx, st, c.args@);
            match find_func(cx.1, c.name@) {
                Some(f) => (f.return_type@, args.1 + argument_reports(cx.0, f.params@, args.0, c.args@, c.span,
                    min_nat(f.params@.len(), args.0.len()))),
                None => (TypeV::Error, args.1),
            }
        },
        Expression::MemberAccess(m) => {
            let o = tc_expr(cx, st, m.object);
            match class_name_of(cx.2, o.0) {
                Some(n) => match spec_resolve_attribute(cx.0, n, m.member@) {
                    Some((_, attr)) => (attr.hulk_type@, o.1),
                    None => (TypeV::Error, o.1.push(undefined_member_v(n, m.member@, m.span))),
                },
                None => (TypeV::Error, if o.0 is Error { o.1 } else { o.1.push(undefined_member_v(
                    spec_type_name(o.0), m.member@, m.span)) }),
            }
        },
        Expression::MethodCall(m) => {
            let o = tc_expr(cx, st, m.object);
            let args = tc_list(cx, st, m.args@);
            match class_name_of(cx.2, o.0) {
                Some(n) => match spec_resolve_method(cx.0, n, m.method@) {
                    Some((_, f)) => (f.return_type@, o.1 + args.1 + if f.params@.len() != args.0.len() {
                        seq![arity_v(m.method@, f.params@.len(), args.0.len(), m.span)]
                    } else {
                        argument_reports(cx.0, f.params@, args.0, m.args@, m.span, args.0.len())
                    }),
                    None => (TypeV::Error, (o.1 + args.1).push(undefined_method_v(n, m.method@, m.span))),
                },
                None => (TypeV::Error, if o.0 is Error { o.1 + args.1 } else { (o.1 + args.1).push(
                    undefined_method_v(spec_type_name(o.0), m.method@, m.span)) }),
            }
        },
        Expression::IndexAccess(x) => {
            let o = tc_expr(cx, st, x.object);
            let i = tc_expr(cx, st, x.index);
            let idx = if spec_is_resolved(i.0) && i.0 != TypeV::Number { seq![index_v(x.span)] } else { Seq::empty() };
            match o.0 {
                TypeV::Array(inner) => (*inner, o.1 + i.1 + idx),
                TypeV::Error => (TypeV::Error, o.1 + i.1 + idx),
                _ => (TypeV::Error, (o.1 + i.1 + idx).push(not_indexable_v(o.0, x.span))),
            }
        },
        Expression::NewInstance(n) => {
            let args = tc_list(cx, st, n.args@);
            (TypeV::Class(n.type_ident@), args.1 + match find_class(cx.0, n.type_ident@) {
                Some(c) => argument_reports(cx.0, c.params@, args.0, n.args@, n.span, min_nat(c.params@.len(),
                    args.0.len())),
                None => Seq::empty(),
            })
        },
        Expression::NewArray(a) => {
            let size = tc_expr(cx, st, a.size);
            let elem = match a.type_ident {
                Some(name) => spec_from_name(name@),
                None => TypeV::Unknown,
            };
            let size_check = if spec_is_resolved(size.0) && size.0 != TypeV::Number {
                seq![type_mismatch_v(TypeV::Number, size.0, a.span)]
            } else {
                Seq::empty()
            };
            let init = match a.init {
                Some(p) => tc_expr(cx, st, p.1).1,
                None => Seq::empty(),
            };
            (TypeV::Array(Box::new(elem)), size.1 + size_check + init)
        },
    }
}

// ───────────────────────── Model lemmas ─────────────────────────

proof fn lemma_scope_names(sc: Seq<VarInfo>)
    ensures
        scope_names(sc.map_values(|v: VarInfo| (v.name@, v.hulk_type@))) == var_names(sc),
{
    assert(scope_names(sc.map_values(|v: VarInfo| (v.name@, v.hulk_type@))) =~= var_names(sc));
}

/// Looking a name up in the model agrees with the symbol table.
proof fn lemma_lookup_view(stack: Seq<Seq<VarInfo>>, name: Seq<char>)
    ensures
        tc_lookup(tview(stack), name) == match spec_lookup(stack, name) {
            Some(v) => Some(v.hulk_type@),
            None => None,
        },
    decreases stack.len(),
{
    if stack.len() > 0 {
        lemma_scope_names(stack.last());
        assert(tview(stack).last() == stack.last().map_values(|v: VarInfo| (v.name@, v.hulk_type@)));
        assert(tview(stack).drop_last() =~= tview(stack.drop_last()));
        super::symbol_table::lemma_find_name(var_names(stack.last()), name, 0);
        lemma_lookup_view(stack.drop_last(), name);
    }
}

proof fn lemma_push_view(stack: Seq<Seq<VarInfo>>)
    ensures
        tview(stack.push(Seq::empty())) == tview(stack).push(Seq::empty()),
{
    assert(Seq::<VarInfo>::empty().map_values(|v: VarInfo| (v.name@, v.hulk_type@)) =~= Seq::<(Seq<char>, TypeV)>::empty());
    assert(tview(stack.push(Seq::empty())) =~= tview(stack).push(Seq::empty()));
}

// ───────────────────────── The checker ─────────────────────────

struct TypeChecker {
    symbols: SymbolTable,
    errors: Vec<CompilerError>,
}

impl TypeChecker {
    spec fn cx(self) -> TcCtx {
        (self.symbols.classes@, self.symbols.functions@, match self.symbols.current_class {
            Some(n) => Some(n@),
            None => None,
        })
    }

    spec fn st(self) -> TStack {
        tview(self.symbols.scope_stack())
    }

    /// `self` after typing from `old`: the same table, scopes and context,
    /// with the reports `reps` appended.
    spec fn after(self, old: Self, reps: Seq<DiagV>) -> bool {
        &&& self.symbols.functions == old.symbols.functions
        &&& self.symbols.classes == old.symbols.classes
        &&& self.symbols.current_class == old.symbols.current_class
        &&& self.symbols.scope_stack() == old.symbols.scope_stack()
        &&& diags_view(self.errors@) == diags_view(old.errors@) + reps
    }

    proof fn lemma_after_refl(a: Self)
        ensures
            a.after(a, Seq::empty()),
    {
        assert(diags_view(a.errors@) =~= diags_view(a.errors@) + Seq::<DiagV>::empty());
    }

    proof fn lemma_after_trans(a: Self, b: Self, c: Self, r1: Seq<DiagV>, r2: Seq<DiagV>)
        requires
            b.after(a, r1),
            c.after(b, r2),
        ensures
            c.after(a, r1 + r2),
    {
        assert(diags_view(a.errors@) + r1 + r2 =~= diags_view(a.errors@) + (r1 + r2));
    }

    fn report(&mut self, e: CompilerError)
        ensures
            final(self).after(*old(self), seq![diag_view(e)]),
    {
        self.errors.push(e);
        assert(diags_view(self.errors@) =~= diags_view(old(self).errors@) + seq![diag_view(e)]);
    }

    /// Reports `report` if `got` and `expected` are resolved and `got`
    /// does not conform to `expected`.
    fn check_conformance(&mut self, got: &HulkType, expected: &HulkType, report: CompilerError)
        ensures
            final(self).after(*old(self), conformance_check(old(self).symbols.classes@, got@, expected@,
                diag_view(report))),
    {
        if expected.is_resolved() && got.is_resolved() && !self.symbols.conforms_to(got, expected) {
            self.report(report);
        } else {
            proof {
                Self::lemma_after_refl(*self);
            }
        }
    }

    /// Reports the arguments (of types `arg_types`) that do not conform to
    /// the parameters, position by position.
    fn check_arguments(&mut self, params: &Vec<(String, HulkType)>, arg_types: &Vec<HulkType>, args: &Vec<Expression>,
        fallback: Span)
        ensures
            final(self).after(*old(self), argument_reports(old(self).symbols.classes@, params@, types_view(arg_types@),
                args@, fallback, min_nat(params@.len(), arg_types@.len()))),
    {
        let n: usize = if params.len() <= arg_types.len() { params.len() } else { arg_types.len() };
        proof {
            Self::lemma_after_refl(*self);
        }
        let mut i: usize = 0;
        while i < n
            invariant
                i <= n,
                n <= params.len(),
                n <= arg_types.len(),
                n == min_nat(params@.len(), arg_types@.len()),
                self.after(*old(self), argument_reports(old(self).symbols.classes@, params@, types_view(arg_types@),
                    args@, fallback, i as nat)),
            decreases n - i,
        {
            let ghost m = *self;
            let span = if i < args.len() { args[i].span() } else { fallback };
            let (_, ptype) = &params[i];
            let atype = &arg_types[i];
            let report = CompilerError::type_does_not_conform(atype.display_name().as_str(),
                ptype.display_name().as_str(), span);
            self.check_conformance(atype, ptype, report);
            proof {
                assert(types_view(arg_types@)[i as int] == arg_types@[i as int]@);
                Self::lemma_after_trans(*old(self), m, *self, argument_reports(old(self).symbols.classes@, params@,
                    types_view(arg_types@), args@, fallback, i as nat), conformance_check(old(self).symbols.classes@,
                    atype@, ptype@, diag_view(report)));
            }
            i = i + 1;
        }
    }
}

/// The types a list of values stands for.
pub open spec fn types_view(ts: Seq<HulkType>) -> Seq<TypeV> {
    ts.map_values(|t: HulkType| t@)
}

/// The class whose members a value of type `t` has.
fn resolve_class_name(current: &Option<String>, t: &HulkType) -> (r: Option<String>)
    ensures
        match r {
            Some(n) => class_name_of(match current {
                Some(c) => Some(c@),
                None => None,
            }, t@) == Some(n@),
            None => class_name_of(match current {
                Some(c) => Some(c@),
                None => None,
            }, t@) is None,
        },
{
    match t {
        HulkType::Class(name) => Some(name.clone()),
        HulkType::Number => Some(String::from_str("Number")),
        HulkType::String => Some(String::from_str("String")),
        HulkType::Boolean => Some(String::from_str("Boolean")),
        HulkType::Object => Some(String::from_str("Object")),
        HulkType::SelfType => match current {
            Some(c) => Some(c.clone()),
            None => None,
        },
        _ => None,
    }
}

/// The type of `l op r` and whether the operand types are reported.
pub fn binary_op_rule(op: &BinOp, l: &HulkType, r: &HulkType) -> (res: (HulkType, bool))
    ensures
        res.0@ == binop_rule(*op, l@, r@).0,
        res.1 == binop_rule(*op, l@, r@).1,
{
    if l.is_error() || r.is_error() {
        return (HulkType::Error, false);
    }
    let l_num = matches!(l, HulkType::Number);
    let r_num = matches!(r, HulkType::Number);
    let l_bool = matches!(l, HulkType::Boolean);
    let r_bool = matches!(r, HulkType::Boolean);
    match op {
        BinOp::Plus(_) | BinOp::Minus(_) | BinOp::Mul(_) | BinOp::Div(_) | BinOp::Mod(_) | BinOp::Pow(_) => {
            if !l_num || !r_num {
                (HulkType::Error, true)
            } else {
                (HulkType::Number, false)
            }
        },
        BinOp::Less(_) | BinOp::LessEqual(_) | BinOp::Greater(_) | BinOp::GreaterEqual(_) => {
            if !l_num || !r_num {
                (HulkType::Error, true)
            } else {
                (HulkType::Boolean, false)
            }
        },
        BinOp::EqualEqual(_) | BinOp::NotEqual(_) => (HulkType::Boolean, false),
        BinOp::And(_) | BinOp::Or(_) => {
            if !l_bool || !r_bool {
                (HulkType::Error, true)
            } else {
                (HulkType::Boolean, false)
            }
        },
        BinOp::Concat(_) | BinOp::ConcatSpaced(_) => (HulkType::String, false),
        _ => (HulkType::Error, false),
    }
}

/// The operator table: on operands of known types, `==` and `!=` give
/// `Boolean` for any pair of types; `<`, `<=`, `>`, `>=` give `Boolean`
/// on two Numbers; `+`, `-`, `*`, `/`, `%`, `^` give `Number` on two
/// Numbers; `&` and `|` give `Boolean` on two Booleans; `@` and `@@` give
/// `String` for any pair; any other operand types are reported and give
/// `Error`.  An operand of type `Error` gives `Error` with no new report.
pub proof fn law_binary_operator_types(op: BinOp, l: TypeV, r: TypeV)
    ensures
        l is Error || r is Error ==> binop_rule(op, l, r) == (TypeV::Error, false),
        !(l is Error) && !(r is Error) && (op is EqualEqual || op is NotEqual) ==> binop_rule(op, l, r) == (
            TypeV::Boolean, false),
        !(l is Error) && !(r is Error) && (op is Less || op is LessEqual || op is Greater || op is GreaterEqual)
            ==> binop_rule(op, l, r) == if l == TypeV::Number && r == TypeV::Number {
            (TypeV::Boolean, false)
        } else {
            (TypeV::Error, true)
        },
        !(l is Error) && !(r is Error) && (op is Plus || op is Minus || op is Mul || op is Div || op is Mod
            || op is Pow) ==> binop_rule(op, l, r) == if l == TypeV::Number && r == TypeV::Number {
            (TypeV::Number, false)
        } else {
            (TypeV::Error, true)
        },
        !(l is Error) && !(r is Error) && (op is And || op is Or) ==> binop_rule(op, l, r) == if l
            == TypeV::Boolean && r == TypeV::Boolean {
            (TypeV::Boolean, false)
        } else {
            (TypeV::Error, true)
        },
        !(l is Error) && !(r is Error) && (op is Concat || op is ConcatSpaced) ==> binop_rule(op, l, r) == (
            TypeV::Str, false),
        (op is Equal || op is Assign) ==> binop_rule(op, l, r) == (TypeV::Error, false),
{
}

/// The prefix operators: `-` gives `Number` on a Number and `!` gives
/// `Boolean` on a Boolean; any other known operand type is reported and
/// gives `Error`, and an operand of type `Error` gives `Error` with no new
/// report.
pub proof fn law_unary_operator_types(op: tokens::UnaryOp, t: TypeV)
    ensures
        t is Error ==> unop_rule(op, t) == (TypeV::Error, false),
        !(t is Error) && op is Minus ==> unop_rule(op, t) == if t == TypeV::Number {
            (TypeV::Number, false)
        } else {
            (TypeV::Error, true)
        },
        !(t is Error) && op is Not ==> unop_rule(op, t) == if t == TypeV::Boolean {
            (TypeV::Boolean, false)
        } else {
            (TypeV::Error, true)
        },
{
}

/// The type of a binary expression and its reports: those of the left
/// operand, then of the right, then (code E201) a report of the operator
/// when the operand types do not fit it.  An equality or inequality of
/// operands of known types is `Boolean` and adds no report; a comparison
/// of two Numbers is `Boolean` and adds none either.
pub proof fn law_binary_expression_types(cx: TcCtx, st: TStack, b: BinaryOp)
    ensures
        ({
            let l = tc_expr(cx, st, *b.left);
            let r = tc_expr(cx, st, *b.right);
            let e = tc_expr(cx, st, Expression::BinaryOp(b));
            &&& l.0 is Error || r.0 is Error ==> e == (TypeV::Error, l.1 + r.1)
            &&& !(l.0 is Error) && !(r.0 is Error) && (b.operator is EqualEqual || b.operator is NotEqual) ==> e == (
                TypeV::Boolean, l.1 + r.1)
            &&& (b.operator is Less || b.operator is LessEqual || b.operator is Greater || b.operator is GreaterEqual)
                && l.0 == TypeV::Number && r.0 == TypeV::Number ==> e == (TypeV::Boolean, l.1 + r.1)
            &&& (b.operator is Less || b.operator is LessEqual || b.operator is Greater || b.operator is GreaterEqual)
                && !(l.0 is Error) && !(r.0 is Error) && (l.0 != TypeV::Number || r.0 != TypeV::Number) ==> e == (
                TypeV::Error, l.1 + r.1 + seq![binop_error_v(b.operator, l.0, r.0, b.span)])
            &&& (b.operator is Plus || b.operator is Minus || b.operator is Mul || b.operator is Div || b.operator is Mod
                || b.operator is Pow) && l.0 == TypeV::Number && r.0 == TypeV::Number ==> e == (TypeV::Number, l.1
                + r.1)
            &&& (b.operator is And || b.operator is Or) && l.0 == TypeV::Boolean && r.0 == TypeV::Boolean ==> e == (
                TypeV::Boolean, l.1 + r.1)
            &&& !(l.0 is Error) && !(r.0 is Error) && (b.operator is Concat || b.operator is ConcatSpaced) ==> e == (
                TypeV::Str, l.1 + r.1)
            &&& binop_error_v(b.operator, l.0, r.0, b.span).0 == "E201"@
        }),
{
    let l = tc_expr(cx, st, *b.left);
    let r = tc_expr(cx, st, *b.right);
    law_binary_operator_types(b.operator, l.0, r.0);
    assert(l.1 + r.1 + Seq::<DiagV>::empty() =~= l.1 + r.1);
}

/// A condition that is an equality or inequality of operands of known
/// types, or a comparison of two Numbers, is accepted: it draws no report
/// that the condition is not Boolean.  A condition of a known type other
/// than Boolean draws one (code E203); one of type Boolean, or whose type
/// is unknown or already in error, draws none.
pub proof fn law_comparison_condition_accepted(cx: TcCtx, st: TStack, b: BinaryOp, t: TypeV, span: Span)
    ensures
        ({
            let l = tc_expr(cx, st, *b.left).0;
            let r = tc_expr(cx, st, *b.right).0;
            (!(l is Error) && !(r is Error) && (b.operator is EqualEqual || b.operator is NotEqual)) || ((b.operator is Less
                || b.operator is LessEqual || b.operator is Greater || b.operator is GreaterEqual) && l == TypeV::Number
                && r == TypeV::Number) ==> condition_check(tc_expr(cx, st, Expression::BinaryOp(b)).0, span)
                == Seq::<DiagV>::empty()
        }),
        (t == TypeV::Boolean || t is Unknown || t is Error) ==> condition_check(t, span) == Seq::<DiagV>::empty(),
        !(t == TypeV::Boolean || t is Unknown || t is Error) ==> condition_check(t, span) == seq![condition_v(span)],
        condition_v(span).0 == "E203"@,
{
    law_binary_expression_types(cx, st, b);
}

/// A list of expressions has one type per expression.
proof fn lemma_tc_list_len(cx: TcCtx, st: TStack, es: Seq<Expression>)
    ensures
        tc_list(cx, st, es).0.len() == es.len(),
    decreases es.len(),
{
    if es.len() > 0 {
        lemma_tc_list_len(cx, st, es.drop_last());
    }
}

/// A call of a method that the receiver's class has or inherits, with
/// fewer or with more arguments than the method has parameters, has the
/// method's return type and is reported as a wrong arity (code E104),
/// naming the method, the number expected and the number given, after the
/// reports of the receiver and of the arguments.
pub proof fn law_method_call_arity(cx: TcCtx, st: TStack, m: MethodCall)
    ensures
        ({
            let o = tc_expr(cx, st, m.object);
            let args = tc_list(cx, st, m.args@);
            let got = m.args@.len();
            class_name_of(cx.2, o.0) matches Some(n) ==> (spec_resolve_method(cx.0, n, m.method@) matches Some(
                (_, f)) ==> (got != f.params@.len() ==> tc_expr(cx, st, Expression::MethodCall(Box::new(m))) == (
                f.return_type@, o.1 + args.1 + seq![arity_v(m.method@, f.params@.len(), got, m.span)])))
        }),
{
    lemma_tc_list_len(cx, st, m.args@);
}

/// The type of `op t` and whether the operand type is reported.
pub fn unary_op_rule(op: &tokens::UnaryOp, t: &HulkType) -> (res: (HulkType, bool))
    ensures
        res.0@ == unop_rule(*op, t@).0,
        res.1 == unop_rule(*op, t@).1,
{
    if t.is_error() {
        return (HulkType::Error, false);
    }
    match op {
        tokens::UnaryOp::Minus(_) => if matches!(t, HulkType::Number) {
            (HulkType::Number, false)
        } else {
            (HulkType::Error, true)
        },
        tokens::UnaryOp::Not(_) => if matches!(t, HulkType::Boolean) {
            (HulkType::Boolean, false)
        } else {
            (HulkType::Error, true)
        },
    }
}

impl TypeChecker {
    /// Binds `name` to `t` in the innermost scope (unless bound there).
    fn define(&mut self, name: &str, t: HulkType, span: Span)
        requires
            old(self).symbols.scope_stack().len() >= 1,
        ensures
            final(self).symbols.functions == old(self).symbols.functions,
            final(self).symbols.classes == old(self).symbols.classes,
            final(self).symbols.current_class == old(self).symbols.current_class,
            final(self).errors == old(self).errors,
            final(self).st() == tc_define(old(self).st(), name@, t@),
            final(self).symbols.scope_stack().len() == old(self).symbols.scope_stack().len(),
            final(self).symbols.scope_stack().drop_last() == old(self).symbols.scope_stack().drop_last(),
    {
        let ghost s0 = self.symbols.scope_stack();
        let ghost tv = t@;
        let r = self.symbols.define_var(name, t, span);
        proof {
            let s1 = self.symbols.scope_stack();
            lemma_scope_names(s0.last());
            assert(tview(s0).last() == s0.last().map_values(|v: VarInfo| (v.name@, v.hulk_type@)));
            if r {
                let v = s1.last().last();
                assert forall|k: int| 0 <= k < s0.len() - 1 implies s1[k] == s0[k] by {
                    assert(s1[k] == s1.drop_last()[k]);
                    assert(s0[k] == s0.drop_last()[k]);
                }
                assert(s1 =~= s0.update(s0.len() - 1, s0.last().push(v)));
                assert((v.name@, v.hulk_type@) == (name@, tv));
                assert(tview(s1).last() =~= tview(s0).last().push((name@, tv)));
                assert(tview(s1) =~= tview(s0).update(s0.len() - 1, tview(s0).last().push((name@, tv))));
            }
        }
    }

    /// Opens a scope.
    fn open_scope(&mut self)
        ensures
            final(self).symbols.functions == old(self).symbols.functions,
            final(self).symbols.classes == old(self).symbols.classes,
            final(self).symbols.current_class == old(self).symbols.current_class,
            final(self).errors == old(self).errors,
            final(self).symbols.scope_stack() == old(self).symbols.scope_stack().push(Seq::empty()),
            final(self).st() == old(self).st().push(Seq::empty()),
    {
        self.symbols.push_scope();
        proof {
            lemma_push_view(old(self).symbols.scope_stack());
        }
    }

    /// Closes the innermost scope.
    fn close_scope(&mut self)
        requires
            old(self).symbols.scope_stack().len() >= 1,
        ensures
            final(self).symbols.functions == old(self).symbols.functions,
            final(self).symbols.classes == old(self).symbols.classes,
            final(self).symbols.current_class == old(self).symbols.current_class,
            final(self).errors == old(self).errors,
            final(self).symbols.scope_stack() == old(self).symbols.scope_stack().drop_last(),
    {
        let _ = self.symbols.pop_scope();
    }

    fn infer_list(&mut self, es: &Vec<Expression>) -> (types: Vec<HulkType>)
        requires
            old(self).symbols.scope_stack().len() >= 1,
        ensures
            types_view(types@) == tc_list(old(self).cx(), old(self).st(), es@).0,
            final(self).after(*old(self), tc_list(old(self).cx(), old(self).st(), es@).1),
        decreases es,
    {
        let mut types: Vec<HulkType> = Vec::new();
        proof {
            Self::lemma_after_refl(*self);
            assert(es@.subrange(0, 0) =~= Seq::<Expression>::empty());
            assert(types_view(types@) =~= Seq::<TypeV>::empty());
        }
        let mut i: usize = 0;
        while i < es.len()
            invariant
                i <= es.len(),
                old(self).symbols.scope_stack().len() >= 1,
                types_view(types@) == tc_list(old(self).cx(), old(self).st(), es@.subrange(0, i as int)).0,
                self.after(*old(self), tc_list(old(self).cx(), old(self).st(), es@.subrange(0, i as int)).1),
            decreases es.len() - i,
        {
            proof {
                assert(decreases_to!(es => es@[i as int]));
            }
            let ghost m = *self;
            let ghost pre = es@.subrange(0, i as int);
            let ghost cur = es@.subrange(0, i + 1);
            assert(cur.drop_last() =~= pre);
            assert(cur.last() == es@[i as int]);
            let t = self.infer_expression(&es[i]);
            proof {
                Self::lemma_after_trans(*old(self), m, *self, tc_list(old(self).cx(), old(self).st(), pre).1,
                    tc_expr(old(self).cx(), old(self).st(), es@[i as int]).1);
            }
            let ghost tv = types_view(types@);
            types.push(t);
            assert(types_view(types@) =~= tv.push(t@));
            i = i + 1;
        }
        assert(es@.subrange(0, es@.len() as int) =~= es@);
        types
    }

    fn infer_expr_body(&mut self, body: &ExprBody) -> (t: HulkType)
        requires
            old(self).symbols.scope_stack().len() >= 1,
        ensures
            t@ == tc_body(old(self).cx(), old(self).st(), *body).0,
            final(self).after(*old(self), tc_body(old(self).cx(), old(self).st(), *body).1),
        decreases body,
    {
        match body {
            ExprBody::Single(expr) => self.infer_expression(expr),
            ExprBody::Block(exprs) => {
                proof {
                    assert(decreases_to!(body => body->Block_0));
                }
                let types = self.infer_list(exprs);
                if types.len() == 0 {
                    HulkType::Void
                } else {
                    proof {
                        assert(types_view(types@).last() == types@.last()@);
                    }
                    types[types.len() - 1].duplicate()
                }
            },
        }
    }

    fn infer_body(&mut self, body: &Body) -> (t: HulkType)
        requires
            old(self).symbols.scope_stack().len() >= 1,
        ensures
            t@ == tc_fn_body(old(self).cx(), old(self).st(), *body).0,
            final(self).after(*old(self), tc_fn_body(old(self).cx(), old(self).st(), *body).1),
    {
        match body {
            Body::Inline(expr) => self.infer_expression(expr),
            Body::Block(exprs) => {
                let types = self.infer_list(exprs);
                if types.len() == 0 {
                    HulkType::Void
                } else {
                    proof {
                        assert(types_view(types@).last() == types@.last()@);
                    }
                    types[types.len() - 1].duplicate()
                }
            },
        }
    }

    fn infer_expression(&mut self, expr: &Expression) -> (t: HulkType)
        requires
            old(self).symbols.scope_stack().len() >= 1,
        ensures
            t@ == tc_expr(old(self).cx(), old(self).st(), *expr).0,
            final(self).after(*old(self), tc_expr(old(self).cx(), old(self).st(), *expr).1),
        decreases expr,
    {
        match expr {
            Expression::Atom(atom) => self.infer_atom(atom),
            Expression::BinaryOp(binop) => self.infer_binary_op(binop),
            Expression::UnaryOp(unary) => self.infer_unary_op(unary),
            Expression::Let(let_expr) => self.infer_let(let_expr),
            Expression::If(if_expr) => self.infer_if(if_expr),
            Expression::While(while_expr) => self.infer_while(while_expr),
            Expression::For(for_expr) => self.infer_for(for_expr),
            Expression::IsType(is_expr) => {
                let _ = self.infer_expression(&is_expr.expr);
                HulkType::Boolean
            },
            Expression::AsType(as_expr) => {
                let _ = self.infer_expression(&as_expr.expr);
                HulkType::from_name(as_expr.type_ident.as_str())
            },
            Expression::Case(case_expr) => self.infer_case(case_expr),
            Expression::Assign(assign) => self.infer_assign(assign),
            Expression::FunctionCall(call) => self.infer_function_call(call),
            Expression::MemberAccess(access) => self.infer_member_access(access),
            Expression::MethodCall(call) => self.infer_method_call(call),
            Expression::IndexAccess(access) => self.infer_index_access(access),
            Expression::NewInstance(inst) => self.infer_new_instance(inst),
            Expression::NewArray(arr) => self.infer_new_array(arr),
        }
    }

    fn infer_atom(&mut self, atom: &Atom) -> (t: HulkType)
        requires
            old(self).symbols.scope_stack().len() >= 1,
        ensures
            t@ == tc_atom(old(self).cx(), old(self).st(), *atom).0,
            final(self).after(*old(self), tc_atom(old(self).cx(), old(self).st(), *atom).1),
        decreases atom,
    {
        match atom {
            Atom::NumberLiteral(_) => {
                proof {
                    Self::lemma_after_refl(*self);
                }
                HulkType::Number
            },
            Atom::StringLiteral(_) => {
                proof {
                    Self::lemma_after_refl(*self);
                }
                HulkType::String
            },
            Atom::BooleanLiteral(_) => {
                proof {
                    Self::lemma_after_refl(*self);
                }
                HulkType::Boolean
            },
            Atom::Variable(id) => {
                proof {
                    Self::lemma_after_refl(*self);
                    lemma_lookup_view(self.symbols.scope_stack(), id.name@);
                }
                if str_eq(id.name.as_str(), "self") {
                    match &self.symbols.current_class {
                        Some(name) => HulkType::Class(name.clone()),
                        None => HulkType::Error,
                    }
                } else {
                    match self.symbols.var_type(id.name.as_str()) {
                        Some(t) => t,
                        None => HulkType::Error,
                    }
                }
            },
            Atom::Group(group) => self.infer_expression(&group.expression),
        }
    }

    fn infer_binary_op(&mut self, binop: &BinaryOp) -> (t: HulkType)
        requires
            old(self).symbols.scope_stack().len() >= 1,
        ensures
            t@ == tc_expr(old(self).cx(), old(self).st(), Expression::BinaryOp(*binop)).0,
            final(self).after(*old(self), tc_expr(old(self).cx(), old(self).st(), Expression::BinaryOp(*binop)).1),
        decreases binop,
    {
        let ghost cx = old(self).cx();
        let ghost st = old(self).st();
        let left_type = self.infer_expression(&binop.left);
        let ghost m = *self;
        let right_type = self.infer_expression(&binop.right);
        proof {
            Self::lemma_after_trans(*old(self), m, *self, tc_expr(cx, st, *binop.left).1, tc_expr(cx, st, *binop.right).1);
        }
        let (t, bad) = binary_op_rule(&binop.operator, &left_type, &right_type);
        if bad {
            let ghost m1 = *self;
            self.report(CompilerError::binary_op_type_error(binop.operator.symbol(), left_type.display_name().as_str(),
                right_type.display_name().as_str(), binop.span));
            proof {
                Self::lemma_after_trans(*old(self), m1, *self, tc_expr(cx, st, *binop.left).1 + tc_expr(cx, st,
                    *binop.right).1, seq![binop_error_v(binop.operator, left_type@, right_type@, binop.span)]);
            }
        } else {
            assert(tc_expr(cx, st, *binop.left).1 + tc_expr(cx, st, *binop.right).1 + Seq::<DiagV>::empty()
                =~= tc_expr(cx, st, *binop.left).1 + tc_expr(cx, st, *binop.right).1);
        }
        t
    }

    fn infer_unary_op(&mut self, unary: &UnaryOp) -> (t: HulkType)
        requires
            old(self).symbols.scope_stack().len() >= 1,
        ensures
            t@ == tc_expr(old(self).cx(), old(self).st(), Expression::UnaryOp(*unary)).0,
            final(self).after(*old(self), tc_expr(old(self).cx(), old(self).st(), Expression::UnaryOp(*unary)).1),
        decreases unary,
    {
        let ghost cx = old(self).cx();
        let ghost st = old(self).st();
        let operand = self.infer_expression(&unary.expr);
        let (t, bad) = unary_op_rule(&unary.op, &operand);
        if bad {
            let ghost m1 = *self;
            self.report(CompilerError::unary_op_type_error(unary.op.symbol(), operand.display_name().as_str(),
                unary.span));
            proof {
                Self::lemma_after_trans(*old(self), m1, *self, tc_expr(cx, st, *unary.expr).1,
                    seq![unop_error_v(unary.op, operand@, unary.span)]);
            }
        } else {
            assert(tc_expr(cx, st, *unary.expr).1 + Seq::<DiagV>::empty() =~= tc_expr(cx, st, *unary.expr).1);
        }
        t
    }
}

impl TypeChecker {
    fn infer_let(&mut self, let_expr: &LetExpr) -> (t: HulkType)
        requires
            old(self).symbols.scope_stack().len() >= 1,
        ensures
            ({
                let decls = tc_decls(old(self).cx(), old(self).st().push(Seq::empty()), let_expr.decls@);
                let body = tc_body(old(self).cx(), decls.0, let_expr.body);
                t@ == body.0 && final(self).after(*old(self), decls.1 + body.1)
            }),
        decreases let_expr,
    {
        let ghost cx = old(self).cx();
        let ghost st = old(self).st();
        self.open_scope();
        let ghost base = *self;
        proof {
            Self::lemma_after_refl(*self);
            assert(let_expr.decls@.subrange(0, 0) =~= Seq::<LetDecl>::empty());
        }
        let mut i: usize = 0;
        while i < let_expr.decls.len()
            invariant
                i <= let_expr.decls.len(),
                cx == old(self).cx(),
                st == old(self).st(),
                base.symbols.scope_stack() == old(self).symbols.scope_stack().push(Seq::empty()),
                base.st() == st.push(Seq::empty()),
                self.cx() == cx,
                self.symbols.functions == base.symbols.functions,
                self.symbols.classes == base.symbols.classes,
                self.symbols.current_class == base.symbols.current_class,
                self.symbols.scope_stack().len() == base.symbols.scope_stack().len(),
                self.symbols.scope_stack().drop_last() == old(self).symbols.scope_stack(),
                self.st() == tc_decls(cx, st.push(Seq::empty()), let_expr.decls@.subrange(0, i as int)).0,
                diags_view(self.errors@) == diags_view(old(self).errors@) + tc_decls(cx, st.push(Seq::empty()),
                    let_expr.decls@.subrange(0, i as int)).1,
            decreases let_expr.decls.len() - i,
        {
            let decl = &let_expr.decls[i];
            let ghost pre = let_expr.decls@.subrange(0, i as int);
            let ghost cur = let_expr.decls@.subrange(0, i + 1);
            assert(cur.drop_last() =~= pre);
            assert(cur.last() == *decl);
            let ghost acc = tc_decls(cx, st.push(Seq::empty()), pre);
            proof {
                assert(decreases_to!(let_expr => let_expr.decls@[i as int].value));
            }
            let ghost m0 = *self;
            let init_type = self.infer_expression(&decl.value);
            let declared = match &decl.type_ann {
                Some(ann) => {
                    let expected = HulkType::from_name(ann.as_str());
                    let report = CompilerError::type_mismatch(expected.display_name().as_str(),
                        init_type.display_name().as_str(), decl.span);
                    let ghost m1 = *self;
                    self.check_conformance(&init_type, &expected, report);
                    proof {
                        Self::lemma_after_trans(m0, m1, *self, tc_expr(cx, acc.0, decl.value).1, conformance_check(cx.0,
                            init_type@, expected@, diag_view(report)));
                    }
                    expected
                },
                None => {
                    assert(tc_expr(cx, acc.0, decl.value).1 + Seq::<DiagV>::empty() =~= tc_expr(cx, acc.0, decl.value).1);
                    init_type
                },
            };
            self.define(decl.name.as_str(), declared, decl.span);
            proof {
                assert(diags_view(old(self).errors@) + acc.1 + (tc_expr(cx, acc.0, decl.value).1 + match decl.type_ann {
                    Some(ann) => conformance_check(cx.0, init_type@, spec_from_name(ann@), type_mismatch_v(
                        spec_from_name(ann@), init_type@, decl.span)),
                    None => Seq::empty(),
                }) =~= diags_view(old(self).errors@) + tc_decls(cx, st.push(Seq::empty()), cur).1);
            }
            i = i + 1;
        }
        assert(let_expr.decls@.subrange(0, let_expr.decls@.len() as int) =~= let_expr.decls@);
        let ghost m2 = *self;
        let t = self.infer_expr_body(&let_expr.body);
        self.close_scope();
        proof {
            let decls = tc_decls(cx, st.push(Seq::empty()), let_expr.decls@);
            assert(diags_view(self.errors@) =~= diags_view(old(self).errors@) + (decls.1 + tc_body(cx, decls.0,
                let_expr.body).1));
        }
        t
    }

    fn infer_if(&mut self, if_expr: &IfExpr) -> (t: HulkType)
        requires
            old(self).symbols.scope_stack().len() >= 1,
        ensures
            t@ == tc_expr(old(self).cx(), old(self).st(), Expression::If(Box::new(*if_expr))).0,
            final(self).after(*old(self), tc_expr(old(self).cx(), old(self).st(), Expression::If(Box::new(*if_expr))).1),
        decreases if_expr,
    {
        let ghost cx = old(self).cx();
        let ghost st = old(self).st();
        let cond = self.infer_expression(&if_expr.condition);
        let ghost c = tc_expr(cx, st, if_expr.condition);
        let ghost m0 = *self;
        if cond.is_resolved() && !matches!(cond, HulkType::Boolean) {
            self.report(CompilerError::condition_not_boolean(if_expr.span));
        } else {
            proof {
                Self::lemma_after_refl(*self);
            }
        }
        proof {
            Self::lemma_after_trans(*old(self), m0, *self, c.1, condition_check(c.0, if_expr.span));
        }
        let ghost m1 = *self;
        let then_type = self.infer_expr_body(&if_expr.then_body);
        let ghost then = tc_body(cx, st, if_expr.then_body);
        proof {
            Self::lemma_after_trans(*old(self), m1, *self, c.1 + condition_check(c.0, if_expr.span), then.1);
        }
        let ghost head = c.1 + condition_check(c.0, if_expr.span) + then.1;
        let mut result = then_type;
        proof {
            assert(if_expr.elif_branches@.subrange(0, 0) =~= Seq::<CondBranch>::empty());
            assert(head + Seq::<DiagV>::empty() =~= head);
        }
        let mut i: usize = 0;
        while i < if_expr.elif_branches.len()
            invariant
                i <= if_expr.elif_branches.len(),
                cx == old(self).cx(),
                st == old(self).st(),
                old(self).symbols.scope_stack().len() >= 1,
                then == tc_body(cx, st, if_expr.then_body),
                result@ == tc_elifs(cx, st, if_expr.elif_branches@.subrange(0, i as int), then.0).0,
                self.after(*old(self), head + tc_elifs(cx, st, if_expr.elif_branches@.subrange(0, i as int), then.0).1),
            decreases if_expr.elif_branches.len() - i,
        {
            let branch = &if_expr.elif_branches[i];
            let ghost pre = if_expr.elif_branches@.subrange(0, i as int);
            let ghost cur = if_expr.elif_branches@.subrange(0, i + 1);
            assert(cur.drop_last() =~= pre);
            assert(cur.last() == *branch);
            let ghost acc = tc_elifs(cx, st, pre, then.0);
            proof {
                assert(decreases_to!(if_expr => if_expr.elif_branches@[i as int].condition));
                assert(decreases_to!(if_expr => if_expr.elif_branches@[i as int].body));
            }
            let ghost m2 = *self;
            let bc = self.infer_expression(&branch.condition);
            let ghost m3 = *self;
            if bc.is_resolved() && !matches!(bc, HulkType::Boolean) {
                self.report(CompilerError::condition_not_boolean(branch.span));
            } else {
                proof {
                    Self::lemma_after_refl(*self);
                }
            }
            let ghost m4 = *self;
            let bt = self.infer_expr_body(&branch.body);
            result = self.symbols.lca(&result, &bt);
            proof {
                let cc = tc_expr(cx, st, branch.condition);
                Self::lemma_after_trans(m2, m3, m4, cc.1, condition_check(cc.0, branch.span));
                Self::lemma_after_trans(m2, m4, *self, cc.1 + condition_check(cc.0, branch.span), tc_body(cx, st,
                    branch.body).1);
                Self::lemma_after_trans(*old(self), m2, *self, head + acc.1, cc.1 + condition_check(cc.0, branch.span)
                    + tc_body(cx, st, branch.body).1);
                assert(head + acc.1 + (cc.1 + condition_check(cc.0, branch.span) + tc_body(cx, st, branch.body).1)
                    =~= head + tc_elifs(cx, st, cur, then.0).1);
            }
            i = i + 1;
        }
        assert(if_expr.elif_branches@.subrange(0, if_expr.elif_branches@.len() as int) =~= if_expr.elif_branches@);
        match &if_expr.else_body {
            Some(else_body) => {
                proof {
                    assert(decreases_to!(if_expr => if_expr.else_body->Some_0));
                }
                let ghost m5 = *self;
                let et = self.infer_expr_body(else_body);
                result = self.symbols.lca(&result, &et);
                proof {
                    let elifs = tc_elifs(cx, st, if_expr.elif_branches@, then.0);
                    Self::lemma_after_trans(*old(self), m5, *self, head + elifs.1, tc_body(cx, st, *else_body).1);
                    assert(head + elifs.1 + tc_body(cx, st, *else_body).1 =~= c.1 + condition_check(c.0, if_expr.span)
                        + then.1 + elifs.1 + tc_body(cx, st, *else_body).1);
                }
            },
            None => {},
        }
        result
    }

    fn infer_while(&mut self, while_expr: &WhileExpr) -> (t: HulkType)
        requires
            old(self).symbols.scope_stack().len() >= 1,
        ensures
            t@ == tc_expr(old(self).cx(), old(self).st(), Expression::While(Box::new(*while_expr))).0,
            final(self).after(*old(self), tc_expr(old(self).cx(), old(self).st(),
                Expression::While(Box::new(*while_expr))).1),
        decreases while_expr,
    {
        let ghost cx = old(self).cx();
        let ghost st = old(self).st();
        let cond = self.infer_expression(&while_expr.condition);
        let ghost c = tc_expr(cx, st, while_expr.condition);
        let ghost m0 = *self;
        if cond.is_resolved() && !matches!(cond, HulkType::Boolean) {
            self.report(CompilerError::condition_not_boolean(while_expr.span));
        } else {
            proof {
                Self::lemma_after_refl(*self);
            }
        }
        proof {
            Self::lemma_after_trans(*old(self), m0, *self, c.1, condition_check(c.0, while_expr.span));
        }
        let ghost m1 = *self;
        let body_type = self.infer_expr_body(&while_expr.body);
        let ghost body = tc_body(cx, st, while_expr.body);
        proof {
            Self::lemma_after_trans(*old(self), m1, *self, c.1 + condition_check(c.0, while_expr.span), body.1);
        }
        match &while_expr.else_body {
            Some(else_body) => {
                proof {
                    assert(decreases_to!(while_expr => while_expr.else_body->Some_0));
                }
                let ghost m2 = *self;
                let et = self.infer_expr_body(else_body);
                proof {
                    Self::lemma_after_trans(*old(self), m2, *self, c.1 + condition_check(c.0, while_expr.span) + body.1,
                        tc_body(cx, st, *else_body).1);
                }
                self.symbols.lca(&body_type, &et)
            },
            None => HulkType::Void,
        }
    }

    fn infer_for(&mut self, for_expr: &ForExpr) -> (t: HulkType)
        requires
            old(self).symbols.scope_stack().len() >= 1,
        ensures
            t@ == tc_expr(old(self).cx(), old(self).st(), Expression::For(Box::new(*for_expr))).0,
            final(self).after(*old(self), tc_expr(old(self).cx(), old(self).st(),
                Expression::For(Box::new(*for_expr))).1),
        decreases for_expr,
    {
        let ghost cx = old(self).cx();
        let ghost st = old(self).st();
        let _ = self.infer_expression(&for_expr.iterable);
        let ghost m0 = *self;
        self.open_scope();
        self.define(for_expr.var.as_str(), HulkType::Unknown, for_expr.span);
        let ghost m1 = *self;
        assert(m1.symbols.scope_stack().drop_last() == m0.symbols.scope_stack());
        let _ = self.infer_expr_body(&for_expr.body);
        self.close_scope();
        assert(self.symbols.scope_stack() == m0.symbols.scope_stack());
        proof {
            let it = tc_expr(cx, st, for_expr.iterable);
            let body = tc_body(cx, tc_define(st.push(Seq::empty()), for_expr.var@, TypeV::Unknown), for_expr.body);
            assert(diags_view(self.errors@) =~= diags_view(old(self).errors@) + (it.1 + body.1));
        }
        HulkType::Void
    }
}

impl TypeChecker {
    fn infer_case(&mut self, case_expr: &CaseExpr) -> (t: HulkType)
        requires
            old(self).symbols.scope_stack().len() >= 1,
        ensures
            t@ == tc_expr(old(self).cx(), old(self).st(), Expression::Case(Box::new(*case_expr))).0,
            final(self).after(*old(self), tc_expr(old(self).cx(), old(self).st(),
                Expression::Case(Box::new(*case_expr))).1),
        decreases case_expr,
    {
        let ghost cx = old(self).cx();
        let ghost st = old(self).st();
        let _ = self.infer_expression(&case_expr.expr);
        let ghost head = tc_expr(cx, st, case_expr.expr).1;
        let mut result = HulkType::Error;
        proof {
            assert(case_expr.branches@.subrange(0, 0) =~= Seq::<CaseBranch>::empty());
            assert(head + Seq::<DiagV>::empty() =~= head);
        }
        let mut i: usize = 0;
        while i < case_expr.branches.len()
            invariant
                i <= case_expr.branches.len(),
                cx == old(self).cx(),
                st == old(self).st(),
                old(self).symbols.scope_stack().len() >= 1,
                result@ == tc_branches(cx, st, case_expr.branches@.subrange(0, i as int)).0,
                self.after(*old(self), head + tc_branches(cx, st, case_expr.branches@.subrange(0, i as int)).1),
            decreases case_expr.branches.len() - i,
        {
            let branch = &case_expr.branches[i];
            let ghost pre = case_expr.branches@.subrange(0, i as int);
            let ghost cur = case_expr.branches@.subrange(0, i + 1);
            assert(cur.drop_last() =~= pre);
            assert(cur.last() == *branch);
            let ghost acc = tc_branches(cx, st, pre);
            proof {
                assert(decreases_to!(case_expr => case_expr.branches@[i as int].body));
            }
            let ghost m0 = *self;
            self.open_scope();
            let t = HulkType::from_name(branch.type_ident.as_str());
            self.define(branch.name.as_str(), t, branch.span);
            let ghost m1 = *self;
            assert(m1.symbols.scope_stack().drop_last() == m0.symbols.scope_stack());
            let bt = self.infer_expr_body(&branch.body);
            if result.is_error() {
                result = bt;
            } else {
                result = self.symbols.lca(&result, &bt);
            }
            self.close_scope();
            assert(self.symbols.scope_stack() == m0.symbols.scope_stack());
            proof {
                let inner = tc_define(st.push(Seq::empty()), branch.name@, spec_from_name(branch.type_ident@));
                assert(tc_branches(cx, st, cur).1 == acc.1 + tc_body(cx, inner, branch.body).1);
                assert(diags_view(self.errors@) =~= diags_view(old(self).errors@) + (head + tc_branches(cx, st, cur).1));
            }
            i = i + 1;
        }
        assert(case_expr.branches@.subrange(0, case_expr.branches@.len() as int) =~= case_expr.branches@);
        result
    }

    fn infer_assign(&mut self, assign: &AssignExpr) -> (t: HulkType)
        requires
            old(self).symbols.scope_stack().len() >= 1,
        ensures
            t@ == tc_expr(old(self).cx(), old(self).st(), Expression::Assign(Box::new(*assign))).0,
            final(self).after(*old(self), tc_expr(old(self).cx(), old(self).st(),
                Expression::Assign(Box::new(*assign))).1),
        decreases assign,
    {
        let ghost cx = old(self).cx();
        let ghost st = old(self).st();
        let target_type = self.infer_expression(&assign.target);
        let ghost m0 = *self;
        let value_type = self.infer_expression(&assign.value);
        let ghost m1 = *self;
        let report = CompilerError::type_does_not_conform(value_type.display_name().as_str(),
            target_type.display_name().as_str(), assign.span);
        self.check_conformance(&value_type, &target_type, report);
        proof {
            let tt = tc_expr(cx, st, assign.target);
            let vt = tc_expr(cx, st, assign.value);
            Self::lemma_after_trans(*old(self), m0, m1, tt.1, vt.1);
            Self::lemma_after_trans(*old(self), m1, *self, tt.1 + vt.1, conformance_check(cx.0, value_type@,
                target_type@, diag_view(report)));
        }
        value_type
    }

    fn infer_function_call(&mut self, call: &FunctionCall) -> (t: HulkType)
        requires
            old(self).symbols.scope_stack().len() >= 1,
        ensures
            t@ == tc_expr(old(self).cx(), old(self).st(), Expression::FunctionCall(Box::new(*call))).0,
            final(self).after(*old(self), tc_expr(old(self).cx(), old(self).st(),
                Expression::FunctionCall(Box::new(*call))).1),
        decreases call,
    {
        let ghost cx = old(self).cx();
        let ghost st = old(self).st();
        let arg_types = self.infer_list(&call.args);
        let ghost m0 = *self;
        match self.symbols.get_function(call.name.as_str()) {
            Some(func_info) => {
                let params = super::symbol_table::copy_params(&func_info.params);
                let ret = func_info.return_type.duplicate();
                self.check_arguments(&params, &arg_types, &call.args, call.span);
                proof {
                    Self::lemma_after_trans(*old(self), m0, *self, tc_list(cx, st, call.args@).1, argument_reports(cx.0,
                        params@, types_view(arg_types@), call.args@, call.span, min_nat(params@.len(), arg_types@.len())));
                }
                ret
            },
            None => HulkType::Error,
        }
    }

    fn infer_member_access(&mut self, access: &MemberAccess) -> (t: HulkType)
        requires
            old(self).symbols.scope_stack().len() >= 1,
        ensures
            t@ == tc_expr(old(self).cx(), old(self).st(), Expression::MemberAccess(Box::new(*access))).0,
            final(self).after(*old(self), tc_expr(old(self).cx(), old(self).st(),
                Expression::MemberAccess(Box::new(*access))).1),
        decreases access,
    {
        let ghost cx = old(self).cx();
        let ghost st = old(self).st();
        let obj_type = self.infer_expression(&access.object);
        let ghost o = tc_expr(cx, st, access.object);
        let ghost m0 = *self;
        match resolve_class_name(&self.symbols.current_class, &obj_type) {
            Some(name) => match self.symbols.resolve_attribute(name.as_str(), access.member.as_str()) {
                Some((_owner, attr)) => {
                    assert(o.1 =~= tc_expr(cx, st, Expression::MemberAccess(Box::new(*access))).1);
                    attr.hulk_type.duplicate()
                },
                None => {
                    self.report(CompilerError::undefined_member(name.as_str(), access.member.as_str(), access.span));
                    proof {
                        Self::lemma_after_trans(*old(self), m0, *self, o.1, seq![undefined_member_v(name@,
                            access.member@, access.span)]);
                        assert(o.1 + seq![undefined_member_v(name@, access.member@, access.span)] =~= o.1.push(
                            undefined_member_v(name@, access.member@, access.span)));
                    }
                    HulkType::Error
                },
            },
            None => {
                if !obj_type.is_error() {
                    self.report(CompilerError::undefined_member(obj_type.display_name().as_str(),
                        access.member.as_str(), access.span));
                    proof {
                        let r = undefined_member_v(spec_type_name(obj_type@), access.member@, access.span);
                        Self::lemma_after_trans(*old(self), m0, *self, o.1, seq![r]);
                        assert(o.1 + seq![r] =~= o.1.push(r));
                    }
                }
                HulkType::Error
            },
        }
    }

    fn infer_method_call(&mut self, call: &MethodCall) -> (t: HulkType)
        requires
            old(self).symbols.scope_stack().len() >= 1,
        ensures
            t@ == tc_expr(old(self).cx(), old(self).st(), Expression::MethodCall(Box::new(*call))).0,
            final(self).after(*old(self), tc_expr(old(self).cx(), old(self).st(),
                Expression::MethodCall(Box::new(*call))).1),
        decreases call,
    {
        let ghost cx = old(self).cx();
        let ghost st = old(self).st();
        let obj_type = self.infer_expression(&call.object);
        let ghost o = tc_expr(cx, st, call.object);
        let ghost m0 = *self;
        let arg_types = self.infer_list(&call.args);
        let ghost a = tc_list(cx, st, call.args@);
        proof {
            Self::lemma_after_trans(*old(self), m0, *self, o.1, a.1);
        }
        let ghost m1 = *self;
        match resolve_class_name(&self.symbols.current_class, &obj_type) {
            Some(name) => match self.symbols.resolve_method(name.as_str(), call.method.as_str()) {
                Some((_owner, method_info)) => {
                    if method_info.params.len() != arg_types.len() {
                        self.report(CompilerError::wrong_arity(call.method.as_str(), method_info.params.len(),
                            arg_types.len(), call.span));
                        proof {
                            Self::lemma_after_trans(*old(self), m1, *self, o.1 + a.1, seq![arity_v(call.method@,
                                method_info.params@.len(), arg_types@.len(), call.span)]);
                        }
                    } else {
                        self.check_arguments(&method_info.params, &arg_types, &call.args, call.span);
                        proof {
                            Self::lemma_after_trans(*old(self), m1, *self, o.1 + a.1, argument_reports(cx.0,
                                method_info.params@, types_view(arg_types@), call.args@, call.span, min_nat(
                                method_info.params@.len(), arg_types@.len())));
                        }
                    }
                    method_info.return_type.duplicate()
                },
                None => {
                    self.report(CompilerError::undefined_method(name.as_str(), call.method.as_str(), call.span));
                    proof {
                        Self::lemma_after_trans(*old(self), m1, *self, o.1 + a.1, seq![undefined_method_v(name@,
                            call.method@, call.span)]);
                        assert(o.1 + a.1 + seq![undefined_method_v(name@, call.method@, call.span)] =~= (o.1 + a.1).push(
                            undefined_method_v(name@, call.method@, call.span)));
                    }
                    HulkType::Error
                },
            },
            None => {
                if !obj_type.is_error() {
                    self.report(CompilerError::undefined_method(obj_type.display_name().as_str(),
                        call.method.as_str(), call.span));
                    proof {
                        let r = undefined_method_v(spec_type_name(obj_type@), call.method@, call.span);
                        Self::lemma_after_trans(*old(self), m1, *self, o.1 + a.1, seq![r]);
                        assert(o.1 + a.1 + seq![r] =~= (o.1 + a.1).push(r));
                    }
                }
                HulkType::Error
            },
        }
    }

    fn infer_index_access(&mut self, access: &IndexAccess) -> (t: HulkType)
        requires
            old(self).symbols.scope_stack().len() >= 1,
        ensures
            t@ == tc_expr(old(self).cx(), old(self).st(), Expression::IndexAccess(Box::new(*access))).0,
            final(self).after(*old(self), tc_expr(old(self).cx(), old(self).st(),
                Expression::IndexAccess(Box::new(*access))).1),
        decreases access,
    {
        let ghost cx = old(self).cx();
        let ghost st = old(self).st();
        let obj_type = self.infer_expression(&access.object);
        let ghost m0 = *self;
        let idx_type = self.infer_expression(&access.index);
        let ghost o = tc_expr(cx, st, access.object);
        let ghost x = tc_expr(cx, st, access.index);
        proof {
            Self::lemma_after_trans(*old(self), m0, *self, o.1, x.1);
        }
        let ghost m1 = *self;
        if idx_type.is_resolved() && !matches!(idx_type, HulkType::Number) {
            self.report(CompilerError::index_not_number(access.span));
        } else {
            proof {
                Self::lemma_after_refl(*self);
            }
        }
        let ghost idx = if spec_is_resolved(x.0) && x.0 != TypeV::Number { seq![index_v(access.span)] } else {
            Seq::<DiagV>::empty() };
        proof {
            Self::lemma_after_trans(*old(self), m1, *self, o.1 + x.1, idx);
        }
        match &obj_type {
            HulkType::Array(inner) => (**inner).duplicate(),
            HulkType::Error => HulkType::Error,
            _ => {
                let ghost m2 = *self;
                self.report(CompilerError::not_indexable(obj_type.display_name().as_str(), access.span));
                proof {
                    let r = not_indexable_v(obj_type@, access.span);
                    Self::lemma_after_trans(*old(self), m2, *self, o.1 + x.1 + idx, seq![r]);
                    assert(o.1 + x.1 + idx + seq![r] =~= (o.1 + x.1 + idx).push(r));
                }
                HulkType::Error
            },
        }
    }

    fn infer_new_instance(&mut self, inst: &NewInstance) -> (t: HulkType)
        requires
            old(self).symbols.scope_stack().len() >= 1,
        ensures
            t@ == tc_expr(old(self).cx(), old(self).st(), Expression::NewInstance(Box::new(*inst))).0,
            final(self).after(*old(self), tc_expr(old(self).cx(), old(self).st(),
                Expression::NewInstance(Box::new(*inst))).1),
        decreases inst,
    {
        let ghost cx = old(self).cx();
        let ghost st = old(self).st();
        let arg_types = self.infer_list(&inst.args);
        let ghost m0 = *self;
        match self.symbols.get_class(inst.type_ident.as_str()) {
            Some(class) => {
                let params = super::symbol_table::copy_params(&class.params);
                self.check_arguments(&params, &arg_types, &inst.args, inst.span);
                proof {
                    Self::lemma_after_trans(*old(self), m0, *self, tc_list(cx, st, inst.args@).1, argument_reports(cx.0,
                        params@, types_view(arg_types@), inst.args@, inst.span, min_nat(params@.len(), arg_types@.len())));
                }
            },
            None => {
                assert(tc_list(cx, st, inst.args@).1 + Seq::<DiagV>::empty() =~= tc_list(cx, st, inst.args@).1);
            },
        }
        HulkType::Class(inst.type_ident.clone())
    }

    fn infer_new_array(&mut self, arr: &NewArray) -> (t: HulkType)
        requires
            old(self).symbols.scope_stack().len() >= 1,
        ensures
            t@ == tc_expr(old(self).cx(), old(self).st(), Expression::NewArray(Box::new(*arr))).0,
            final(self).after(*old(self), tc_expr(old(self).cx(), old(self).st(),
                Expression::NewArray(Box::new(*arr))).1),
        decreases arr,
    {
        let ghost cx = old(self).cx();
        let ghost st = old(self).st();
        let size_type = self.infer_expression(&arr.size);
        let ghost sz = tc_expr(cx, st, arr.size);
        let ghost m0 = *self;
        if size_type.is_resolved() && !matches!(size_type, HulkType::Number) {
            self.report(CompilerError::type_mismatch("Number", size_type.display_name().as_str(), arr.span));
            proof {
                reveal_strlit("Number");
            }
        } else {
            proof {
                Self::lemma_after_refl(*self);
            }
        }
        let ghost check = if spec_is_resolved(sz.0) && sz.0 != TypeV::Number {
            seq![type_mismatch_v(TypeV::Number, sz.0, arr.span)]
        } else {
            Seq::<DiagV>::empty()
        };
        proof {
            Self::lemma_after_trans(*old(self), m0, *self, sz.1, check);
        }
        let element_type = match &arr.type_ident {
            Some(name) => HulkType::from_name(name.as_str()),
            None => HulkType::Unknown,
        };
        match &arr.init {
            Some((_var, init)) => {
                proof {
                    assert(decreases_to!(arr => arr.init->Some_0));
                    assert(decreases_to!(arr => (arr.init->Some_0).1));
                }
                let ghost m1 = *self;
                let _ = self.infer_expression(init);
                proof {
                    Self::lemma_after_trans(*old(self), m1, *self, sz.1 + check, tc_expr(cx, st, *init).1);
                }
            },
            None => {
                assert(sz.1 + check + Seq::<DiagV>::empty() =~= sz.1 + check);
            },
        }
        HulkType::Array(Box::new(element_type))
    }
}

// ───────────────────────── Declarations ─────────────────────────

/// The type a parameter annotation gives, `Unknown` without one.
pub open spec fn ann_type(a: Option<String>) -> TypeV {
    match a {
        Some(x) => spec_from_name(x@),
        None => TypeV::Unknown,
    }
}

/// The type the declaration `decl` (the parameters stored in the symbol
/// table, with the types inference gave) records for the parameter
/// `name`, from position `i` on: that of the first of that name,
/// `Unknown` if there is none.
pub open spec fn decl_type(decl: Seq<(String, HulkType)>, name: Seq<char>, i: int) -> TypeV
    decreases decl.len() - i,
{
    if i < 0 || i >= decl.len() {
        TypeV::Unknown
    } else if decl[i].0@ == name {
        decl[i].1@
    } else {
        decl_type(decl, name, i + 1)
    }
}

/// The type a parameter is checked with: its annotation, or without one
/// the type its declaration records in the symbol table (which type
/// inference fills in).
pub open spec fn param_type(p: Param, decl: Seq<(String, HulkType)>) -> TypeV {
    match p.type_ann {
        Some(x) => spec_from_name(x@),
        None => decl_type(decl, p.name@, 0),
    }
}

/// `st` with the parameters bound in the innermost scope, in order.
pub open spec fn tc_params(st: TStack, ps: Seq<Param>, decl: Seq<(String, HulkType)>) -> TStack
    decreases ps.len(),
{
    if ps.len() == 0 {
        st
    } else {
        tc_define(tc_params(st, ps.drop_last(), decl), ps.last().name@, param_type(ps.last(), decl))
    }
}

/// The stored parameters of the global function `name`.
pub open spec fn fn_decl(cx: TcCtx, name: Seq<char>) -> Seq<(String, HulkType)> {
    match find_func(cx.1, name) {
        Some(f) => f.params@,
        None => Seq::empty(),
    }
}

/// The stored parameters of the method `name` of the current class.
pub open spec fn method_decl(cx: TcCtx, name: Seq<char>) -> Seq<(String, HulkType)> {
    match cx.2 {
        Some(c) => match find_class(cx.0, c) {
            Some(ci) => match find_func(ci.methods@, name) {
                Some(m) => m.params@,
                None => Seq::empty(),
            },
            None => Seq::empty(),
        },
        None => Seq::empty(),
    }
}

/// The stored constructor parameters of the current class.
pub open spec fn ctor_decl(cx: TcCtx) -> Seq<(String, HulkType)> {
    match cx.2 {
        Some(c) => match find_class(cx.0, c) {
            Some(ci) => ci.params@,
            None => Seq::empty(),
        },
        None => Seq::empty(),
    }
}

/// The report of a body whose type does not conform to the declared
/// return type.
pub open spec fn return_check(classes: Seq<ClassInfo>, name: Seq<char>, ret: Option<String>, body: TypeV, span: Span) -> Seq<DiagV> {
    match ret {
        Some(r) => conformance_check(classes, body, spec_from_name(r@), return_mismatch_v(name, spec_from_name(r@),
            body, span)),
        None => Seq::empty(),
    }
}

/// The reports of type checking a global function.
pub open spec fn tc_function(cx: TcCtx, st: TStack, f: FunctionDecl) -> Seq<DiagV> {
    let inner = tc_params(st.push(Seq::empty()), f.params@, fn_decl(cx, f.name@));
    let body = tc_fn_body(cx, inner, f.body);
    body.1 + return_check(cx.0, f.name@, f.return_type, body.0, f.span)
}

/// The reports of type checking a method (`self` bound to the class).
pub open spec fn tc_method(cx: TcCtx, st: TStack, m: Method) -> Seq<DiagV> {
    let self_type = match cx.2 {
        Some(n) => TypeV::Class(n),
        None => TypeV::Error,
    };
    let inner = tc_params(tc_define(st.push(Seq::empty()), "self"@, self_type), m.params@, method_decl(cx, m.name@));
    let body = tc_fn_body(cx, inner, m.body);
    body.1 + return_check(cx.0, m.name@, m.return_type, body.0, m.span)
}

/// The reports of type checking an attribute initializer, with the
/// constructor parameters in scope.
pub open spec fn tc_attribute(cx: TcCtx, st: TStack, params: Seq<Param>, a: Attribute) -> Seq<DiagV> {
    let inner = tc_params(st.push(Seq::empty()), params, ctor_decl(cx));
    let init = tc_expr(cx, inner, a.init);
    init.1 + match a.type_ann {
        Some(ann) => conformance_check(cx.0, init.0, spec_from_name(ann@), type_mismatch_v(spec_from_name(ann@),
            init.0, a.span)),
        None => Seq::empty(),
    }
}

pub open spec fn tc_attributes(cx: TcCtx, st: TStack, params: Seq<Param>, attrs: Seq<Attribute>) -> Seq<DiagV>
    decreases attrs.len(),
{
    if attrs.len() == 0 {
        Seq::empty()
    } else {
        tc_attributes(cx, st, params, attrs.drop_last()) + tc_attribute(cx, st, params, attrs.last())
    }
}

pub open spec fn tc_methods(cx: TcCtx, st: TStack, ms: Seq<Method>) -> Seq<DiagV>
    decreases ms.len(),
{
    if ms.len() == 0 {
        Seq::empty()
    } else {
        tc_methods(cx, st, ms.drop_last()) + tc_method(cx, st, ms.last())
    }
}

/// The reports of type checking a class: its attribute initializers,
/// then its methods, with the class as the current one.
pub open spec fn tc_class(cx: TcCtx, st: TStack, c: ClassDecl) -> Seq<DiagV> {
    let ccx = (cx.0, cx.1, Some(c.name@));
    tc_attributes(ccx, st, c.params@, c.attributes@) + tc_methods(ccx, st, c.methods@)
}

pub open spec fn tc_functions(cx: TcCtx, st: TStack, fs: Seq<FunctionDecl>) -> Seq<DiagV>
    decreases fs.len(),
{
    if fs.len() == 0 {
        Seq::empty()
    } else {
        tc_functions(cx, st, fs.drop_last()) + tc_function(cx, st, fs.last())
    }
}

pub open spec fn tc_classes(cx: TcCtx, st: TStack, cs: Seq<ClassDecl>) -> Seq<DiagV>
    decreases cs.len(),
{
    if cs.len() == 0 {
        Seq::empty()
    } else {
        tc_classes(cx, st, cs.drop_last()) + tc_class(cx, st, cs.last())
    }
}

/// The reports of type checking a program: function bodies, classes, then
/// the entry expression (with no current class once classes were checked).
pub open spec fn tc_program(cx: TcCtx, st: TStack, p: Program) -> Seq<DiagV> {
    let entry_cx = if p.classes@.len() > 0 { (cx.0, cx.1, None) } else { cx };
    tc_functions(cx, st, p.functions@) + tc_classes(cx, st, p.classes@) + match p.entry {
        Some(e) => tc_body(entry_cx, st.push(Seq::empty()), e).1,
        None => Seq::empty(),
    }
}

/// The type `decl` records for the parameter `name`.
fn stored_type(decl: &Vec<(String, HulkType)>, name: &str) -> (r: HulkType)
    ensures
        r@ == decl_type(decl@, name@, 0),
{
    let mut i: usize = 0;
    while i < decl.len()
        invariant
            i <= decl.len(),
            decl_type(decl@, name@, 0) == decl_type(decl@, name@, i as int),
        decreases decl.len() - i,
    {
        if str_eq(decl[i].0.as_str(), name) {
            return decl[i].1.duplicate();
        }
        i = i + 1;
    }
    HulkType::Unknown
}

impl TypeChecker {
    /// The stored parameters of the method `name` of the current class.
    fn method_params(&self, name: &str) -> (r: Vec<(String, HulkType)>)
        ensures
            r@ == method_decl(self.cx(), name@),
    {
        match &self.symbols.current_class {
            Some(c) => match self.symbols.get_class(c.as_str()) {
                Some(ci) => match ci.get_method(name) {
                    Some(m) => copy_params(&m.params),
                    None => Vec::new(),
                },
                None => Vec::new(),
            },
            None => Vec::new(),
        }
    }

    /// The stored constructor parameters of the current class.
    fn ctor_params(&self) -> (r: Vec<(String, HulkType)>)
        ensures
            r@ == ctor_decl(self.cx()),
    {
        match &self.symbols.current_class {
            Some(c) => match self.symbols.get_class(c.as_str()) {
                Some(ci) => copy_params(&ci.params),
                None => Vec::new(),
            },
            None => Vec::new(),
        }
    }
}

impl TypeChecker {
    fn define_params(&mut self, params: &Vec<Param>, decl: &Vec<(String, HulkType)>)
        requires
            old(self).symbols.scope_stack().len() >= 1,
        ensures
            final(self).symbols.functions == old(self).symbols.functions,
            final(self).symbols.classes == old(self).symbols.classes,
            final(self).symbols.current_class == old(self).symbols.current_class,
            final(self).errors == old(self).errors,
            final(self).st() == tc_params(old(self).st(), params@, decl@),
            final(self).symbols.scope_stack().len() == old(self).symbols.scope_stack().len(),
            final(self).symbols.scope_stack().drop_last() == old(self).symbols.scope_stack().drop_last(),
    {
        let mut i: usize = 0;
        assert(params@.subrange(0, 0) =~= Seq::<Param>::empty());
        while i < params.len()
            invariant
                i <= params.len(),
                old(self).symbols.scope_stack().len() >= 1,
                self.symbols.functions == old(self).symbols.functions,
                self.symbols.classes == old(self).symbols.classes,
                self.symbols.current_class == old(self).symbols.current_class,
                self.errors == old(self).errors,
                self.st() == tc_params(old(self).st(), params@.subrange(0, i as int), decl@),
                self.symbols.scope_stack().len() == old(self).symbols.scope_stack().len(),
                self.symbols.scope_stack().drop_last() == old(self).symbols.scope_stack().drop_last(),
            decreases params.len() - i,
        {
            let p = &params[i];
            let ghost cur = params@.subrange(0, i + 1);
            assert(cur.drop_last() =~= params@.subrange(0, i as int));
            assert(cur.last() == *p);
            let t = match &p.type_ann {
                Some(ann) => HulkType::from_name(ann.as_str()),
                None => stored_type(decl, p.name.as_str()),
            };
            self.define(p.name.as_str(), t, p.span);
            i = i + 1;
        }
        assert(params@.subrange(0, params@.len() as int) =~= params@);
    }

    /// Reports a body type that does not conform to the declared return type.
    fn check_return(&mut self, name: &str, ret: &Option<String>, body_type: &HulkType, span: Span)
        ensures
            final(self).after(*old(self), return_check(old(self).symbols.classes@, name@, *ret, body_type@, span)),
    {
        match ret {
            Some(ret_ann) => {
                let expected = HulkType::from_name(ret_ann.as_str());
                let report = CompilerError::return_type_mismatch(name, expected.display_name().as_str(),
                    body_type.display_name().as_str(), span);
                self.check_conformance(body_type, &expected, report);
            },
            None => {
                proof {
                    Self::lemma_after_refl(*self);
                }
            },
        }
    }

    fn check_function(&mut self, func: &FunctionDecl)
        requires
            old(self).symbols.scope_stack().len() >= 1,
        ensures
            final(self).after(*old(self), tc_function(old(self).cx(), old(self).st(), *func)),
    {
        let ghost cx = old(self).cx();
        let ghost st = old(self).st();
        let decl = match self.symbols.get_function(func.name.as_str()) {
            Some(f) => copy_params(&f.params),
            None => Vec::new(),
        };
        self.open_scope();
        self.define_params(&func.params, &decl);
        let ghost m0 = *self;
        let body_type = self.infer_body(&func.body);
        let ghost m1 = *self;
        self.check_return(func.name.as_str(), &func.return_type, &body_type, func.span);
        proof {
            let inner = tc_params(st.push(Seq::empty()), func.params@, fn_decl(cx, func.name@));
            Self::lemma_after_trans(m0, m1, *self, tc_fn_body(cx, inner, func.body).1, return_check(cx.0, func.name@,
                func.return_type, body_type@, func.span));
        }
        let ghost m2 = *self;
        self.close_scope();
        proof {
            assert(m2.symbols.scope_stack() == m0.symbols.scope_stack());
            assert(m0.symbols.scope_stack().drop_last() == old(self).symbols.scope_stack());
        }
    }

    fn check_method(&mut self, method: &Method)
        requires
            old(self).symbols.scope_stack().len() >= 1,
        ensures
            final(self).after(*old(self), tc_method(old(self).cx(), old(self).st(), *method)),
    {
        let ghost cx = old(self).cx();
        let ghost st = old(self).st();
        self.open_scope();
        let self_type = match &self.symbols.current_class {
            Some(name) => HulkType::Class(name.clone()),
            None => HulkType::Error,
        };
        self.define("self", self_type, method.span);
        proof {
            reveal_strlit("self");
        }
        let decl = self.method_params(method.name.as_str());
        self.define_params(&method.params, &decl);
        let ghost m0 = *self;
        let body_type = self.infer_body(&method.body);
        let ghost m1 = *self;
        self.check_return(method.name.as_str(), &method.return_type, &body_type, method.span);
        proof {
            Self::lemma_after_trans(m0, m1, *self, tc_fn_body(cx, m0.st(), method.body).1, return_check(cx.0,
                method.name@, method.return_type, body_type@, method.span));
        }
        self.close_scope();
        proof {
            assert(m0.symbols.scope_stack().drop_last() == old(self).symbols.scope_stack());
        }
    }
}

impl TypeChecker {
    /// Type checks an attribute initializer with the constructor
    /// parameters in scope.
    fn check_attribute(&mut self, params: &Vec<Param>, attr: &Attribute)
        requires
            old(self).symbols.scope_stack().len() >= 1,
        ensures
            final(self).after(*old(self), tc_attribute(old(self).cx(), old(self).st(), params@, *attr)),
    {
        let ghost cx = old(self).cx();
        let ghost st = old(self).st();
        let decl = self.ctor_params();
        self.open_scope();
        self.define_params(params, &decl);
        let ghost m0 = *self;
        let init_type = self.infer_expression(&attr.init);
        let ghost m1 = *self;
        match &attr.type_ann {
            Some(ann) => {
                let expected = HulkType::from_name(ann.as_str());
                let report = CompilerError::type_mismatch(expected.display_name().as_str(),
                    init_type.display_name().as_str(), attr.span);
                self.check_conformance(&init_type, &expected, report);
                proof {
                    Self::lemma_after_trans(m0, m1, *self, tc_expr(cx, m0.st(), attr.init).1, conformance_check(cx.0,
                        init_type@, expected@, diag_view(report)));
                }
            },
            None => {
                assert(tc_expr(cx, m0.st(), attr.init).1 + Seq::<DiagV>::empty() =~= tc_expr(cx, m0.st(), attr.init).1);
            },
        }
        self.close_scope();
        proof {
            assert(m0.symbols.scope_stack().drop_last() == old(self).symbols.scope_stack());
        }
    }

    fn check_class(&mut self, class: &ClassDecl)
        requires
            old(self).symbols.scope_stack().len() >= 1,
        ensures
            final(self).symbols.functions == old(self).symbols.functions,
            final(self).symbols.classes == old(self).symbols.classes,
            final(self).symbols.scope_stack() == old(self).symbols.scope_stack(),
            final(self).symbols.current_class is None,
            diags_view(final(self).errors@) == diags_view(old(self).errors@) + tc_class(old(self).cx(), old(self).st(),
                *class),
    {
        let ghost cx = old(self).cx();
        let ghost st = old(self).st();
        self.symbols.current_class = Some(class.name.clone());
        let ghost ccx = (cx.0, cx.1, Some(class.name@));
        assert(self.cx() == ccx);
        let ghost start = *self;
        proof {
            Self::lemma_after_refl(start);
            assert(class.attributes@.subrange(0, 0) =~= Seq::<Attribute>::empty());
        }
        let mut k: usize = 0;
        while k < class.attributes.len()
            invariant
                k <= class.attributes.len(),
                start.symbols.scope_stack().len() >= 1,
                start.cx() == ccx,
                start.st() == st,
                self.after(start, tc_attributes(ccx, st, class.params@, class.attributes@.subrange(0, k as int))),
            decreases class.attributes.len() - k,
        {
            let ghost m = *self;
            let ghost cur = class.attributes@.subrange(0, k + 1);
            assert(cur.drop_last() =~= class.attributes@.subrange(0, k as int));
            assert(cur.last() == class.attributes@[k as int]);
            self.check_attribute(&class.params, &class.attributes[k]);
            proof {
                Self::lemma_after_trans(start, m, *self, tc_attributes(ccx, st, class.params@,
                    class.attributes@.subrange(0, k as int)), tc_attribute(ccx, st, class.params@,
                    class.attributes@[k as int]));
            }
            k = k + 1;
        }
        assert(class.attributes@.subrange(0, class.attributes@.len() as int) =~= class.attributes@);
        let ghost mid = *self;
        proof {
            Self::lemma_after_refl(mid);
            assert(class.methods@.subrange(0, 0) =~= Seq::<Method>::empty());
        }
        let mut q: usize = 0;
        while q < class.methods.len()
            invariant
                q <= class.methods.len(),
                mid.symbols.scope_stack().len() >= 1,
                mid.cx() == ccx,
                mid.st() == st,
                self.after(mid, tc_methods(ccx, st, class.methods@.subrange(0, q as int))),
            decreases class.methods.len() - q,
        {
            let ghost m = *self;
            let ghost cur = class.methods@.subrange(0, q + 1);
            assert(cur.drop_last() =~= class.methods@.subrange(0, q as int));
            assert(cur.last() == class.methods@[q as int]);
            self.check_method(&class.methods[q]);
            proof {
                Self::lemma_after_trans(mid, m, *self, tc_methods(ccx, st, class.methods@.subrange(0, q as int)),
                    tc_method(ccx, st, class.methods@[q as int]));
            }
            q = q + 1;
        }
        assert(class.methods@.subrange(0, class.methods@.len() as int) =~= class.methods@);
        proof {
            Self::lemma_after_trans(start, mid, *self, tc_attributes(ccx, st, class.params@, class.attributes@),
                tc_methods(ccx, st, class.methods@));
        }
        self.symbols.current_class = None;
    }
}

/// Type checks a program whose declarations are collected in `symbols`
/// and returns the diagnostics: those of the function bodies, of the
/// classes and of the entry expression, in order (see `tc_program`).  A
/// table without any scope is checked from one empty scope, which is
/// closed again after.
pub fn check_types(program: &Program, symbols: &mut SymbolTable) -> (errors: Vec<CompilerError>)
    ensures
        final(symbols).functions == old(symbols).functions,
        final(symbols).classes == old(symbols).classes,
        final(symbols).scope_stack() == old(symbols).scope_stack(),
        program.classes@.len() > 0 ==> final(symbols).current_class is None,
        program.classes@.len() == 0 ==> final(symbols).current_class == old(symbols).current_class,
        old(symbols).scope_stack().len() >= 1 ==> diags_view(errors@) == tc_program((old(symbols).classes@,
            old(symbols).functions@, match old(symbols).current_class {
            Some(n) => Some(n@),
            None => None,
        }), tview(old(symbols).scope_stack()), *program),
        old(symbols).scope_stack().len() == 0 ==> diags_view(errors@) == tc_program((old(symbols).classes@,
            old(symbols).functions@, match old(symbols).current_class {
            Some(n) => Some(n@),
            None => None,
        }), tview(seq![Seq::<VarInfo>::empty()]), *program),
{
    if symbols.scopes.len() == 0 {
        proof {
            assert(old(symbols).scope_stack().len() == 0);
        }
        symbols.push_scope();
        assert(symbols.scope_stack() =~= seq![Seq::<VarInfo>::empty()]);
        let errors = check_types_in_scope(program, symbols);
        symbols.pop_scope();
        assert(symbols.scope_stack() =~= old(symbols).scope_stack());
        errors
    } else {
        check_types_in_scope(program, symbols)
    }
}

/// `check_types` on a table with at least one scope.
fn check_types_in_scope(program: &Program, symbols: &mut SymbolTable) -> (errors: Vec<CompilerError>)
    requires
        old(symbols).scope_stack().len() >= 1,
    ensures
        diags_view(errors@) == tc_program((old(symbols).classes@, old(symbols).functions@,
            match old(symbols).current_class {
                Some(n) => Some(n@),
                None => None,
            }), tview(old(symbols).scope_stack()), *program),
        final(symbols).functions == old(symbols).functions,
        final(symbols).classes == old(symbols).classes,
        final(symbols).scope_stack() == old(symbols).scope_stack(),
        program.classes@.len() > 0 ==> final(symbols).current_class is None,
        program.classes@.len() == 0 ==> final(symbols).current_class == old(symbols).current_class,
{
    let mut table = SymbolTable { functions: Vec::new(), classes: Vec::new(), scopes: Vec::new(), current_class: None };
    std::mem::swap(&mut table, symbols);
    assert(table == *old(symbols));
    let mut checker = TypeChecker { symbols: table, errors: Vec::new() };
    let ghost start = checker;
    let ghost cx = start.cx();
    let ghost st = start.st();
    proof {
        TypeChecker::lemma_after_refl(start);
        assert(diags_view(start.errors@) =~= Seq::<DiagV>::empty());
        assert(program.functions@.subrange(0, 0) =~= Seq::<FunctionDecl>::empty());
    }
    let mut i: usize = 0;
    while i < program.functions.len()
        invariant
            i <= program.functions.len(),
            start.symbols.scope_stack().len() >= 1,
            start.cx() == cx,
            start.st() == st,
            diags_view(start.errors@) == Seq::<DiagV>::empty(),
            checker.after(start, tc_functions(cx, st, program.functions@.subrange(0, i as int))),
        decreases program.functions.len() - i,
    {
        let ghost m = checker;
        let ghost cur = program.functions@.subrange(0, i + 1);
        assert(cur.drop_last() =~= program.functions@.subrange(0, i as int));
        assert(cur.last() == program.functions@[i as int]);
        checker.check_function(&program.functions[i]);
        proof {
            TypeChecker::lemma_after_trans(start, m, checker, tc_functions(cx, st, program.functions@.subrange(0,
                i as int)), tc_function(cx, st, program.functions@[i as int]));
        }
        i = i + 1;
    }
    assert(program.functions@.subrange(0, program.functions@.len() as int) =~= program.functions@);
    let ghost fdiags = tc_functions(cx, st, program.functions@);
    assert(program.classes@.subrange(0, 0) =~= Seq::<ClassDecl>::empty());
    assert(fdiags + Seq::<DiagV>::empty() =~= fdiags);
    let mut k: usize = 0;
    while k < program.classes.len()
        invariant
            k <= program.classes.len(),
            start.symbols.scope_stack().len() >= 1,
            checker.symbols.functions == start.symbols.functions,
            checker.symbols.classes == start.symbols.classes,
            checker.symbols.scope_stack() == start.symbols.scope_stack(),
            k == 0 ==> checker.symbols.current_class == start.symbols.current_class,
            k > 0 ==> checker.symbols.current_class is None,
            start.cx() == cx,
            start.st() == st,
            diags_view(start.errors@) == Seq::<DiagV>::empty(),
            diags_view(checker.errors@) == fdiags + tc_classes(cx, st, program.classes@.subrange(0, k as int)),
        decreases program.classes.len() - k,
    {
        let ghost m = checker;
        let ghost cur = program.classes@.subrange(0, k + 1);
        assert(cur.drop_last() =~= program.classes@.subrange(0, k as int));
        assert(cur.last() == program.classes@[k as int]);
        assert(m.st() == st);
        assert((m.cx().0, m.cx().1) == (cx.0, cx.1));
        checker.check_class(&program.classes[k]);
        proof {
            assert(tc_class(m.cx(), m.st(), program.classes@[k as int]) == tc_class(cx, st, program.classes@[k as int]));
            assert(fdiags + tc_classes(cx, st, program.classes@.subrange(0, k as int)) + tc_class(cx, st,
                program.classes@[k as int]) =~= fdiags + tc_classes(cx, st, cur));
        }
        k = k + 1;
    }
    assert(program.classes@.subrange(0, program.classes@.len() as int) =~= program.classes@);
    let ghost cdiags = fdiags + tc_classes(cx, st, program.classes@);
    match &program.entry {
        Some(entry) => {
            let ghost m = checker;
            checker.open_scope();
            let _ = checker.infer_expr_body(entry);
            checker.close_scope();
            proof {
                let entry_cx = if program.classes@.len() > 0 { (cx.0, cx.1, None) } else { cx };
                assert(m.cx() == entry_cx);
                assert(diags_view(checker.errors@) =~= cdiags + tc_body(entry_cx, st.push(Seq::empty()), *entry).1);
            }
        },
        None => {
            assert(cdiags + Seq::<DiagV>::empty() =~= cdiags);
        },
    }
    let ghost fin = checker.symbols;
    std::mem::swap(&mut checker.symbols, symbols);
    assert(*symbols == fin);
    checker.errors
}

} // verus!

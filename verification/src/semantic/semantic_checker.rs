//! Pass 2: semantic analysis of bodies.
//!
//! Traverses all function and method bodies and the entry expression,
//! verifying that variables are declared before use, that functions and
//! constructors are called with the right number of arguments, that
//! annotated types exist, that assignment targets are valid, that `self`
//! and `base` are used only inside methods, and warning about unused
//! variables.

use vstd::prelude::*;
use crate::ast::{
    AsExpr, AssignExpr, Atom, Attribute, Body, CaseBranch, CaseExpr, ClassDecl, CondBranch, ExprBody, Expression,
    ForExpr, FunctionCall, FunctionDecl, IfExpr, IsExpr, LetDecl, LetExpr, Method, NewArray, NewInstance, Param,
    Program, WhileExpr,
};
use crate::tokens::Span;
use crate::text::str_eq;
use super::errors::{CompilerError, Severity, DiagV, diag_view, diags_view};
use super::scopes::{
    VarV, VStack, vstack, vscope, sc_bound, sc_mark, sc_fresh, sc_define, sc_define_all, lemma_vstack_shape,
    lemma_empty_scope, lemma_bound, lemma_mark, lemma_define,
};
use super::type_checker::{ann_type, arity_v};
use super::symbol_table::{
    SymbolTable, VarInfo, FuncInfo, ClassInfo, find_class, find_func, find_name, var_names, spec_mark_used,
    spec_resolve_parent_method, spec_builtin_type_name, param_views,
};
use super::types::{HulkType, TypeV, spec_from_name};

verus! {

// ───────────────────────── The checking model ─────────────────────────

/// What the checks read besides the scopes: the classes, the functions,
/// the class being checked, whether a method (or an attribute initializer)
/// is being checked, and the name of the method.
pub type ScCtx = (Seq<ClassInfo>, Seq<FuncInfo>, Option<Seq<char>>, bool, Option<Seq<char>>);

/// The scopes after a check, and the diagnostics it reports, in order.
pub type ScOut = (VStack, Seq<DiagV>);

pub open spec fn undefined_var_v(name: Seq<char>, span: Span) -> DiagV {
    ("E100"@, "Variable '"@ + name + "' no está definida"@, span, Severity::Error,
        Some("Verifique que la variable esté declarada antes de usarla."@))
}

pub open spec fn undefined_function_v(name: Seq<char>, span: Span) -> DiagV {
    ("E101"@, "Función '"@ + name + "' no está definida"@, span, Severity::Error, None)
}

pub open spec fn undefined_type_v(name: Seq<char>, span: Span) -> DiagV {
    ("E102"@, "Tipo '"@ + name + "' no está definido"@, span, Severity::Error, None)
}

pub open spec fn duplicate_var_v(name: Seq<char>, span: Span) -> DiagV {
    ("E103"@, "Variable"@ + " '"@ + name + "' ya fue definida anteriormente"@, span, Severity::Error, None)
}

pub open spec fn invalid_target_v(span: Span) -> DiagV {
    ("E105"@, "El lado izquierdo de ':=' debe ser una variable, atributo o indexación"@, span, Severity::Error, None)
}

pub open spec fn self_outside_v(span: Span) -> DiagV {
    ("E106"@, "'self' solo puede usarse dentro de un método de clase"@, span, Severity::Error, None)
}

pub open spec fn base_outside_v(span: Span) -> DiagV {
    ("E111"@, "'base' solo puede usarse dentro de un método de clase"@, span, Severity::Error, None)
}

pub open spec fn undefined_base_v(class: Seq<char>, method: Seq<char>, span: Span) -> DiagV {
    ("E112"@, "Ningún ancestro de '"@ + class + "' define el método '"@ + method + "'"@, span, Severity::Error,
        None)
}

pub open spec fn override_v(class: Seq<char>, method: Seq<char>, span: Span) -> DiagV {
    ("E113"@, "La firma de '"@ + method + "' en '"@ + class + "' no coincide con la del ancestro"@, span,
        Severity::Error, None)
}

pub open spec fn unused_v(name: Seq<char>, span: Span) -> DiagV {
    ("W001"@, "Variable '"@ + name + "' declarada pero nunca usada"@, span, Severity::Warning,
        Some("Si es intencional, prefije el nombre con '_'."@))
}

/// The warnings for the bindings of a closed scope never read (but `self`).
pub open spec fn unused_diags(sc: Seq<VarV>) -> Seq<DiagV>
    decreases sc.len(),
{
    if sc.len() == 0 {
        Seq::empty()
    } else {
        let v = sc.last();
        unused_diags(sc.drop_last()) + if !v.3 && v.0 != "self"@ {
            seq![unused_v(v.0, v.2)]
        } else {
            Seq::empty()
        }
    }
}

/// Whether `name` names a type: a built-in one or a declared class.
pub open spec fn type_known(c: ScCtx, name: Seq<char>) -> bool {
    spec_builtin_type_name(name) || find_class(c.0, name) is Some
}

/// The report for an annotation naming no type.
pub open spec fn sc_type(c: ScCtx, name: Seq<char>, span: Span) -> Seq<DiagV> {
    if type_known(c, name) {
        Seq::empty()
    } else {
        seq![undefined_type_v(name, span)]
    }
}

/// The report for an optional annotation.
pub open spec fn sc_ann(c: ScCtx, ann: Option<String>, span: Span) -> Seq<DiagV> {
    match ann {
        Some(a) => sc_type(c, a@, span),
        None => Seq::empty(),
    }
}

/// A read of variable `name`: `self` outside a method and unbound names
/// are reported; a bound name is marked as read.
pub open spec fn sc_var(c: ScCtx, st: VStack, name: Seq<char>, span: Span) -> ScOut {
    if name == "self"@ {
        (st, if c.3 {
            Seq::empty()
        } else {
            seq![self_outside_v(span)]
        })
    } else if !sc_bound(st, name) {
        (st, seq![undefined_var_v(name, span)])
    } else {
        (sc_mark(st, name), Seq::empty())
    }
}

/// `first`, followed by `second` from the scopes `first` leaves.
pub open spec fn chain(first: ScOut, second: ScOut) -> ScOut {
    (second.0, first.1 + second.1)
}

/// Closes the innermost scope, warning about its unread bindings.
pub open spec fn close(r: ScOut) -> ScOut {
    (r.0.drop_last(), r.1 + unused_diags(r.0.last()))
}

/// The report for `count` arguments given where `expected` are taken.
pub open spec fn arity_check(name: Seq<char>, expected: nat, count: nat, span: Span) -> Seq<DiagV> {
    if expected != count {
        seq![arity_v(name, expected, count, span)]
    } else {
        Seq::empty()
    }
}

pub open spec fn sc_atom(c: ScCtx, st: VStack, a: Atom) -> ScOut
    decreases a,
{
    match a {
        Atom::Variable(id) => sc_var(c, st, id.name@, id.position),
        Atom::Group(g) => sc_expr(c, st, g.expression),
        _ => (st, Seq::empty()),
    }
}

pub open spec fn sc_list(c: ScCtx, st: VStack, es: Seq<Expression>) -> ScOut
    decreases es,
{
    if es.len() == 0 {
        (st, Seq::empty())
    } else {
        let pre = sc_list(c, st, es.drop_last());
        chain(pre, sc_expr(c, pre.0, es.last()))
    }
}

pub open spec fn sc_body(c: ScCtx, st: VStack, b: ExprBody) -> ScOut
    decreases b,
{
    match b {
        ExprBody::Single(e) => sc_expr(c, st, *e),
        ExprBody::Block(es) => sc_list(c, st, es@),
    }
}

/// The declarations of a `let`, in order: the annotation, the initializer
/// (before the name is bound), and last the binding.
pub open spec fn sc_decls(c: ScCtx, st: VStack, ds: Seq<LetDecl>) -> ScOut
    decreases ds,
{
    if ds.len() == 0 {
        (st, Seq::empty())
    } else {
        let pre = sc_decls(c, st, ds.drop_last());
        let d = ds.last();
        let init = sc_expr(c, pre.0, d.value);
        let dup = if sc_fresh(init.0, d.name@) {
            Seq::empty()
        } else {
            seq![duplicate_var_v(d.name@, d.span)]
        };
        (sc_define(init.0, d.name@, ann_type(d.type_ann), d.span), pre.1 + sc_ann(c, d.type_ann, d.span)
            + init.1 + dup)
    }
}

pub open spec fn sc_elifs(c: ScCtx, st: VStack, bs: Seq<CondBranch>) -> ScOut
    decreases bs,
{
    if bs.len() == 0 {
        (st, Seq::empty())
    } else {
        let pre = sc_elifs(c, st, bs.drop_last());
        let cond = sc_expr(c, pre.0, bs.last().condition);
        chain(chain(pre, cond), sc_body(c, cond.0, bs.last().body))
    }
}

/// The branches of a `case`: each checks its type and binds its variable
/// in a scope of its own.
pub open spec fn sc_branches(c: ScCtx, st: VStack, bs: Seq<CaseBranch>) -> ScOut
    decreases bs,
{
    if bs.len() == 0 {
        (st, Seq::empty())
    } else {
        let pre = sc_branches(c, st, bs.drop_last());
        let b = bs.last();
        let bound = sc_define(pre.0.push(Seq::empty()), b.name@, spec_from_name(b.type_ident@), b.span);
        let body = close(sc_body(c, bound, b.body));
        (body.0, pre.1 + sc_type(c, b.type_ident@, b.span) + body.1)
    }
}

/// The left side of `:=` when it is not checked as an expression: a
/// variable is looked up and marked as read, and anything but a variable,
/// a member access or an indexing is reported.
pub open spec fn target_check(st: VStack, t: Expression, span: Span) -> Option<ScOut> {
    match t {
        Expression::Atom(a) => match *a {
            Atom::Variable(id) => Some(
                if !sc_bound(st, id.name@) {
                    (st, seq![undefined_var_v(id.name@, id.position)])
                } else {
                    (sc_mark(st, id.name@), Seq::empty())
                },
            ),
            _ => Some((st, seq![invalid_target_v(span)])),
        },
        Expression::MemberAccess(_) => None,
        Expression::IndexAccess(_) => None,
        _ => Some((st, seq![invalid_target_v(span)])),
    }
}

/// The reports of a call `base(...)` with `count` arguments, and whether
/// its arguments are checked: it must stand in a method of a class, which
/// must override a method of an ancestor, with that method's arity.
pub open spec fn base_check(c: ScCtx, count: nat, span: Span) -> (Seq<DiagV>, bool) {
    if !c.3 {
        (seq![base_outside_v(span)], true)
    } else {
        match c.2 {
            None => (seq![base_outside_v(span)], false),
            Some(class) => {
                let m = match c.4 {
                    Some(m) => m,
                    None => Seq::empty(),
                };
                (match spec_resolve_parent_method(c.0, class, m) {
                    Some(p) => arity_check("base"@, p.1.params@.len(), count, span),
                    None => seq![undefined_base_v(class, m, span)],
                }, true)
            },
        }
    }
}

pub open spec fn sc_call(c: ScCtx, st: VStack, call: FunctionCall) -> ScOut
    decreases call,
{
    if call.name@ == "base"@ {
        let h = base_check(c, call.args@.len(), call.span);
        if h.1 {
            chain((st, h.0), sc_list(c, st, call.args@))
        } else {
            (st, h.0)
        }
    } else {
        let head = match find_func(c.1, call.name@) {
            Some(f) => arity_check(call.name@, f.params@.len(), call.args@.len(), call.span),
            None => seq![undefined_function_v(call.name@, call.span)],
        };
        chain((st, head), sc_list(c, st, call.args@))
    }
}

pub open spec fn sc_new(c: ScCtx, st: VStack, inst: NewInstance) -> ScOut
    decreases inst,
{
    let head = if !type_known(c, inst.type_ident@) {
        seq![undefined_type_v(inst.type_ident@, inst.span)]
    } else {
        match find_class(c.0, inst.type_ident@) {
            Some(k) => arity_check(inst.type_ident@, k.params@.len(), inst.args@.len(), inst.span),
            None => Seq::empty(),
        }
    };
    chain((st, head), sc_list(c, st, inst.args@))
}

/// The semantic check of an expression from the scopes `st`.
pub open spec fn sc_expr(c: ScCtx, st: VStack, e: Expression) -> ScOut
    decreases e,
{
    match e {
        Expression::Atom(a) => sc_atom(c, st, *a),
        Expression::BinaryOp(b) => {
            let l = sc_expr(c, st, *b.left);
            chain(l, sc_expr(c, l.0, *b.right))
        },
        Expression::UnaryOp(u) => sc_expr(c, st, *u.expr),
        Expression::Let(l) => {
            let decls = sc_decls(c, st.push(Seq::empty()), l.decls@);
            close(chain(decls, sc_body(c, decls.0, l.body)))
        },
        Expression::If(i) => {
            let cond = sc_expr(c, st, i.condition);
            let th = chain(cond, sc_body(c, cond.0, i.then_body));
            let el = chain(th, sc_elifs(c, th.0, i.elif_branches@));
            match i.else_body {
                Some(eb) => chain(el, sc_body(c, el.0, eb)),
                None => el,
            }
        },
        Expression::While(w) => {
            let cond = sc_expr(c, st, w.condition);
            chain(cond, sc_body(c, cond.0, w.body))
        },
        Expression::For(f) => {
            let it = sc_expr(c, st, f.iterable);
            let bound = sc_define(it.0.push(Seq::empty()), f.var@, TypeV::Unknown, f.span);
            chain(it, close(sc_body(c, bound, f.body)))
        },
        Expression::IsType(x) => {
            let r = sc_expr(c, st, x.expr);
            (r.0, r.1 + sc_type(c, x.type_ident@, x.span))
        },
        Expression::AsType(x) => {
            let r = sc_expr(c, st, x.expr);
            (r.0, r.1 + sc_type(c, x.type_ident@, x.span))
        },
        Expression::Case(k) => {
            let r = sc_expr(c, st, k.expr);
            chain(r, sc_branches(c, r.0, k.branches@))
        },
        Expression::Assign(a) => {
            let t = match target_check(st, a.target, a.span) {
                Some(r) => r,
                None => sc_expr(c, st, a.target),
            };
            chain(t, sc_expr(c, t.0, a.value))
        },
        Expression::FunctionCall(call) => sc_call(c, st, *call),
        Expression::MemberAccess(m) => sc_expr(c, st, m.object),
        Expression::MethodCall(m) => {
            let o = sc_expr(c, st, m.object);
            chain(o, sc_list(c, o.0, m.args@))
        },
        Expression::IndexAccess(x) => {
            let o = sc_expr(c, st, x.object);
            chain(o, sc_expr(c, o.0, x.index))
        },
        Expression::NewInstance(inst) => sc_new(c, st, *inst),
        Expression::NewArray(a) => {
            let size = sc_expr(c, st, a.size);
            let r = chain(size, match a.init {
                Some(p) => sc_expr(c, size.0, p.1),
                None => (size.0, Seq::empty()),
            });
            (r.0, sc_ann(c, a.type_ident, a.span) + r.1)
        },
    }
}

// ── Declarations ──

/// The parameters of a function or method, in order: each annotation is
/// checked and the name bound in the innermost scope.
pub open spec fn sc_params(c: ScCtx, st: VStack, ps: Seq<Param>) -> ScOut
    decreases ps.len(),
{
    if ps.len() == 0 {
        (st, Seq::empty())
    } else {
        let pre = sc_params(c, st, ps.drop_last());
        let p = ps.last();
        (sc_define(pre.0, p.name@, ann_type(p.type_ann), p.span), pre.1 + sc_ann(c, p.type_ann, p.span))
    }
}

pub open spec fn sc_fn_body(c: ScCtx, st: VStack, b: Body) -> ScOut {
    match b {
        Body::Inline(e) => sc_expr(c, st, e),
        Body::Block(es) => sc_list(c, st, es@),
    }
}

/// A function: in a scope of its own, the parameters, the return
/// annotation and the body; the scope's unread bindings are reported.
pub open spec fn sc_function(c: ScCtx, st: VStack, f: FunctionDecl) -> ScOut {
    let ps = sc_params(c, st.push(Seq::empty()), f.params@);
    let head = (ps.0, ps.1 + sc_ann(c, f.return_type, f.span));
    close(chain(head, sc_fn_body(c, head.0, f.body)))
}

/// The type `self` has in a method of `class`.
pub open spec fn self_type(class: Option<Seq<char>>) -> TypeV {
    match class {
        Some(n) => TypeV::Class(n),
        None => TypeV::Error,
    }
}

/// A method: like a function, with `self` bound first, checked as the
/// body of method `name`.
pub open spec fn sc_method(c: ScCtx, st: VStack, m: Method) -> ScOut {
    let mc = (c.0, c.1, c.2, true, Some(m.name@));
    let bound = sc_define(st.push(Seq::empty()), "self"@, self_type(c.2), m.span);
    let ps = sc_params(mc, bound, m.params@);
    let head = (ps.0, ps.1 + sc_ann(mc, m.return_type, m.span));
    close(chain(head, sc_fn_body(mc, head.0, m.body)))
}

/// The effective constructor parameters of `class`.
pub open spec fn ctor_params(c: ScCtx, class: Seq<char>) -> Seq<(Seq<char>, TypeV)> {
    match find_class(c.0, class) {
        Some(k) => param_views(k.params@),
        None => Seq::empty(),
    }
}

/// An expression checked in a scope of its own that binds the effective
/// constructor parameters of `class` (unread ones are not reported).
pub open spec fn sc_in_ctor(c: ScCtx, st: VStack, class: Seq<char>, span: Span, e: Expression) -> ScOut {
    let r = sc_expr(c, sc_define_all(st.push(Seq::empty()), ctor_params(c, class), span), e);
    (r.0.drop_last(), r.1)
}

pub open spec fn sc_param_anns(c: ScCtx, ps: Seq<Param>) -> Seq<DiagV>
    decreases ps.len(),
{
    if ps.len() == 0 {
        Seq::empty()
    } else {
        sc_param_anns(c, ps.drop_last()) + sc_ann(c, ps.last().type_ann, ps.last().span)
    }
}

pub open spec fn sc_parent_args(c: ScCtx, st: VStack, class: Seq<char>, span: Span, args: Seq<Expression>) -> ScOut
    decreases args.len(),
{
    if args.len() == 0 {
        (st, Seq::empty())
    } else {
        let pre = sc_parent_args(c, st, class, span, args.drop_last());
        chain(pre, sc_in_ctor(c, pre.0, class, span, args.last()))
    }
}

/// The attributes: each annotation, then the initializer, checked as
/// method code in the constructor's scope.
pub open spec fn sc_attrs(c: ScCtx, st: VStack, class: Seq<char>, attrs: Seq<Attribute>) -> ScOut
    decreases attrs.len(),
{
    if attrs.len() == 0 {
        (st, Seq::empty())
    } else {
        let pre = sc_attrs(c, st, class, attrs.drop_last());
        let a = attrs.last();
        let r = sc_in_ctor((c.0, c.1, c.2, true, c.4), pre.0, class, a.span, a.init);
        (r.0, pre.1 + sc_ann(c, a.type_ann, a.span) + r.1)
    }
}

/// The report for a method of `class` whose signature differs from the
/// one it overrides.
pub open spec fn sc_override(c: ScCtx, class: Seq<char>, m: Method) -> Seq<DiagV> {
    let parent = spec_resolve_parent_method(c.0, class, m.name@);
    let current = declared_method(c.0, class, m.name@);
    if parent is Some && current is Some && !override_compatible(parent.unwrap().1, current.unwrap()) {
        seq![override_v(class, m.name@, m.span)]
    } else {
        Seq::empty()
    }
}

pub open spec fn sc_methods(c: ScCtx, st: VStack, class: Seq<char>, ms: Seq<Method>) -> ScOut
    decreases ms.len(),
{
    if ms.len() == 0 {
        (st, Seq::empty())
    } else {
        let pre = sc_methods(c, st, class, ms.drop_last());
        let r = sc_method(c, pre.0, ms.last());
        (r.0, pre.1 + sc_override(c, class, ms.last()) + r.1)
    }
}

/// The report for a call of the parent's constructor with the wrong
/// number of arguments.
pub open spec fn parent_arity(classes: Seq<ClassInfo>, k: ClassDecl) -> Seq<DiagV> {
    match k.parent {
        Some(pn) => match find_class(classes, pn@) {
            Some(pi) => arity_check(pn@, pi.params@.len(), k.parent_args@.len(), k.span),
            None => Seq::empty(),
        },
        None => Seq::empty(),
    }
}

/// A class: its parent and parameter annotations, the arity of the
/// parent's constructor call and its arguments, the attributes and the
/// methods.
pub open spec fn sc_class(classes: Seq<ClassInfo>, functions: Seq<FuncInfo>, st: VStack, k: ClassDecl) -> ScOut {
    let c = (classes, functions, Some(k.name@), false, None);
    let head = sc_ann(c, k.parent, k.span) + sc_param_anns(c, k.params@);
    let pa = if k.parent_args@.len() > 0 {
        chain((st, parent_arity(classes, k)), sc_parent_args(c, st, k.name@, k.span, k.parent_args@))
    } else {
        (st, Seq::empty())
    };
    let at = chain(pa, sc_attrs(c, pa.0, k.name@, k.attributes@));
    let ms = chain(at, sc_methods(c, at.0, k.name@, k.methods@));
    (ms.0, head + ms.1)
}

pub open spec fn sc_functions(c: ScCtx, st: VStack, fs: Seq<FunctionDecl>) -> ScOut
    decreases fs.len(),
{
    if fs.len() == 0 {
        (st, Seq::empty())
    } else {
        let pre = sc_functions(c, st, fs.drop_last());
        chain(pre, sc_function(c, pre.0, fs.last()))
    }
}

pub open spec fn sc_classes(classes: Seq<ClassInfo>, functions: Seq<FuncInfo>, st: VStack, ks: Seq<ClassDecl>) -> ScOut
    decreases ks.len(),
{
    if ks.len() == 0 {
        (st, Seq::empty())
    } else {
        let pre = sc_classes(classes, functions, st, ks.drop_last());
        chain(pre, sc_class(classes, functions, pre.0, ks.last()))
    }
}

/// The semantic check of a program over declarations `classes` and
/// `functions`, with `current` the class the table names at the start:
/// the functions, the classes, and the entry expression in a scope of its
/// own.
pub open spec fn sc_program(
    classes: Seq<ClassInfo>,
    functions: Seq<FuncInfo>,
    current: Option<Seq<char>>,
    st: VStack,
    p: Program,
) -> ScOut {
    let fns = sc_functions((classes, functions, current, false, None), st, p.functions@);
    let cls = chain(fns, sc_classes(classes, functions, fns.0, p.classes@));
    let now = if p.classes@.len() > 0 {
        None
    } else {
        current
    };
    match p.entry {
        Some(e) => chain(cls, close(sc_body((classes, functions, now, false, None), cls.0.push(Seq::empty()), e))),
        None => cls,
    }
}

// ───────────────────────── Scope discipline ─────────────────────────

/// Two bindings agree on name, type and span; if the first is used, so is
/// the second.
pub open spec fn same_binding(x: VarInfo, y: VarInfo) -> bool {
    &&& x.name == y.name
    &&& x.hulk_type == y.hulk_type
    &&& x.span == y.span
    &&& x.used ==> y.used
}

/// Two scope stacks hold the same bindings in the same places; a binding
/// used in the first is used in the second.
pub open spec fn bindings_kept(a: Seq<Seq<VarInfo>>, b: Seq<Seq<VarInfo>>) -> bool {
    &&& a.len() == b.len()
    &&& forall|i: int| 0 <= i < a.len() ==> (#[trigger] a[i]).len() == b[i].len()
    &&& forall|i: int, j: int| 0 <= i < a.len() && 0 <= j < a[i].len() ==> same_binding(
        #[trigger] a[i][j],
        b[i][j],
    )
}

pub proof fn lemma_kept_refl(a: Seq<Seq<VarInfo>>)
    ensures
        bindings_kept(a, a),
{
}

pub proof fn lemma_kept_trans(a: Seq<Seq<VarInfo>>, b: Seq<Seq<VarInfo>>, c: Seq<Seq<VarInfo>>)
    requires
        bindings_kept(a, b),
        bindings_kept(b, c),
    ensures
        bindings_kept(a, c),
{
    assert forall|i: int, j: int| 0 <= i < a.len() && 0 <= j < a[i].len() implies same_binding(
        #[trigger] a[i][j],
        c[i][j],
    ) by {
        assert(same_binding(a[i][j], b[i][j]));
        assert(b[i].len() == a[i].len());
        assert(same_binding(b[i][j], c[i][j]));
    }
}

pub proof fn lemma_kept_drop(a: Seq<Seq<VarInfo>>, b: Seq<Seq<VarInfo>>)
    requires
        bindings_kept(a, b),
        a.len() >= 1,
    ensures
        bindings_kept(a.drop_last(), b.drop_last()),
{
    assert forall|i: int| 0 <= i < a.drop_last().len() implies (#[trigger] a.drop_last()[i]).len()
        == b.drop_last()[i].len() by {
        assert(a[i].len() == b[i].len());
    }
    assert forall|i: int, j: int| 0 <= i < a.drop_last().len() && 0 <= j < a.drop_last()[i].len()
        implies same_binding(#[trigger] a.drop_last()[i][j], b.drop_last()[i][j]) by {
        assert(same_binding(a[i][j], b[i][j]));
    }
}

/// Marking a variable as used keeps every binding.
pub proof fn lemma_kept_mark(stack: Seq<Seq<VarInfo>>, name: Seq<char>)
    ensures
        bindings_kept(stack, spec_mark_used(stack, name)),
    decreases stack.len(),
{
    if stack.len() > 0 {
        super::symbol_table::lemma_find_name(var_names(stack.last()), name, 0);
        match find_name(var_names(stack.last()), name, 0) {
            Some(i) => {
                let r = spec_mark_used(stack, name);
                assert(var_names(stack.last()).len() == stack.last().len());
                assert forall|a: int, j: int| 0 <= a < stack.len() && 0 <= j < stack[a].len() implies same_binding(
                    #[trigger] stack[a][j],
                    r[a][j],
                ) by {
                    if a == stack.len() - 1 && j == i {
                        assert(r[a][j] == VarInfo { used: true, ..stack[a][j] });
                    }
                }
            },
            None => {
                lemma_kept_mark(stack.drop_last(), name);
                let r = spec_mark_used(stack, name);
                let inner = spec_mark_used(stack.drop_last(), name);
                assert(r == inner.push(stack.last()));
                assert forall|a: int| 0 <= a < stack.len() implies (#[trigger] stack[a]).len() == r[a].len() by {
                    if a < stack.len() - 1 {
                        assert(stack[a] == stack.drop_last()[a]);
                    }
                }
                assert forall|a: int, j: int| 0 <= a < stack.len() && 0 <= j < stack[a].len() implies same_binding(
                    #[trigger] stack[a][j],
                    r[a][j],
                ) by {
                    if a < stack.len() - 1 {
                        assert(stack[a] == stack.drop_last()[a]);
                        assert(same_binding(stack.drop_last()[a][j], inner[a][j]));
                    }
                }
            },
        }
    }
}

// ───────────────────────── Checker state ─────────────────────────

struct SemanticChecker {
    symbols: SymbolTable,
    errors: Vec<CompilerError>,
    /// Whether we are inside a class method (for `self` checks).
    in_method: bool,
    current_method: Option<String>,
}

/// `errs` begins with `before`.
pub open spec fn appended(errs: Seq<CompilerError>, before: Seq<CompilerError>) -> bool {
    &&& errs.len() >= before.len()
    &&& errs.subrange(0, before.len() as int) == before
}

proof fn lemma_appended_trans(a: Seq<CompilerError>, b: Seq<CompilerError>, c: Seq<CompilerError>)
    requires
        appended(b, a),
        appended(c, b),
    ensures
        appended(c, a),
{
    assert(c.subrange(0, a.len() as int) =~= b.subrange(0, a.len() as int));
}

impl SemanticChecker {
    /// `self` after checking a piece of code nested in what `old` was
    /// checking: declarations and context unchanged, the same bindings
    /// in scope, diagnostics only appended.
    spec fn walked(self, old: Self) -> bool {
        &&& self.symbols.functions == old.symbols.functions
        &&& self.symbols.classes == old.symbols.classes
        &&& self.symbols.current_class == old.symbols.current_class
        &&& bindings_kept(old.symbols.scope_stack(), self.symbols.scope_stack())
        &&& appended(self.errors@, old.errors@)
        &&& self.in_method == old.in_method
        &&& self.current_method == old.current_method
    }

    /// `self` inside one more scope than `base`.
    spec fn nested(self, base: Self) -> bool {
        &&& self.symbols.functions == base.symbols.functions
        &&& self.symbols.classes == base.symbols.classes
        &&& self.symbols.current_class == base.symbols.current_class
        &&& self.symbols.scope_stack().len() == base.symbols.scope_stack().len() + 1
        &&& bindings_kept(base.symbols.scope_stack(), self.symbols.scope_stack().drop_last())
        &&& appended(self.errors@, base.errors@)
        &&& self.in_method == base.in_method
        &&& self.current_method == base.current_method
    }

    /// What the checks read of `self` besides the scopes.
    spec fn sx(self) -> ScCtx {
        (self.symbols.classes@, self.symbols.functions@, name_of(self.symbols.current_class), self.in_method,
            name_of(self.current_method))
    }

    /// The scopes of `self`.
    spec fn ss(self) -> VStack {
        vstack(self.symbols.scope_stack())
    }

    /// `self` holds the scopes of `r`, and the diagnostics of `old` with
    /// those of `r` appended.
    spec fn reached(self, old: Self, r: ScOut) -> bool {
        &&& self.ss() == r.0
        &&& diags_view(self.errors@) == diags_view(old.errors@) + r.1
    }

    proof fn lemma_reached_refl(a: Self)
        ensures
            a.reached(a, (a.ss(), Seq::empty())),
    {
        assert(diags_view(a.errors@) =~= diags_view(a.errors@) + Seq::<DiagV>::empty());
    }

    proof fn lemma_reached_trans(a: Self, b: Self, c: Self, r1: ScOut, r2: ScOut)
        requires
            b.reached(a, r1),
            c.reached(b, r2),
        ensures
            c.reached(a, chain(r1, r2)),
    {
        assert(diags_view(a.errors@) + r1.1 + r2.1 =~= diags_view(a.errors@) + (r1.1 + r2.1));
    }

    proof fn lemma_walked_trans(a: Self, b: Self, c: Self)
        requires
            b.walked(a),
            c.walked(b),
        ensures
            c.walked(a),
    {
        lemma_kept_trans(a.symbols.scope_stack(), b.symbols.scope_stack(), c.symbols.scope_stack());
        lemma_appended_trans(a.errors@, b.errors@, c.errors@);
    }

    proof fn lemma_nested_walked(base: Self, b: Self, c: Self)
        requires
            b.nested(base),
            c.walked(b),
        ensures
            c.nested(base),
    {
        lemma_kept_drop(b.symbols.scope_stack(), c.symbols.scope_stack());
        lemma_kept_trans(base.symbols.scope_stack(), b.symbols.scope_stack().drop_last(),
            c.symbols.scope_stack().drop_last());
        lemma_appended_trans(base.errors@, b.errors@, c.errors@);
    }

    // ── Helpers ─────────────────────────────────────────────────

    fn push_error(&mut self, e: CompilerError)
        ensures
            final(self).errors@ == old(self).errors@.push(e),
            diags_view(final(self).errors@) == diags_view(old(self).errors@) + seq![diag_view(e)],
            final(self).symbols == old(self).symbols,
            final(self).in_method == old(self).in_method,
            final(self).current_method == old(self).current_method,
    {
        self.errors.push(e);
        assert(diags_view(self.errors@) =~= diags_view(old(self).errors@) + seq![diag_view(e)]);
    }

    /// Reports an undefined type unless `name` names a type.
    fn check_type_exists(&mut self, name: &str, span: Span)
        ensures
            final(self).walked(*old(self)),
            final(self).symbols == old(self).symbols,
            final(self).reached(*old(self), (old(self).ss(), sc_type(old(self).sx(), name@, span))),
    {
        if !self.symbols.type_exists(name) {
            self.push_error(CompilerError::undefined_type(name, span));
            assert(self.errors@.subrange(0, old(self).errors@.len() as int) =~= old(self).errors@);
        } else {
            assert(self.errors@.subrange(0, old(self).errors@.len() as int) =~= old(self).errors@);
            proof {
                Self::lemma_reached_refl(*self);
            }
        }
    }

    /// Warns about every variable of `vars` that was never used (but `self`).
    fn warn_unused(&mut self, vars: &Vec<VarInfo>)
        ensures
            final(self).walked(*old(self)),
            final(self).symbols == old(self).symbols,
            diags_view(final(self).errors@) == diags_view(old(self).errors@) + unused_diags(vscope(vars@)),
    {
        let ghost e0 = self.errors@;
        let mut i: usize = 0;
        assert(self.errors@.subrange(0, e0.len() as int) =~= e0);
        assert(vscope(vars@.subrange(0, 0)) =~= Seq::<VarV>::empty());
        assert(diags_view(e0) =~= diags_view(e0) + Seq::<DiagV>::empty());
        while i < vars.len()
            invariant
                i <= vars.len(),
                self.symbols == old(self).symbols,
                self.in_method == old(self).in_method,
                self.current_method == old(self).current_method,
                e0 == old(self).errors@,
                appended(self.errors@, e0),
                diags_view(self.errors@) == diags_view(e0) + unused_diags(vscope(vars@.subrange(0, i as int))),
            decreases vars.len() - i,
        {
            let v = &vars[i];
            let ghost before = self.errors@;
            let ghost pre = vscope(vars@.subrange(0, i as int));
            let ghost cur = vscope(vars@.subrange(0, i + 1));
            assert(cur.drop_last() =~= pre);
            assert(cur.last() == (v.name@, v.hulk_type@, v.span, v.used));
            if !v.used && !str_eq(v.name.as_str(), "self") {
                self.push_error(CompilerError::unused_variable(v.name.as_str(), v.span));
                assert(diags_view(self.errors@) =~= diags_view(e0) + unused_diags(cur));
            } else {
                assert(unused_diags(cur) =~= unused_diags(pre));
            }
            assert(self.errors@.subrange(0, e0.len() as int) =~= e0);
            i = i + 1;
        }
        assert(vars@.subrange(0, vars@.len() as int) =~= vars@);
    }
}

/// The name an optional name holds.
pub open spec fn name_of(o: Option<String>) -> Option<Seq<char>> {
    match o {
        Some(n) => Some(n@),
        None => None,
    }
}

impl SemanticChecker {
    proof fn lemma_walked_refl(a: Self)
        ensures
            a.walked(a),
    {
        assert(a.errors@.subrange(0, a.errors@.len() as int) =~= a.errors@);
    }

    /// Checks each expression of `es`, in order.
    fn check_exprs(&mut self, es: &Vec<Expression>)
        requires
            old(self).symbols.scope_stack().len() >= 1,
        ensures
            final(self).walked(*old(self)),
            final(self).reached(*old(self), sc_list(old(self).sx(), old(self).ss(), es@)),
        decreases es,
    {
        let ghost cx = self.sx();
        let ghost st0 = self.ss();
        proof {
            Self::lemma_walked_refl(*self);
            Self::lemma_reached_refl(*self);
            assert(es@.subrange(0, 0) =~= Seq::<Expression>::empty());
        }
        let mut i: usize = 0;
        while i < es.len()
            invariant
                i <= es.len(),
                cx == old(self).sx(),
                st0 == old(self).ss(),
                self.walked(*old(self)),
                self.reached(*old(self), sc_list(cx, st0, es@.subrange(0, i as int))),
                old(self).symbols.scope_stack().len() >= 1,
            decreases es.len() - i,
        {
            proof {
                assert(decreases_to!(es => es@[i as int]));
            }
            let ghost mid = *self;
            self.check_expression(&es[i]);
            proof {
                Self::lemma_walked_trans(*old(self), mid, *self);
                let sub = es@.subrange(0, i + 1);
                assert(sub.drop_last() =~= es@.subrange(0, i as int));
                assert(sub.last() == es@[i as int]);
                Self::lemma_reached_trans(*old(self), mid, *self, sc_list(cx, st0, es@.subrange(0, i as int)),
                    sc_expr(mid.sx(), mid.ss(), es@[i as int]));
            }
            i = i + 1;
        }
        assert(es@.subrange(0, es@.len() as int) =~= es@);
    }

    fn check_body(&mut self, body: &Body)
        requires
            old(self).symbols.scope_stack().len() >= 1,
        ensures
            final(self).walked(*old(self)),
            final(self).reached(*old(self), sc_fn_body(old(self).sx(), old(self).ss(), *body)),
    {
        match body {
            Body::Inline(expr) => self.check_expression(expr),
            Body::Block(exprs) => self.check_exprs(exprs),
        }
    }

    fn check_expr_body(&mut self, body: &ExprBody)
        requires
            old(self).symbols.scope_stack().len() >= 1,
        ensures
            final(self).walked(*old(self)),
            final(self).reached(*old(self), sc_body(old(self).sx(), old(self).ss(), *body)),
        decreases body,
    {
        match body {
            ExprBody::Single(expr) => self.check_expression(expr),
            ExprBody::Block(exprs) => {
                proof {
                    assert(decreases_to!(body => body->Block_0));
                }
                self.check_exprs(exprs)
            },
        }
    }

    /// Checks two expressions in turn.
    proof fn lemma_pair(a: Self, b: Self, c: Self, r1: ScOut, r2: ScOut)
        requires
            b.walked(a),
            c.walked(b),
            b.reached(a, r1),
            c.reached(b, r2),
        ensures
            c.walked(a),
            c.reached(a, chain(r1, r2)),
    {
        Self::lemma_walked_trans(a, b, c);
        Self::lemma_reached_trans(a, b, c, r1, r2);
    }

    fn check_expression(&mut self, expr: &Expression)
        requires
            old(self).symbols.scope_stack().len() >= 1,
        ensures
            final(self).walked(*old(self)),
            final(self).reached(*old(self), sc_expr(old(self).sx(), old(self).ss(), *expr)),
        decreases expr,
    {
        match expr {
            Expression::Atom(atom) => self.check_atom(atom),
            Expression::BinaryOp(binop) => {
                self.check_expression(&binop.left);
                let ghost mid = *self;
                self.check_expression(&binop.right);
                proof {
                    Self::lemma_pair(*old(self), mid, *self, sc_expr(old(self).sx(), old(self).ss(), *binop.left),
                        sc_expr(mid.sx(), mid.ss(), *binop.right));
                }
            },
            Expression::UnaryOp(unary) => self.check_expression(&unary.expr),
            Expression::Let(let_expr) => self.check_let(let_expr),
            Expression::If(if_expr) => self.check_if(if_expr),
            Expression::While(while_expr) => self.check_while(while_expr),
            Expression::For(for_expr) => self.check_for(for_expr),
            Expression::IsType(is_expr) => self.check_is(is_expr),
            Expression::AsType(as_expr) => self.check_as(as_expr),
            Expression::Case(case_expr) => self.check_case(case_expr),
            Expression::Assign(assign) => self.check_assign(assign),
            Expression::FunctionCall(call) => self.check_function_call(call),
            Expression::MemberAccess(access) => {
                // Member existence is checked during type checking.
                self.check_expression(&access.object)
            },
            Expression::MethodCall(call) => {
                // Method existence and arity are checked during type checking.
                self.check_expression(&call.object);
                let ghost mid = *self;
                proof {
                    assert(decreases_to!(expr => expr->MethodCall_0));
                }
                self.check_exprs(&call.args);
                proof {
                    Self::lemma_pair(*old(self), mid, *self, sc_expr(old(self).sx(), old(self).ss(), call.object),
                        sc_list(mid.sx(), mid.ss(), call.args@));
                }
            },
            Expression::IndexAccess(access) => {
                self.check_expression(&access.object);
                let ghost mid = *self;
                self.check_expression(&access.index);
                proof {
                    Self::lemma_pair(*old(self), mid, *self, sc_expr(old(self).sx(), old(self).ss(), access.object),
                        sc_expr(mid.sx(), mid.ss(), access.index));
                }
            },
            Expression::NewInstance(inst) => self.check_new_instance(inst),
            Expression::NewArray(arr) => self.check_new_array(arr),
        }
    }

    /// Checks a read of variable `name` at `span`.
    fn check_variable(&mut self, name: &str, span: Span)
        requires
            old(self).symbols.scope_stack().len() >= 1,
        ensures
            final(self).walked(*old(self)),
            final(self).reached(*old(self), sc_var(old(self).sx(), old(self).ss(), name@, span)),
    {
        proof {
            lemma_bound(self.symbols.scope_stack(), name@);
        }
        if str_eq(name, "self") {
            if !self.in_method {
                self.push_error(CompilerError::self_outside_class(span));
            } else {
                proof {
                    Self::lemma_reached_refl(*self);
                }
            }
            proof {
                Self::lemma_walked_refl(*old(self));
                assert(self.errors@.subrange(0, old(self).errors@.len() as int) =~= old(self).errors@);
            }
        } else if self.symbols.lookup_var(name).is_none() {
            self.push_error(CompilerError::undefined_variable(name, span));
            assert(self.errors@.subrange(0, old(self).errors@.len() as int) =~= old(self).errors@);
        } else {
            let ghost st = self.symbols.scope_stack();
            self.symbols.mark_var_used(name);
            proof {
                lemma_kept_mark(st, name@);
                lemma_mark(st, name@);
                Self::lemma_walked_refl(*old(self));
                assert(diags_view(self.errors@) =~= diags_view(old(self).errors@) + Seq::<DiagV>::empty());
            }
        }
    }

    fn check_atom(&mut self, atom: &Atom)
        requires
            old(self).symbols.scope_stack().len() >= 1,
        ensures
            final(self).walked(*old(self)),
            final(self).reached(*old(self), sc_atom(old(self).sx(), old(self).ss(), *atom)),
        decreases atom,
    {
        match atom {
            Atom::Variable(id) => self.check_variable(id.name.as_str(), id.position),
            Atom::Group(group) => self.check_expression(&group.expression),
            _ => {
                proof {
                    Self::lemma_walked_refl(*self);
                    Self::lemma_reached_refl(*self);
                }
            },
        }
    }
}

impl SemanticChecker {
    /// Opens a scope.
    fn open_scope(&mut self)
        ensures
            final(self).nested(*old(self)),
            final(self).reached(*old(self), (old(self).ss().push(Seq::empty()), Seq::empty())),
            final(self).symbols.scope_stack().len() == old(self).symbols.scope_stack().len() + 1,
            final(self).errors == old(self).errors,
    {
        self.symbols.push_scope();
        proof {
            lemma_vstack_shape(old(self).symbols.scope_stack());
            lemma_empty_scope();
            assert(self.symbols.scope_stack().drop_last() =~= old(self).symbols.scope_stack());
            assert(self.errors@.subrange(0, old(self).errors@.len() as int) =~= old(self).errors@);
            lemma_kept_refl(old(self).symbols.scope_stack());
            assert(diags_view(self.errors@) =~= diags_view(old(self).errors@) + Seq::<DiagV>::empty());
        }
    }

    /// Closes the innermost scope, warning about its unread bindings.
    fn close_scope(&mut self)
        requires
            old(self).symbols.scope_stack().len() >= 1,
        ensures
            final(self).symbols.scope_stack() == old(self).symbols.scope_stack().drop_last(),
            final(self).symbols.functions == old(self).symbols.functions,
            final(self).symbols.classes == old(self).symbols.classes,
            final(self).symbols.current_class == old(self).symbols.current_class,
            final(self).in_method == old(self).in_method,
            final(self).current_method == old(self).current_method,
            appended(final(self).errors@, old(self).errors@),
            final(self).reached(*old(self), close((old(self).ss(), Seq::empty()))),
    {
        let vars = self.symbols.pop_scope();
        proof {
            lemma_vstack_shape(old(self).symbols.scope_stack());
        }
        let ghost m = *self;
        self.warn_unused(&vars);
        proof {
            assert(unused_diags(vscope(vars@)) == unused_diags(old(self).ss().last()));
            assert(diags_view(self.errors@) =~= diags_view(old(self).errors@) + (Seq::<DiagV>::empty()
                + unused_diags(old(self).ss().last())));
            assert(m.errors@.subrange(0, old(self).errors@.len() as int) =~= old(self).errors@);
            lemma_appended_trans(old(self).errors@, m.errors@, self.errors@);
        }
    }

    /// Closing the scope that `opened` opened over `base`, from `body`.
    proof fn lemma_closed(base: Self, opened: Self, body: Self, fin: Self, r: ScOut)
        requires
            body.nested(base),
            opened.reached(base, (opened.ss(), Seq::empty())),
            body.reached(opened, r),
            fin.symbols.scope_stack() == body.symbols.scope_stack().drop_last(),
            fin.symbols.functions == body.symbols.functions,
            fin.symbols.classes == body.symbols.classes,
            fin.symbols.current_class == body.symbols.current_class,
            fin.in_method == body.in_method,
            fin.current_method == body.current_method,
            appended(fin.errors@, body.errors@),
            fin.reached(body, close((body.ss(), Seq::empty()))),
        ensures
            fin.walked(base),
            fin.reached(base, close(r)),
    {
        lemma_appended_trans(base.errors@, body.errors@, fin.errors@);
        assert(diags_view(fin.errors@) =~= diags_view(base.errors@) + (r.1 + unused_diags(r.0.last())));
    }

    /// One more step inside the scope opened over `base`.
    proof fn lemma_step(base: Self, opened: Self, b: Self, c: Self, r1: ScOut, r2: ScOut)
        requires
            b.nested(base),
            c.walked(b),
            b.reached(opened, r1),
            c.reached(b, r2),
        ensures
            c.nested(base),
            c.reached(opened, chain(r1, r2)),
    {
        Self::lemma_nested_walked(base, b, c);
        Self::lemma_reached_trans(opened, b, c, r1, r2);
    }

    fn check_let(&mut self, let_expr: &LetExpr)
        requires
            old(self).symbols.scope_stack().len() >= 1,
        ensures
            final(self).walked(*old(self)),
            final(self).reached(*old(self), sc_expr(old(self).sx(), old(self).ss(), Expression::Let(
                Box::new(*let_expr),
            ))),
        decreases let_expr,
    {
        let ghost cx = self.sx();
        // Each `let` opens a new scope.
        self.open_scope();
        let ghost opened = *self;
        let ghost p = self.ss();
        proof {
            Self::lemma_reached_refl(*self);
            assert(let_expr.decls@.subrange(0, 0) =~= Seq::<LetDecl>::empty());
        }
        let mut i: usize = 0;
        while i < let_expr.decls.len()
            invariant
                i <= let_expr.decls.len(),
                cx == old(self).sx(),
                p == opened.ss(),
                p == old(self).ss().push(Seq::empty()),
                opened.reached(*old(self), (opened.ss(), Seq::empty())),
                self.nested(*old(self)),
                self.reached(opened, sc_decls(cx, p, let_expr.decls@.subrange(0, i as int))),
            decreases let_expr.decls.len() - i,
        {
            let decl = &let_expr.decls[i];
            let ghost pre = sc_decls(cx, p, let_expr.decls@.subrange(0, i as int));
            let ghost m0 = *self;
            match &decl.type_ann {
                Some(ann) => self.check_type_exists(ann.as_str(), decl.span),
                None => {
                    proof {
                        Self::lemma_walked_refl(*self);
                        Self::lemma_reached_refl(*self);
                    }
                },
            }
            let ghost m1 = *self;
            let ghost ann = (m0.ss(), sc_ann(cx, decl.type_ann, decl.span));
            proof {
                Self::lemma_step(*old(self), opened, m0, m1, pre, ann);
                assert(decreases_to!(let_expr => let_expr.decls@[i as int].value));
            }
            // The initializer is checked before the variable is defined.
            self.check_expression(&decl.value);
            let ghost m2 = *self;
            let ghost init = sc_expr(cx, m1.ss(), decl.value);
            proof {
                Self::lemma_step(*old(self), opened, m1, m2, chain(pre, ann), init);
            }
            let t = match &decl.type_ann {
                Some(ann) => HulkType::from_name(ann.as_str()),
                None => HulkType::Unknown,
            };
            let fresh = self.symbols.define_var(decl.name.as_str(), t, decl.span);
            proof {
                lemma_define(m2.symbols.scope_stack(), self.symbols.scope_stack(), fresh, decl.name@, t@, decl.span);
            }
            let ghost m3 = *self;
            if !fresh {
                self.push_error(CompilerError::duplicate_definition("Variable", decl.name.as_str(), decl.span));
            }
            proof {
                assert(self.errors@.subrange(0, m3.errors@.len() as int) =~= m3.errors@);
                lemma_appended_trans(old(self).errors@, m3.errors@, self.errors@);
                let sub = let_expr.decls@.subrange(0, i + 1);
                assert(sub.drop_last() =~= let_expr.decls@.subrange(0, i as int));
                assert(sub.last() == *decl);
                let dup = if sc_fresh(init.0, decl.name@) {
                    Seq::<DiagV>::empty()
                } else {
                    seq![duplicate_var_v(decl.name@, decl.span)]
                };
                assert(diags_view(self.errors@) =~= diags_view(m2.errors@) + dup);
                assert(diags_view(self.errors@) =~= diags_view(opened.errors@) + (pre.1 + sc_ann(cx, decl.type_ann,
                    decl.span) + init.1 + dup));
                assert(self.reached(opened, sc_decls(cx, p, sub)));
            }
            i = i + 1;
        }
        assert(let_expr.decls@.subrange(0, let_expr.decls@.len() as int) =~= let_expr.decls@);
        let ghost decls = sc_decls(cx, p, let_expr.decls@);
        let ghost m4 = *self;
        self.check_expr_body(&let_expr.body);
        let ghost m5 = *self;
        proof {
            Self::lemma_step(*old(self), opened, m4, m5, decls, sc_body(cx, m4.ss(), let_expr.body));
        }
        self.close_scope();
        proof {
            Self::lemma_closed(*old(self), opened, m5, *self, chain(decls, sc_body(cx, decls.0, let_expr.body)));
        }
    }

    /// Opens a scope binding `name` (of type `t`, declared at `span`).
    fn open_bound(&mut self, name: &str, t: HulkType, span: Span)
        requires
            old(self).symbols.scope_stack().len() >= 1,
        ensures
            final(self).nested(*old(self)),
            final(self).reached(*old(self), (sc_define(old(self).ss().push(Seq::empty()), name@, t@, span),
                Seq::empty())),
    {
        let ghost tv = t@;
        self.open_scope();
        let ghost opened = *self;
        let fresh = self.symbols.define_var(name, t, span);
        proof {
            lemma_define(opened.symbols.scope_stack(), self.symbols.scope_stack(), fresh, name@, tv, span);
            assert(self.symbols.scope_stack().drop_last() == opened.symbols.scope_stack().drop_last());
        }
    }

    fn check_elifs(&mut self, bs: &Vec<CondBranch>)
        requires
            old(self).symbols.scope_stack().len() >= 1,
        ensures
            final(self).walked(*old(self)),
            final(self).reached(*old(self), sc_elifs(old(self).sx(), old(self).ss(), bs@)),
        decreases bs,
    {
        let ghost cx = self.sx();
        let ghost st0 = self.ss();
        proof {
            Self::lemma_walked_refl(*self);
            Self::lemma_reached_refl(*self);
            assert(bs@.subrange(0, 0) =~= Seq::<CondBranch>::empty());
        }
        let mut i: usize = 0;
        while i < bs.len()
            invariant
                i <= bs.len(),
                cx == old(self).sx(),
                st0 == old(self).ss(),
                self.walked(*old(self)),
                self.reached(*old(self), sc_elifs(cx, st0, bs@.subrange(0, i as int))),
                old(self).symbols.scope_stack().len() >= 1,
            decreases bs.len() - i,
        {
            let branch = &bs[i];
            proof {
                assert(decreases_to!(bs => bs@[i as int].condition));
                assert(decreases_to!(bs => bs@[i as int].body));
            }
            let ghost pre = sc_elifs(cx, st0, bs@.subrange(0, i as int));
            let ghost m0 = *self;
            self.check_expression(&branch.condition);
            let ghost m1 = *self;
            let ghost cond = sc_expr(cx, m0.ss(), branch.condition);
            proof {
                Self::lemma_pair(*old(self), m0, m1, pre, cond);
            }
            self.check_expr_body(&branch.body);
            proof {
                Self::lemma_pair(*old(self), m1, *self, chain(pre, cond), sc_body(cx, m1.ss(), branch.body));
                let sub = bs@.subrange(0, i + 1);
                assert(sub.drop_last() =~= bs@.subrange(0, i as int));
                assert(sub.last() == *branch);
            }
            i = i + 1;
        }
        assert(bs@.subrange(0, bs@.len() as int) =~= bs@);
    }

    fn check_if(&mut self, if_expr: &IfExpr)
        requires
            old(self).symbols.scope_stack().len() >= 1,
        ensures
            final(self).walked(*old(self)),
            final(self).reached(*old(self), sc_expr(old(self).sx(), old(self).ss(), Expression::If(
                Box::new(*if_expr),
            ))),
        decreases if_expr,
    {
        let ghost cx = self.sx();
        self.check_expression(&if_expr.condition);
        let ghost m0 = *self;
        let ghost cond = sc_expr(cx, old(self).ss(), if_expr.condition);
        self.check_expr_body(&if_expr.then_body);
        let ghost m1 = *self;
        let ghost th = chain(cond, sc_body(cx, m0.ss(), if_expr.then_body));
        proof {
            Self::lemma_pair(*old(self), m0, m1, cond, sc_body(cx, m0.ss(), if_expr.then_body));
            assert(decreases_to!(if_expr => if_expr.elif_branches));
        }
        self.check_elifs(&if_expr.elif_branches);
        let ghost m2 = *self;
        let ghost el = chain(th, sc_elifs(cx, m1.ss(), if_expr.elif_branches@));
        proof {
            Self::lemma_pair(*old(self), m1, m2, th, sc_elifs(cx, m1.ss(), if_expr.elif_branches@));
        }
        match &if_expr.else_body {
            Some(else_body) => {
                proof {
                    assert(decreases_to!(if_expr => if_expr.else_body->Some_0));
                }
                self.check_expr_body(else_body);
                proof {
                    Self::lemma_pair(*old(self), m2, *self, el, sc_body(cx, m2.ss(), *else_body));
                }
            },
            None => {},
        }
    }

    fn check_while(&mut self, while_expr: &WhileExpr)
        requires
            old(self).symbols.scope_stack().len() >= 1,
        ensures
            final(self).walked(*old(self)),
            final(self).reached(*old(self), sc_expr(old(self).sx(), old(self).ss(), Expression::While(
                Box::new(*while_expr),
            ))),
        decreases while_expr,
    {
        let ghost cx = self.sx();
        self.check_expression(&while_expr.condition);
        let ghost m0 = *self;
        self.check_expr_body(&while_expr.body);
        proof {
            Self::lemma_pair(*old(self), m0, *self, sc_expr(cx, old(self).ss(), while_expr.condition), sc_body(cx,
                m0.ss(), while_expr.body));
        }
    }

    fn check_for(&mut self, for_expr: &ForExpr)
        requires
            old(self).symbols.scope_stack().len() >= 1,
        ensures
            final(self).walked(*old(self)),
            final(self).reached(*old(self), sc_expr(old(self).sx(), old(self).ss(), Expression::For(
                Box::new(*for_expr),
            ))),
        decreases for_expr,
    {
        let ghost cx = self.sx();
        self.check_expression(&for_expr.iterable);
        let ghost base = *self;
        let ghost it = sc_expr(cx, old(self).ss(), for_expr.iterable);
        self.open_bound(for_expr.var.as_str(), HulkType::Unknown, for_expr.span);
        let ghost opened = *self;
        self.check_expr_body(&for_expr.body);
        let ghost m2 = *self;
        let ghost body = sc_body(cx, opened.ss(), for_expr.body);
        proof {
            Self::lemma_nested_walked(base, opened, m2);
        }
        self.close_scope();
        proof {
            Self::lemma_closed(base, opened, m2, *self, body);
            Self::lemma_pair(*old(self), base, *self, it, close(body));
        }
    }

    fn check_is(&mut self, is_expr: &IsExpr)
        requires
            old(self).symbols.scope_stack().len() >= 1,
        ensures
            final(self).walked(*old(self)),
            final(self).reached(*old(self), sc_expr(old(self).sx(), old(self).ss(), Expression::IsType(
                Box::new(*is_expr),
            ))),
        decreases is_expr,
    {
        let ghost cx = self.sx();
        self.check_expression(&is_expr.expr);
        let ghost m0 = *self;
        self.check_type_exists(is_expr.type_ident.as_str(), is_expr.span);
        proof {
            Self::lemma_pair(*old(self), m0, *self, sc_expr(cx, old(self).ss(), is_expr.expr), (m0.ss(), sc_type(cx,
                is_expr.type_ident@, is_expr.span)));
        }
    }

    fn check_as(&mut self, as_expr: &AsExpr)
        requires
            old(self).symbols.scope_stack().len() >= 1,
        ensures
            final(self).walked(*old(self)),
            final(self).reached(*old(self), sc_expr(old(self).sx(), old(self).ss(), Expression::AsType(
                Box::new(*as_expr),
            ))),
        decreases as_expr,
    {
        let ghost cx = self.sx();
        self.check_expression(&as_expr.expr);
        let ghost m0 = *self;
        self.check_type_exists(as_expr.type_ident.as_str(), as_expr.span);
        proof {
            Self::lemma_pair(*old(self), m0, *self, sc_expr(cx, old(self).ss(), as_expr.expr), (m0.ss(), sc_type(cx,
                as_expr.type_ident@, as_expr.span)));
        }
    }

    fn check_case(&mut self, case_expr: &CaseExpr)
        requires
            old(self).symbols.scope_stack().len() >= 1,
        ensures
            final(self).walked(*old(self)),
            final(self).reached(*old(self), sc_expr(old(self).sx(), old(self).ss(), Expression::Case(
                Box::new(*case_expr),
            ))),
        decreases case_expr,
    {
        let ghost cx = self.sx();
        self.check_expression(&case_expr.expr);
        let ghost start = *self;
        let ghost r = sc_expr(cx, old(self).ss(), case_expr.expr);
        proof {
            Self::lemma_walked_refl(*self);
            Self::lemma_reached_refl(*self);
            assert(case_expr.branches@.subrange(0, 0) =~= Seq::<CaseBranch>::empty());
        }
        let mut i: usize = 0;
        while i < case_expr.branches.len()
            invariant
                i <= case_expr.branches.len(),
                cx == old(self).sx(),
                start.walked(*old(self)),
                start.reached(*old(self), r),
                self.walked(start),
                self.reached(start, sc_branches(cx, start.ss(), case_expr.branches@.subrange(0, i as int))),
                old(self).symbols.scope_stack().len() >= 1,
            decreases case_expr.branches.len() - i,
        {
            let branch = &case_expr.branches[i];
            let ghost pre = sc_branches(cx, start.ss(), case_expr.branches@.subrange(0, i as int));
            let ghost k0 = *self;
            self.check_type_exists(branch.type_ident.as_str(), branch.span);
            let ghost k1 = *self;
            let ghost ty = sc_type(cx, branch.type_ident@, branch.span);
            // Each branch binds its variable in a scope of its own.
            let t = HulkType::from_name(branch.type_ident.as_str());
            self.open_bound(branch.name.as_str(), t, branch.span);
            let ghost opened = *self;
            proof {
                assert(decreases_to!(case_expr => case_expr.branches@[i as int].body));
            }
            self.check_expr_body(&branch.body);
            let ghost k3 = *self;
            let ghost body = sc_body(cx, opened.ss(), branch.body);
            proof {
                Self::lemma_nested_walked(k1, opened, k3);
            }
            self.close_scope();
            proof {
                Self::lemma_closed(k1, opened, k3, *self, body);
                Self::lemma_walked_trans(k0, k1, *self);
                Self::lemma_walked_trans(start, k0, *self);
                Self::lemma_reached_trans(k0, k1, *self, (k0.ss(), ty), close(body));
                Self::lemma_reached_trans(start, k0, *self, pre, chain((k0.ss(), ty), close(body)));
                let sub = case_expr.branches@.subrange(0, i + 1);
                assert(sub.drop_last() =~= case_expr.branches@.subrange(0, i as int));
                assert(sub.last() == *branch);
                assert(pre.1 + (ty + close(body).1) =~= pre.1 + ty + close(body).1);
            }
            i = i + 1;
        }
        assert(case_expr.branches@.subrange(0, case_expr.branches@.len() as int) =~= case_expr.branches@);
        proof {
            Self::lemma_pair(*old(self), start, *self, r, sc_branches(cx, start.ss(), case_expr.branches@));
        }
    }

    fn check_assign(&mut self, assign: &AssignExpr)
        requires
            old(self).symbols.scope_stack().len() >= 1,
        ensures
            final(self).walked(*old(self)),
            final(self).reached(*old(self), sc_expr(old(self).sx(), old(self).ss(), Expression::Assign(
                Box::new(*assign),
            ))),
        decreases assign,
    {
        let ghost cx = self.sx();
        let ghost tgt = match target_check(old(self).ss(), assign.target, assign.span) {
            Some(r) => r,
            None => sc_expr(cx, old(self).ss(), assign.target),
        };
        match &assign.target {
            Expression::Atom(atom) => match &**atom {
                Atom::Variable(id) => {
                    proof {
                        lemma_bound(self.symbols.scope_stack(), id.name@);
                    }
                    if self.symbols.lookup_var(id.name.as_str()).is_none() {
                        self.push_error(CompilerError::undefined_variable(id.name.as_str(), id.position));
                        assert(self.errors@.subrange(0, old(self).errors@.len() as int) =~= old(self).errors@);
                    } else {
                        let ghost st = self.symbols.scope_stack();
                        self.symbols.mark_var_used(id.name.as_str());
                        proof {
                            lemma_kept_mark(st, id.name@);
                            lemma_mark(st, id.name@);
                            Self::lemma_walked_refl(*old(self));
                            assert(diags_view(self.errors@) =~= diags_view(old(self).errors@) + Seq::<DiagV>::empty());
                        }
                    }
                },
                _ => {
                    self.push_error(CompilerError::invalid_assign_target(assign.span));
                    assert(self.errors@.subrange(0, old(self).errors@.len() as int) =~= old(self).errors@);
                },
            },
            Expression::MemberAccess(_) | Expression::IndexAccess(_) => {
                // Valid targets: check their parts.
                self.check_expression(&assign.target);
            },
            _ => {
                self.push_error(CompilerError::invalid_assign_target(assign.span));
                assert(self.errors@.subrange(0, old(self).errors@.len() as int) =~= old(self).errors@);
            },
        }
        let ghost m0 = *self;
        self.check_expression(&assign.value);
        proof {
            Self::lemma_pair(*old(self), m0, *self, tgt, sc_expr(cx, m0.ss(), assign.value));
        }
    }

    fn check_function_call(&mut self, call: &FunctionCall)
        requires
            old(self).symbols.scope_stack().len() >= 1,
        ensures
            final(self).walked(*old(self)),
            final(self).reached(*old(self), sc_call(old(self).sx(), old(self).ss(), *call)),
        decreases call,
    {
        let ghost cx = self.sx();
        if str_eq(call.name.as_str(), "base") {
            let check_args = self.check_base_call(call.span, call.args.len());
            if check_args {
                let ghost m = *self;
                self.check_exprs(&call.args);
                proof {
                    Self::lemma_pair(*old(self), m, *self, (old(self).ss(), base_check(cx, call.args@.len(),
                        call.span).0), sc_list(cx, m.ss(), call.args@));
                }
            }
            return;
        }
        match self.symbols.get_function(call.name.as_str()) {
            Some(func_info) => {
                let expected = func_info.params.len();
                let got = call.args.len();
                if expected != got {
                    self.push_error(CompilerError::wrong_arity(call.name.as_str(), expected, got, call.span));
                } else {
                    proof {
                        Self::lemma_reached_refl(*self);
                    }
                }
            },
            None => {
                self.push_error(CompilerError::undefined_function(call.name.as_str(), call.span));
            },
        }
        assert(self.errors@.subrange(0, old(self).errors@.len() as int) =~= old(self).errors@);
        let ghost m0 = *self;
        let ghost head = match find_func(cx.1, call.name@) {
            Some(f) => arity_check(call.name@, f.params@.len(), call.args@.len(), call.span),
            None => seq![undefined_function_v(call.name@, call.span)],
        };
        proof {
            Self::lemma_walked_refl(*old(self));
            assert(m0.reached(*old(self), (old(self).ss(), head)));
        }
        self.check_exprs(&call.args);
        proof {
            Self::lemma_pair(*old(self), m0, *self, (old(self).ss(), head), sc_list(cx, m0.ss(), call.args@));
        }
    }

    /// Checks a call `base(...)` with `nargs` arguments at `span`: it must
    /// stand in a method that overrides one of an ancestor, with that
    /// method's arity.  Returns whether the arguments are to be checked.
    fn check_base_call(&mut self, span: Span, nargs: usize) -> (check_args: bool)
        requires
            old(self).symbols.scope_stack().len() >= 1,
        ensures
            final(self).walked(*old(self)),
            final(self).reached(*old(self), (old(self).ss(), base_check(old(self).sx(), nargs as nat, span).0)),
            check_args == base_check(old(self).sx(), nargs as nat, span).1,
    {
        if !self.in_method {
            self.push_error(CompilerError::base_outside_method(span));
            assert(self.errors@.subrange(0, old(self).errors@.len() as int) =~= old(self).errors@);
            return true;
        }
        let class_name: String = match &self.symbols.current_class {
            Some(name) => name.clone(),
            None => {
                self.push_error(CompilerError::base_outside_method(span));
                assert(self.errors@.subrange(0, old(self).errors@.len() as int) =~= old(self).errors@);
                return false;
            },
        };
        let method_name: String = match &self.current_method {
            Some(m) => m.clone(),
            None => String::new(),
        };
        proof {
            assert(method_name@ == match name_of(self.current_method) {
                Some(m) => m,
                None => Seq::<char>::empty(),
            });
        }
        match self.symbols.resolve_parent_method(class_name.as_str(), method_name.as_str()) {
            Some((_owner, method_info)) => {
                let expected = method_info.params.len();
                if expected != nargs {
                    self.push_error(CompilerError::wrong_arity("base", expected, nargs, span));
                } else {
                    proof {
                        Self::lemma_reached_refl(*self);
                    }
                }
            },
            None => {
                self.push_error(CompilerError::undefined_base_method(class_name.as_str(), method_name.as_str(),
                    span));
            },
        }
        assert(self.errors@.subrange(0, old(self).errors@.len() as int) =~= old(self).errors@);
        true
    }

    fn check_new_instance(&mut self, inst: &NewInstance)
        requires
            old(self).symbols.scope_stack().len() >= 1,
        ensures
            final(self).walked(*old(self)),
            final(self).reached(*old(self), sc_new(old(self).sx(), old(self).ss(), *inst)),
        decreases inst,
    {
        let ghost cx = self.sx();
        if !self.symbols.type_exists(inst.type_ident.as_str()) {
            self.push_error(CompilerError::undefined_type(inst.type_ident.as_str(), inst.span));
        } else {
            match self.symbols.get_class(inst.type_ident.as_str()) {
                Some(class) => {
                    let expected = class.params.len();
                    let got = inst.args.len();
                    if expected != got {
                        self.push_error(CompilerError::wrong_arity(inst.type_ident.as_str(), expected, got,
                            inst.span));
                    } else {
                        proof {
                            Self::lemma_reached_refl(*self);
                        }
                    }
                },
                None => {
                    proof {
                        Self::lemma_reached_refl(*self);
                    }
                },
            }
        }
        assert(self.errors@.subrange(0, old(self).errors@.len() as int) =~= old(self).errors@);
        let ghost m0 = *self;
        let ghost head = if !type_known(cx, inst.type_ident@) {
            seq![undefined_type_v(inst.type_ident@, inst.span)]
        } else {
            match find_class(cx.0, inst.type_ident@) {
                Some(k) => arity_check(inst.type_ident@, k.params@.len(), inst.args@.len(), inst.span),
                None => Seq::empty(),
            }
        };
        proof {
            Self::lemma_walked_refl(*old(self));
            assert(m0.reached(*old(self), (old(self).ss(), head)));
        }
        self.check_exprs(&inst.args);
        proof {
            Self::lemma_pair(*old(self), m0, *self, (old(self).ss(), head), sc_list(cx, m0.ss(), inst.args@));
        }
    }

    fn check_new_array(&mut self, arr: &NewArray)
        requires
            old(self).symbols.scope_stack().len() >= 1,
        ensures
            final(self).walked(*old(self)),
            final(self).reached(*old(self), sc_expr(old(self).sx(), old(self).ss(), Expression::NewArray(
                Box::new(*arr),
            ))),
        decreases arr,
    {
        let ghost cx = self.sx();
        match &arr.type_ident {
            Some(elem_type) => self.check_type_exists(elem_type.as_str(), arr.span),
            None => {
                proof {
                    Self::lemma_walked_refl(*self);
                    Self::lemma_reached_refl(*self);
                }
            },
        }
        let ghost m0 = *self;
        let ghost ann = (old(self).ss(), sc_ann(cx, arr.type_ident, arr.span));
        self.check_expression(&arr.size);
        let ghost m1 = *self;
        let ghost size = sc_expr(cx, m0.ss(), arr.size);
        proof {
            Self::lemma_pair(*old(self), m0, m1, ann, size);
        }
        match &arr.init {
            Some((_var, init)) => {
                proof {
                    assert(decreases_to!(arr => arr.init->Some_0));
                    assert(decreases_to!(arr => (arr.init->Some_0).1));
                }
                self.check_expression(init);
                proof {
                    Self::lemma_pair(*old(self), m1, *self, chain(ann, size), sc_expr(cx, m1.ss(), *init));
                    assert(ann.1 + size.1 + sc_expr(cx, m1.ss(), *init).1 =~= ann.1 + (size.1 + sc_expr(cx, m1.ss(),
                        *init).1));
                }
            },
            None => {
                proof {
                    assert(ann.1 + size.1 =~= ann.1 + (size.1 + Seq::<DiagV>::empty()));
                }
            },
        }
    }
}

/// Whether an overriding method keeps the parameter types and the return
/// type of the method it overrides.
pub open spec fn override_compatible(parent: FuncInfo, current: FuncInfo) -> bool {
    &&& parent.params@.len() == current.params@.len()
    &&& forall|i: int| 0 <= i < parent.params@.len() ==> (#[trigger] parent.params@[i]).1@ == current.params@[i].1@
    &&& parent.return_type@ == current.return_type@
}

/// The method `name` as class `class` declares it.
pub open spec fn declared_method(classes: Seq<ClassInfo>, class: Seq<char>, name: Seq<char>) -> Option<FuncInfo> {
    match find_class(classes, class) {
        Some(c) => find_func(c.methods@, name),
        None => None,
    }
}

fn same_param_types(a: &Vec<(String, HulkType)>, b: &Vec<(String, HulkType)>) -> (r: bool)
    ensures
        r == (a@.len() == b@.len() && forall|i: int| 0 <= i < a@.len() ==> (#[trigger] a@[i]).1@ == b@[i].1@),
{
    if a.len() != b.len() {
        return false;
    }
    let mut i: usize = 0;
    while i < a.len()
        invariant
            i <= a.len(),
            a.len() == b.len(),
            forall|k: int| 0 <= k < i ==> (#[trigger] a@[k]).1@ == b@[k].1@,
        decreases a.len() - i,
    {
        if !a[i].1.same_as(&b[i].1) {
            return false;
        }
        i = i + 1;
    }
    true
}

impl SemanticChecker {
    /// Declarations and class context unchanged, bindings kept,
    /// diagnostics only appended (the method context may change).
    spec fn settled(self, old: Self) -> bool {
        &&& self.symbols.functions == old.symbols.functions
        &&& self.symbols.classes == old.symbols.classes
        &&& self.symbols.current_class == old.symbols.current_class
        &&& bindings_kept(old.symbols.scope_stack(), self.symbols.scope_stack())
        &&& appended(self.errors@, old.errors@)
    }

    /// Reports an override whose signature differs from the overridden one.
    fn check_override_signature(&mut self, class: &ClassDecl, method: &Method)
        ensures
            final(self).walked(*old(self)),
            final(self).symbols == old(self).symbols,
            final(self).reached(*old(self), (old(self).ss(), sc_override(old(self).sx(), class.name@, *method))),
    {
        let parent = self.symbols.resolve_parent_method(class.name.as_str(), method.name.as_str());
        let mismatch = match &parent {
            Some((_, p)) => match self.symbols.get_class(class.name.as_str()) {
                Some(info) => match info.get_method(method.name.as_str()) {
                    Some(current) => {
                        !(same_param_types(&p.params, &current.params) && p.return_type.same_as(&current.return_type))
                    },
                    None => false,
                },
                None => false,
            },
            None => false,
        };
        if mismatch {
            self.push_error(CompilerError::invalid_override_signature(class.name.as_str(), method.name.as_str(),
                method.span));
        } else {
            proof {
                Self::lemma_reached_refl(*self);
            }
        }
        assert(self.errors@.subrange(0, old(self).errors@.len() as int) =~= old(self).errors@);
    }

    /// Binds the effective constructor parameters of `class_name` in the
    /// innermost scope.
    fn define_effective_constructor_params(&mut self, class_name: &str, span: Span)
        requires
            old(self).symbols.scope_stack().len() >= 1,
        ensures
            final(self).symbols.functions == old(self).symbols.functions,
            final(self).symbols.classes == old(self).symbols.classes,
            final(self).symbols.current_class == old(self).symbols.current_class,
            final(self).symbols.scope_stack().len() == old(self).symbols.scope_stack().len(),
            final(self).symbols.scope_stack().drop_last() == old(self).symbols.scope_stack().drop_last(),
            final(self).errors == old(self).errors,
            final(self).in_method == old(self).in_method,
            final(self).current_method == old(self).current_method,
            final(self).ss() == sc_define_all(old(self).ss(), ctor_params(old(self).sx(), class_name@), span),
    {
        match self.symbols.get_class(class_name) {
            Some(info) => {
                let params = super::symbol_table::copy_params(&info.params);
                let ghost ps = params@;
                let ghost pv = param_views(ps);
                assert(pv.subrange(0, 0) =~= Seq::<(Seq<char>, TypeV)>::empty());
                let mut i: usize = 0;
                while i < params.len()
                    invariant
                        i <= params.len(),
                        ps == params@,
                        old(self).symbols.scope_stack().len() >= 1,
                        self.symbols.functions == old(self).symbols.functions,
                        self.symbols.classes == old(self).symbols.classes,
                        self.symbols.current_class == old(self).symbols.current_class,
                        self.symbols.scope_stack().len() == old(self).symbols.scope_stack().len(),
                        self.symbols.scope_stack().drop_last() == old(self).symbols.scope_stack().drop_last(),
                        self.errors == old(self).errors,
                        self.in_method == old(self).in_method,
                        self.current_method == old(self).current_method,
                        pv == param_views(ps),
                        ps == find_class(old(self).symbols.classes@, class_name@).unwrap().params@,
                        self.ss() == sc_define_all(old(self).ss(), pv.subrange(0, i as int), span),
                    decreases params.len() - i,
                {
                    let (name, ty) = &params[i];
                    let ghost before = self.symbols.scope_stack();
                    let t = ty.duplicate();
                    let defined = self.symbols.define_var(name.as_str(), t, span);
                    proof {
                        lemma_define(before, self.symbols.scope_stack(), defined, name@, t@, span);
                        let sub = pv.subrange(0, i + 1);
                        assert(sub.drop_last() =~= pv.subrange(0, i as int));
                        assert(sub.last() == (name@, t@));
                    }
                    i = i + 1;
                }
                assert(pv.subrange(0, pv.len() as int) =~= pv);
            },
            None => {},
        }
    }

    fn define_params(&mut self, params: &Vec<crate::ast::Param>)
        requires
            old(self).symbols.scope_stack().len() >= 1,
        ensures
            final(self).symbols.functions == old(self).symbols.functions,
            final(self).symbols.classes == old(self).symbols.classes,
            final(self).symbols.current_class == old(self).symbols.current_class,
            final(self).symbols.scope_stack().len() == old(self).symbols.scope_stack().len(),
            final(self).symbols.scope_stack().drop_last() == old(self).symbols.scope_stack().drop_last(),
            appended(final(self).errors@, old(self).errors@),
            final(self).in_method == old(self).in_method,
            final(self).current_method == old(self).current_method,
            final(self).reached(*old(self), sc_params(old(self).sx(), old(self).ss(), params@)),
    {
        let ghost cx = self.sx();
        let ghost st0 = self.ss();
        assert(self.errors@.subrange(0, self.errors@.len() as int) =~= self.errors@);
        assert(params@.subrange(0, 0) =~= Seq::<Param>::empty());
        proof {
            Self::lemma_reached_refl(*self);
        }
        let mut i: usize = 0;
        while i < params.len()
            invariant
                i <= params.len(),
                old(self).symbols.scope_stack().len() >= 1,
                self.symbols.functions == old(self).symbols.functions,
                self.symbols.classes == old(self).symbols.classes,
                self.symbols.current_class == old(self).symbols.current_class,
                self.symbols.scope_stack().len() == old(self).symbols.scope_stack().len(),
                self.symbols.scope_stack().drop_last() == old(self).symbols.scope_stack().drop_last(),
                appended(self.errors@, old(self).errors@),
                self.in_method == old(self).in_method,
                self.current_method == old(self).current_method,
                cx == old(self).sx(),
                st0 == old(self).ss(),
                self.reached(*old(self), sc_params(cx, st0, params@.subrange(0, i as int))),
            decreases params.len() - i,
        {
            let p = &params[i];
            let ghost pre = sc_params(cx, st0, params@.subrange(0, i as int));
            let ghost m0 = *self;
            let t = match &p.type_ann {
                Some(ann) => {
                    let ghost m = self.errors@;
                    self.check_type_exists(ann.as_str(), p.span);
                    proof {
                        lemma_appended_trans(old(self).errors@, m, self.errors@);
                    }
                    HulkType::from_name(ann.as_str())
                },
                None => {
                    proof {
                        Self::lemma_reached_refl(*self);
                    }
                    HulkType::Unknown
                },
            };
            let ghost m1 = *self;
            proof {
                Self::lemma_reached_trans(*old(self), m0, m1, pre, (m0.ss(), sc_ann(cx, p.type_ann, p.span)));
            }
            let fresh = self.symbols.define_var(p.name.as_str(), t, p.span);
            proof {
                lemma_define(m1.symbols.scope_stack(), self.symbols.scope_stack(), fresh, p.name@, t@, p.span);
                let sub = params@.subrange(0, i + 1);
                assert(sub.drop_last() =~= params@.subrange(0, i as int));
                assert(sub.last() == *p);
            }
            i = i + 1;
        }
        assert(params@.subrange(0, params@.len() as int) =~= params@);
    }

    fn check_function(&mut self, func: &FunctionDecl)
        requires
            old(self).symbols.scope_stack().len() >= 1,
        ensures
            final(self).walked(*old(self)),
            final(self).reached(*old(self), sc_function(old(self).sx(), old(self).ss(), *func)),
    {
        let ghost cx = self.sx();
        self.open_scope();
        let ghost opened = *self;
        self.define_params(&func.params);
        let ghost m0 = *self;
        let ghost ps = sc_params(cx, opened.ss(), func.params@);
        proof {
            lemma_appended_trans(old(self).errors@, opened.errors@, m0.errors@);
            assert(m0.nested(*old(self)));
        }
        match &func.return_type {
            Some(ret) => self.check_type_exists(ret.as_str(), func.span),
            None => {
                proof {
                    Self::lemma_walked_refl(*self);
                    Self::lemma_reached_refl(*self);
                }
            },
        }
        let ghost m1 = *self;
        let ghost head = (ps.0, ps.1 + sc_ann(cx, func.return_type, func.span));
        proof {
            Self::lemma_step(*old(self), opened, m0, m1, ps, (m0.ss(), sc_ann(cx, func.return_type, func.span)));
        }
        self.check_body(&func.body);
        let ghost m2 = *self;
        proof {
            Self::lemma_step(*old(self), opened, m1, m2, head, sc_fn_body(cx, m1.ss(), func.body));
        }
        self.close_scope();
        proof {
            Self::lemma_closed(*old(self), opened, m2, *self, chain(head, sc_fn_body(cx, head.0, func.body)));
        }
    }

    fn check_method(&mut self, method: &Method)
        requires
            old(self).symbols.scope_stack().len() >= 1,
        ensures
            final(self).settled(*old(self)),
            !final(self).in_method,
            final(self).current_method is None,
            final(self).reached(*old(self), sc_method(old(self).sx(), old(self).ss(), *method)),
    {
        let ghost cx = self.sx();
        self.in_method = true;
        self.current_method = Some(method.name.clone());
        let ghost start = *self;
        let ghost mc = start.sx();
        proof {
            assert(mc == (cx.0, cx.1, cx.2, true, Some(method.name@)));
            Self::lemma_reached_refl(start);
        }
        // `self` is bound to the current class.
        let self_ty = match &self.symbols.current_class {
            Some(name) => HulkType::Class(name.clone()),
            None => HulkType::Error,
        };
        proof {
            assert(self_ty@ == self_type(cx.2));
        }
        self.open_bound("self", self_ty, method.span);
        let ghost opened = *self;
        self.define_params(&method.params);
        let ghost m0 = *self;
        let ghost ps = sc_params(mc, opened.ss(), method.params@);
        proof {
            lemma_appended_trans(start.errors@, opened.errors@, m0.errors@);
            assert(m0.symbols.scope_stack().drop_last() == opened.symbols.scope_stack().drop_last());
            assert(m0.nested(start));
        }
        match &method.return_type {
            Some(ret) => self.check_type_exists(ret.as_str(), method.span),
            None => {
                proof {
                    Self::lemma_walked_refl(*self);
                    Self::lemma_reached_refl(*self);
                }
            },
        }
        let ghost m1 = *self;
        let ghost head = (ps.0, ps.1 + sc_ann(mc, method.return_type, method.span));
        proof {
            Self::lemma_step(start, opened, m0, m1, ps, (m0.ss(), sc_ann(mc, method.return_type, method.span)));
        }
        self.check_body(&method.body);
        let ghost m2 = *self;
        proof {
            Self::lemma_step(start, opened, m1, m2, head, sc_fn_body(mc, m1.ss(), method.body));
        }
        self.close_scope();
        proof {
            Self::lemma_closed(start, opened, m2, *self, chain(head, sc_fn_body(mc, head.0, method.body)));
        }
        self.in_method = false;
        self.current_method = None;
    }
}

impl SemanticChecker {
    proof fn lemma_settled_trans(a: Self, b: Self, c: Self)
        requires
            b.settled(a),
            c.settled(b),
        ensures
            c.settled(a),
    {
        lemma_kept_trans(a.symbols.scope_stack(), b.symbols.scope_stack(), c.symbols.scope_stack());
        lemma_appended_trans(a.errors@, b.errors@, c.errors@);
    }

    /// Checks an expression in a scope of its own that binds the effective
    /// constructor parameters of `class_name` (without warning about
    /// those left unused).
    fn check_in_constructor_scope(&mut self, class_name: &str, span: Span, expr: &Expression)
        requires
            old(self).symbols.scope_stack().len() >= 1,
        ensures
            final(self).walked(*old(self)),
            final(self).reached(*old(self), sc_in_ctor(old(self).sx(), old(self).ss(), class_name@, span, *expr)),
    {
        let ghost cx = self.sx();
        self.open_scope();
        let ghost opened = *self;
        self.define_effective_constructor_params(class_name, span);
        let ghost m0 = *self;
        proof {
            assert(m0.nested(*old(self)));
        }
        self.check_expression(expr);
        let ghost m1 = *self;
        proof {
            Self::lemma_nested_walked(*old(self), m0, m1);
        }
        let _ = self.symbols.pop_scope();
        proof {
            lemma_vstack_shape(m1.symbols.scope_stack());
            assert(diags_view(self.errors@) == diags_view(old(self).errors@) + sc_expr(cx, m0.ss(), *expr).1);
        }
    }

    fn check_class(&mut self, class: &ClassDecl)
        requires
            old(self).symbols.scope_stack().len() >= 1,
            !old(self).in_method,
            old(self).current_method is None,
        ensures
            final(self).symbols.functions == old(self).symbols.functions,
            final(self).symbols.classes == old(self).symbols.classes,
            bindings_kept(old(self).symbols.scope_stack(), final(self).symbols.scope_stack()),
            appended(final(self).errors@, old(self).errors@),
            final(self).symbols.current_class is None,
            !final(self).in_method,
            final(self).current_method is None,
            final(self).reached(*old(self), sc_class(old(self).symbols.classes@, old(self).symbols.functions@,
                old(self).ss(), *class)),
    {
        let ghost classes = self.symbols.classes@;
        let ghost functions = self.symbols.functions@;
        self.symbols.current_class = Some(class.name.clone());
        let ghost start = *self;
        let ghost c = start.sx();
        proof {
            assert(c == (classes, functions, Some(class.name@), false, None::<Seq<char>>));
            Self::lemma_walked_refl(start);
        }
        match &class.parent {
            Some(parent) => self.check_type_exists(parent.as_str(), class.span),
            None => {
                proof {
                    Self::lemma_reached_refl(*self);
                }
            },
        }
        proof {
            Self::lemma_walked_trans(start, start, *self);
            assert(class.params@.subrange(0, 0) =~= Seq::<Param>::empty());
            assert(sc_ann(c, class.parent, class.span) =~= sc_ann(c, class.parent, class.span) + sc_param_anns(c,
                class.params@.subrange(0, 0)));
        }
        let mut i: usize = 0;
        while i < class.params.len()
            invariant
                i <= class.params.len(),
                self.walked(start),
                start.symbols.scope_stack().len() >= 1,
                c == start.sx(),
                c == (classes, functions, Some(class.name@), false, None::<Seq<char>>),
                self.reached(start, (start.ss(), sc_ann(c, class.parent, class.span) + sc_param_anns(c,
                    class.params@.subrange(0, i as int)))),
            decreases class.params.len() - i,
        {
            let ghost m = *self;
            let ghost prev = sc_ann(c, class.parent, class.span) + sc_param_anns(c, class.params@.subrange(0, i as int));
            match &class.params[i].type_ann {
                Some(ann) => {
                    self.check_type_exists(ann.as_str(), class.params[i].span);
                    proof {
                        Self::lemma_walked_trans(start, m, *self);
                    }
                },
                None => {
                    proof {
                        Self::lemma_reached_refl(*self);
                    }
                },
            }
            proof {
                let pa = class.params@[i as int];
                Self::lemma_reached_trans(start, m, *self, (start.ss(), prev), (m.ss(), sc_ann(c, pa.type_ann,
                    pa.span)));
                let sub = class.params@.subrange(0, i + 1);
                assert(sub.drop_last() =~= class.params@.subrange(0, i as int));
                assert(sub.last() == pa);
                assert(prev + sc_ann(c, pa.type_ann, pa.span) =~= sc_ann(c, class.parent, class.span)
                    + sc_param_anns(c, sub));
            }
            i = i + 1;
        }
        assert(class.params@.subrange(0, class.params@.len() as int) =~= class.params@);
        let ghost after_head = *self;
        let ghost head = sc_ann(c, class.parent, class.span) + sc_param_anns(c, class.params@);
        // The call of the parent's constructor.
        let ghost pa_out: ScOut;
        if class.parent_args.len() > 0 {
            match &class.parent {
                Some(parent_name) => match self.symbols.get_class(parent_name.as_str()) {
                    Some(parent_info) => {
                        let expected = parent_info.params.len();
                        let got = class.parent_args.len();
                        if expected != got {
                            let ghost m = *self;
                            self.push_error(CompilerError::wrong_arity(parent_name.as_str(), expected, got,
                                class.span));
                            proof {
                                assert(self.errors@.subrange(0, m.errors@.len() as int) =~= m.errors@);
                                Self::lemma_walked_trans(start, m, *self);
                            }
                        } else {
                            proof {
                                Self::lemma_reached_refl(*self);
                            }
                        }
                    },
                    None => {
                        proof {
                            Self::lemma_reached_refl(*self);
                        }
                    },
                },
                None => {
                    proof {
                        Self::lemma_reached_refl(*self);
                    }
                },
            }
            let ghost m_ar = *self;
            let ghost arity = parent_arity(classes, *class);
            proof {
                assert(m_ar.reached(after_head, (after_head.ss(), arity)));
                Self::lemma_reached_refl(m_ar);
                assert(class.parent_args@.subrange(0, 0) =~= Seq::<Expression>::empty());
            }
            let mut j: usize = 0;
            while j < class.parent_args.len()
                invariant
                    j <= class.parent_args.len(),
                    self.walked(start),
                    m_ar.walked(start),
                    start.symbols.scope_stack().len() >= 1,
                    c == start.sx(),
                c == (classes, functions, Some(class.name@), false, None::<Seq<char>>),
                    self.reached(m_ar, sc_parent_args(c, m_ar.ss(), class.name@, class.span,
                        class.parent_args@.subrange(0, j as int))),
                decreases class.parent_args.len() - j,
            {
                let ghost m = *self;
                let ghost pre = sc_parent_args(c, m_ar.ss(), class.name@, class.span, class.parent_args@.subrange(0,
                    j as int));
                self.check_in_constructor_scope(class.name.as_str(), class.span, &class.parent_args[j]);
                proof {
                    Self::lemma_walked_trans(start, m, *self);
                    Self::lemma_reached_trans(m_ar, m, *self, pre, sc_in_ctor(c, m.ss(), class.name@, class.span,
                        class.parent_args@[j as int]));
                    let sub = class.parent_args@.subrange(0, j + 1);
                    assert(sub.drop_last() =~= class.parent_args@.subrange(0, j as int));
                    assert(sub.last() == class.parent_args@[j as int]);
                }
                j = j + 1;
            }
            assert(class.parent_args@.subrange(0, class.parent_args@.len() as int) =~= class.parent_args@);
            proof {
                pa_out = chain((after_head.ss(), arity), sc_parent_args(c, after_head.ss(), class.name@, class.span,
                    class.parent_args@));
                Self::lemma_reached_trans(after_head, m_ar, *self, (after_head.ss(), arity), sc_parent_args(c,
                    m_ar.ss(), class.name@, class.span, class.parent_args@));
            }
        } else {
            proof {
                pa_out = (after_head.ss(), Seq::empty());
                Self::lemma_reached_refl(*self);
            }
        }
        let ghost after_pa = *self;
        proof {
            assert(after_pa.reached(after_head, pa_out));
            assert(after_pa.settled(start));
            Self::lemma_reached_refl(after_pa);
            assert(class.attributes@.subrange(0, 0) =~= Seq::<Attribute>::empty());
        }
        // Attribute initializers run in the constructor's scope.
        let mut k: usize = 0;
        while k < class.attributes.len()
            invariant
                k <= class.attributes.len(),
                self.settled(start),
                !self.in_method,
                self.current_method is None,
                start.symbols.scope_stack().len() >= 1,
                c == start.sx(),
                c == (classes, functions, Some(class.name@), false, None::<Seq<char>>),
                after_pa.settled(start),
                self.reached(after_pa, sc_attrs(c, after_pa.ss(), class.name@, class.attributes@.subrange(0,
                    k as int))),
            decreases class.attributes.len() - k,
        {
            let attr = &class.attributes[k];
            let ghost pre = sc_attrs(c, after_pa.ss(), class.name@, class.attributes@.subrange(0, k as int));
            let ghost m = *self;
            match &attr.type_ann {
                Some(ann) => self.check_type_exists(ann.as_str(), attr.span),
                None => {
                    proof {
                        Self::lemma_walked_refl(*self);
                        Self::lemma_reached_refl(*self);
                    }
                },
            }
            let ghost a = *self;
            self.in_method = true;
            let ghost m1 = *self;
            self.check_in_constructor_scope(class.name.as_str(), attr.span, &attr.init);
            let ghost b = *self;
            self.in_method = false;
            proof {
                lemma_kept_trans(m.symbols.scope_stack(), a.symbols.scope_stack(), b.symbols.scope_stack());
                lemma_appended_trans(m.errors@, a.errors@, b.errors@);
                assert(self.settled(m));
                Self::lemma_settled_trans(start, m, *self);
                let ac = (c.0, c.1, c.2, true, c.4);
                assert(m1.sx() == ac);
                let r = sc_in_ctor(ac, a.ss(), class.name@, attr.span, attr.init);
                assert(b.reached(a, r));
                Self::lemma_reached_trans(m, a, *self, (m.ss(), sc_ann(c, attr.type_ann, attr.span)), r);
                Self::lemma_reached_trans(after_pa, m, *self, pre, chain((m.ss(), sc_ann(c, attr.type_ann, attr.span)),
                    r));
                let sub = class.attributes@.subrange(0, k + 1);
                assert(sub.drop_last() =~= class.attributes@.subrange(0, k as int));
                assert(sub.last() == *attr);
                assert(pre.1 + (sc_ann(c, attr.type_ann, attr.span) + r.1) =~= pre.1 + sc_ann(c, attr.type_ann,
                    attr.span) + r.1);
            }
            k = k + 1;
        }
        assert(class.attributes@.subrange(0, class.attributes@.len() as int) =~= class.attributes@);
        let ghost after_at = *self;
        proof {
            Self::lemma_reached_refl(after_at);
            assert(class.methods@.subrange(0, 0) =~= Seq::<Method>::empty());
        }
        let mut q: usize = 0;
        while q < class.methods.len()
            invariant
                q <= class.methods.len(),
                self.settled(start),
                !self.in_method,
                self.current_method is None,
                start.symbols.scope_stack().len() >= 1,
                c == start.sx(),
                c == (classes, functions, Some(class.name@), false, None::<Seq<char>>),
                self.reached(after_at, sc_methods(c, after_at.ss(), class.name@, class.methods@.subrange(0,
                    q as int))),
            decreases class.methods.len() - q,
        {
            let method = &class.methods[q];
            let ghost pre = sc_methods(c, after_at.ss(), class.name@, class.methods@.subrange(0, q as int));
            let ghost m = *self;
            self.check_override_signature(class, method);
            let ghost m1 = *self;
            self.check_method(method);
            proof {
                Self::lemma_settled_trans(m, m1, *self);
                Self::lemma_settled_trans(start, m, *self);
                let ov = sc_override(c, class.name@, *method);
                let r = sc_method(c, m1.ss(), *method);
                Self::lemma_reached_trans(m, m1, *self, (m.ss(), ov), r);
                Self::lemma_reached_trans(after_at, m, *self, pre, chain((m.ss(), ov), r));
                let sub = class.methods@.subrange(0, q + 1);
                assert(sub.drop_last() =~= class.methods@.subrange(0, q as int));
                assert(sub.last() == *method);
                assert(pre.1 + (ov + r.1) =~= pre.1 + ov + r.1);
            }
            q = q + 1;
        }
        assert(class.methods@.subrange(0, class.methods@.len() as int) =~= class.methods@);
        proof {
            let at = sc_attrs(c, after_pa.ss(), class.name@, class.attributes@);
            let ms = sc_methods(c, after_at.ss(), class.name@, class.methods@);
            Self::lemma_reached_trans(start, after_head, after_pa, (start.ss(), head), pa_out);
            Self::lemma_reached_trans(start, after_pa, after_at, chain((start.ss(), head), pa_out), at);
            Self::lemma_reached_trans(start, after_at, *self, chain(chain((start.ss(), head), pa_out), at), ms);
            assert(head + pa_out.1 + at.1 + ms.1 =~= head + (pa_out.1 + at.1 + ms.1));
        }
        self.symbols.current_class = None;
    }
}

/// Runs the semantic analysis of bodies over a program whose declarations
/// are collected in `symbols`, and returns the diagnostics: those of the
/// checking model, in order.  The declarations stay as they are, and so do
/// the bindings in scope (but for their use marks).  A table without any
/// scope is checked from one empty scope, which is closed again after.
pub fn check_semantics(program: &Program, symbols: &mut SymbolTable) -> (errors: Vec<CompilerError>)
    ensures
        final(symbols).functions == old(symbols).functions,
        final(symbols).classes == old(symbols).classes,
        program.classes@.len() > 0 ==> final(symbols).current_class is None,
        program.classes@.len() == 0 ==> final(symbols).current_class == old(symbols).current_class,
        old(symbols).scope_stack().len() >= 1 ==> bindings_kept(old(symbols).scope_stack(), final(symbols).scope_stack())
            && diags_view(errors@) == sc_program(old(symbols).classes@, old(symbols).functions@, name_of(
            old(symbols).current_class), vstack(old(symbols).scope_stack()), *program).1 && vstack(
            final(symbols).scope_stack(),
        ) == sc_program(old(symbols).classes@, old(symbols).functions@, name_of(old(symbols).current_class), vstack(
            old(symbols).scope_stack(),
        ), *program).0,
        old(symbols).scope_stack().len() == 0 ==> final(symbols).scope_stack().len() == 0 && diags_view(errors@)
            == sc_program(old(symbols).classes@, old(symbols).functions@, name_of(old(symbols).current_class), vstack(
            seq![Seq::<VarInfo>::empty()],
        ), *program).1,
{
    if symbols.scopes.len() == 0 {
        proof {
            assert(old(symbols).scope_stack().len() == 0);
        }
        symbols.push_scope();
        assert(symbols.scope_stack() =~= seq![Seq::<VarInfo>::empty()]);
        let errors = check_semantics_in_scope(program, symbols);
        symbols.pop_scope();
        errors
    } else {
        check_semantics_in_scope(program, symbols)
    }
}

/// `check_semantics` on a table with at least one scope.
fn check_semantics_in_scope(program: &Program, symbols: &mut SymbolTable) -> (errors: Vec<CompilerError>)
    requires
        old(symbols).scope_stack().len() >= 1,
    ensures
        final(symbols).functions == old(symbols).functions,
        final(symbols).classes == old(symbols).classes,
        bindings_kept(old(symbols).scope_stack(), final(symbols).scope_stack()),
        program.classes@.len() > 0 ==> final(symbols).current_class is None,
        program.classes@.len() == 0 ==> final(symbols).current_class == old(symbols).current_class,
        diags_view(errors@) == sc_program(old(symbols).classes@, old(symbols).functions@, name_of(
            old(symbols).current_class), vstack(old(symbols).scope_stack()), *program).1,
        vstack(final(symbols).scope_stack()) == sc_program(old(symbols).classes@, old(symbols).functions@, name_of(
            old(symbols).current_class), vstack(old(symbols).scope_stack()), *program).0,
{
    let mut table = SymbolTable { functions: Vec::new(), classes: Vec::new(), scopes: Vec::new(), current_class: None };
    std::mem::swap(&mut table, symbols);
    assert(table == *old(symbols));
    let mut checker = SemanticChecker { symbols: table, errors: Vec::new(), in_method: false, current_method: None };
    let ghost start = checker;
    let ghost classes = start.symbols.classes@;
    let ghost functions = start.symbols.functions@;
    let ghost c = start.sx();
    proof {
        SemanticChecker::lemma_walked_refl(start);
        SemanticChecker::lemma_reached_refl(start);
        assert(program.functions@.subrange(0, 0) =~= Seq::<FunctionDecl>::empty());
    }
    // Function bodies.
    let mut i: usize = 0;
    while i < program.functions.len()
        invariant
            i <= program.functions.len(),
            checker.walked(start),
            start.symbols.scope_stack().len() >= 1,
            c == start.sx(),
            !start.in_method,
            start.current_method is None,
            checker.reached(start, sc_functions(c, start.ss(), program.functions@.subrange(0, i as int))),
        decreases program.functions.len() - i,
    {
        let ghost m = checker;
        let ghost pre = sc_functions(c, start.ss(), program.functions@.subrange(0, i as int));
        checker.check_function(&program.functions[i]);
        proof {
            SemanticChecker::lemma_walked_trans(start, m, checker);
            SemanticChecker::lemma_reached_trans(start, m, checker, pre, sc_function(c, m.ss(),
                program.functions@[i as int]));
            let sub = program.functions@.subrange(0, i + 1);
            assert(sub.drop_last() =~= program.functions@.subrange(0, i as int));
            assert(sub.last() == program.functions@[i as int]);
        }
        i = i + 1;
    }
    assert(program.functions@.subrange(0, program.functions@.len() as int) =~= program.functions@);
    let ghost after_fns = checker;
    let ghost fns = sc_functions(c, start.ss(), program.functions@);
    proof {
        SemanticChecker::lemma_reached_refl(after_fns);
        assert(program.classes@.subrange(0, 0) =~= Seq::<ClassDecl>::empty());
    }
    // Class attributes and method bodies.
    let mut k: usize = 0;
    while k < program.classes.len()
        invariant
            checker.symbols.functions == start.symbols.functions,
            checker.symbols.classes == start.symbols.classes,
            bindings_kept(start.symbols.scope_stack(), checker.symbols.scope_stack()),
            appended(checker.errors@, start.errors@),
            k <= program.classes.len(),
            k > 0 ==> checker.symbols.current_class is None,
            k == 0 ==> checker.symbols.current_class == start.symbols.current_class,
            start.symbols.scope_stack().len() >= 1,
            !checker.in_method,
            checker.current_method is None,
            classes == start.symbols.classes@,
            functions == start.symbols.functions@,
            checker.reached(after_fns, sc_classes(classes, functions, after_fns.ss(), program.classes@.subrange(0,
                k as int))),
        decreases program.classes.len() - k,
    {
        let ghost m = checker;
        let ghost pre = sc_classes(classes, functions, after_fns.ss(), program.classes@.subrange(0, k as int));
        checker.check_class(&program.classes[k]);
        proof {
            lemma_kept_trans(start.symbols.scope_stack(), m.symbols.scope_stack(), checker.symbols.scope_stack());
            lemma_appended_trans(start.errors@, m.errors@, checker.errors@);
            SemanticChecker::lemma_reached_trans(after_fns, m, checker, pre, sc_class(classes, functions, m.ss(),
                program.classes@[k as int]));
            let sub = program.classes@.subrange(0, k + 1);
            assert(sub.drop_last() =~= program.classes@.subrange(0, k as int));
            assert(sub.last() == program.classes@[k as int]);
        }
        k = k + 1;
    }
    assert(program.classes@.subrange(0, program.classes@.len() as int) =~= program.classes@);
    let ghost cls_out = sc_classes(classes, functions, after_fns.ss(), program.classes@);
    let ghost after_cls = checker;
    proof {
        SemanticChecker::lemma_reached_trans(start, after_fns, after_cls, fns, cls_out);
    }
    // The entry expression.
    match &program.entry {
        Some(entry) => {
            let ghost m = checker;
            checker.open_scope();
            let ghost opened = checker;
            checker.check_expr_body(entry);
            let ghost m1 = checker;
            let ghost body = sc_body(m.sx(), opened.ss(), *entry);
            proof {
                SemanticChecker::lemma_nested_walked(m, opened, m1);
            }
            checker.close_scope();
            proof {
                SemanticChecker::lemma_closed(m, opened, m1, checker, body);
                lemma_kept_trans(start.symbols.scope_stack(), m.symbols.scope_stack(), checker.symbols.scope_stack());
                lemma_appended_trans(start.errors@, m.errors@, checker.errors@);
                SemanticChecker::lemma_reached_trans(start, m, checker, chain(fns, cls_out), close(body));
            }
        },
        None => {},
    }
    proof {
        assert(diags_view(start.errors@) =~= Seq::<DiagV>::empty());
    }
    let ghost fin = checker.symbols;
    std::mem::swap(&mut checker.symbols, symbols);
    assert(*symbols == fin);
    let errors = checker.errors;
    proof {
        let r = sc_program(classes, functions, name_of(old(symbols).current_class), vstack(old(symbols).scope_stack()),
            *program);
        assert(diags_view(errors@) =~= r.1);
    }
    errors
}

} // verus!

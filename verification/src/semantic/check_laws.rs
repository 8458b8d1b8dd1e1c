//! What the semantic check of an expression promises whatever the
//! expression: it closes every scope it opens, it keeps every binding
//! around it, and it reports a variable as undefined only when no scope
//! around the expression binds it.

use vstd::prelude::*;
use crate::ast::{Atom, CaseBranch, CondBranch, ExprBody, Expression, FunctionCall, LetDecl, NewInstance};
use crate::tokens::Span;
use super::errors::DiagV;
use super::scopes::{VStack, VarV, vnames, sc_bound, sc_mark, sc_define};
use super::semantic_checker::{
    ScCtx, ScOut, undefined_var_v, unused_diags, sc_type, sc_ann, sc_var, chain, close, arity_check, sc_atom,
    sc_list, sc_body, sc_decls, sc_elifs, sc_branches, target_check, base_check, sc_call, sc_new, sc_expr,
};
use super::symbol_table::{find_name, lemma_find_name};
use super::type_checker::arity_v;
use super::semantic_checker::undefined_function_v;
use super::types::TypeV;

verus! {

/// Every scope of `a` is still in `b`, at the same place, and binds at
/// least the names it bound.
pub open spec fn names_kept(a: VStack, b: VStack) -> bool {
    &&& a.len() <= b.len()
    &&& forall|i: int, n: Seq<char>|
        0 <= i < a.len() && #[trigger] find_name(vnames(a[i]), n, 0) is Some ==> find_name(
            vnames(b[i]),
            n,
            0,
        ) is Some
}

/// Each "undefined variable" report in `ds` names a variable that no
/// scope of `st` binds.
pub open spec fn reports_unbound(st: VStack, ds: Seq<DiagV>) -> bool {
    forall|i: int|
        0 <= i < ds.len() && (#[trigger] ds[i]).0 == "E100"@ ==> exists|n: Seq<char>, sp: Span|
            ds[i] == #[trigger] undefined_var_v(n, sp) && !sc_bound(st, n)
}

/// No report of `ds` is an "undefined variable" one.
pub open spec fn no_unbound_reports(ds: Seq<DiagV>) -> bool {
    forall|i: int| 0 <= i < ds.len() ==> (#[trigger] ds[i]).0 != "E100"@
}

/// A check from `st` that leaves as many scopes as it found, keeps their
/// bindings, and reports as undefined only variables unbound in `st`.
pub open spec fn sound_from(st: VStack, out: ScOut) -> bool {
    &&& out.0.len() == st.len()
    &&& names_kept(st, out.0)
    &&& reports_unbound(st, out.1)
}

proof fn lemma_codes()
    ensures
        "E101"@ != "E100"@,
        "E102"@ != "E100"@,
        "E103"@ != "E100"@,
        "E104"@ != "E100"@,
        "E105"@ != "E100"@,
        "E106"@ != "E100"@,
        "E111"@ != "E100"@,
        "E112"@ != "E100"@,
        "W001"@ != "E100"@,
{
    reveal_strlit("E100");
    reveal_strlit("E101");
    reveal_strlit("E102");
    reveal_strlit("E103");
    reveal_strlit("E104");
    reveal_strlit("E105");
    reveal_strlit("E106");
    reveal_strlit("E111");
    reveal_strlit("E112");
    reveal_strlit("W001");
    assert("E101"@[3] != "E100"@[3]);
    assert("E102"@[3] != "E100"@[3]);
    assert("E103"@[3] != "E100"@[3]);
    assert("E104"@[3] != "E100"@[3]);
    assert("E105"@[3] != "E100"@[3]);
    assert("E106"@[3] != "E100"@[3]);
    assert("E111"@[2] != "E100"@[2]);
    assert("E112"@[2] != "E100"@[2]);
    assert("W001"@[0] != "E100"@[0]);
}

proof fn lemma_bound_at(st: VStack, n: Seq<char>)
    ensures
        sc_bound(st, n) <==> exists|i: int| 0 <= i < st.len() && #[trigger] find_name(vnames(st[i]), n, 0) is Some,
    decreases st.len(),
{
    if st.len() > 0 {
        lemma_bound_at(st.drop_last(), n);
        if sc_bound(st.drop_last(), n) {
            let i = choose|i: int| 0 <= i < st.drop_last().len() && #[trigger] find_name(vnames(st.drop_last()[i]), n, 0) is Some;
            assert(st[i] == st.drop_last()[i]);
        }
        if exists|i: int| 0 <= i < st.len() && #[trigger] find_name(vnames(st[i]), n, 0) is Some {
            let i = choose|i: int| 0 <= i < st.len() && #[trigger] find_name(vnames(st[i]), n, 0) is Some;
            if i < st.len() - 1 {
                assert(st.drop_last()[i] == st[i]);
            }
        }
    }
}

proof fn lemma_kept_bound(a: VStack, b: VStack, n: Seq<char>)
    requires
        names_kept(a, b),
        sc_bound(a, n),
    ensures
        sc_bound(b, n),
{
    lemma_bound_at(a, n);
    lemma_bound_at(b, n);
    let i = choose|i: int| 0 <= i < a.len() && #[trigger] find_name(vnames(a[i]), n, 0) is Some;
    assert(find_name(vnames(b[i]), n, 0) is Some);
}

proof fn lemma_kept_trans(a: VStack, b: VStack, c: VStack)
    requires
        names_kept(a, b),
        names_kept(b, c),
    ensures
        names_kept(a, c),
{
}

proof fn lemma_kept_push(st: VStack, x: Seq<VarV>)
    ensures
        names_kept(st, st.push(x)),
{
    assert forall|i: int, n: Seq<char>|
        0 <= i < st.len() && #[trigger] find_name(vnames(st[i]), n, 0) is Some implies find_name(
            vnames(st.push(x)[i]),
            n,
            0,
        ) is Some by {
        assert(st.push(x)[i] == st[i]);
    }
}

proof fn lemma_kept_pop(st: VStack, x: Seq<VarV>, r: VStack)
    requires
        names_kept(st.push(x), r),
        r.len() == st.len() + 1,
    ensures
        names_kept(st, r.drop_last()),
{
    assert forall|i: int, n: Seq<char>|
        0 <= i < st.len() && #[trigger] find_name(vnames(st[i]), n, 0) is Some implies find_name(
            vnames(r.drop_last()[i]),
            n,
            0,
        ) is Some by {
        assert(st.push(x)[i] == st[i]);
        assert(r.drop_last()[i] == r[i]);
    }
}

proof fn lemma_mark_kept(st: VStack, m: Seq<char>)
    ensures
        sc_mark(st, m).len() == st.len(),
        forall|i: int| 0 <= i < st.len() ==> vnames(#[trigger] sc_mark(st, m)[i]) == vnames(st[i]),
        names_kept(st, sc_mark(st, m)),
    decreases st.len(),
{
    if st.len() > 0 {
        match find_name(vnames(st.last()), m, 0) {
            Some(k) => {
                lemma_find_name(vnames(st.last()), m, 0);
                let v = st.last()[k];
                let t = st.last().update(k, (v.0, v.1, v.2, true));
                assert(vnames(t) =~= vnames(st.last()));
                let r = st.update(st.len() - 1, t);
                assert forall|i: int| 0 <= i < st.len() implies vnames(#[trigger] r[i]) == vnames(st[i]) by {
                    if i == st.len() - 1 {
                        assert(r[i] == t);
                    }
                }
            },
            None => {
                lemma_mark_kept(st.drop_last(), m);
                let r = sc_mark(st.drop_last(), m).push(st.last());
                assert forall|i: int| 0 <= i < st.len() implies vnames(#[trigger] r[i]) == vnames(st[i]) by {
                    if i < st.len() - 1 {
                        assert(r[i] == sc_mark(st.drop_last(), m)[i]);
                        assert(st[i] == st.drop_last()[i]);
                    }
                }
            },
        }
    }
    let r = sc_mark(st, m);
    assert forall|i: int, n: Seq<char>|
        0 <= i < st.len() && #[trigger] find_name(vnames(st[i]), n, 0) is Some implies find_name(
            vnames(r[i]),
            n,
            0,
        ) is Some by {
        assert(vnames(r[i]) == vnames(st[i]));
    }
}

proof fn lemma_define_kept(st: VStack, n: Seq<char>, t: TypeV, sp: Span)
    requires
        st.len() >= 1,
    ensures
        sc_define(st, n, t, sp).len() == st.len(),
        names_kept(st, sc_define(st, n, t, sp)),
{
    let r = sc_define(st, n, t, sp);
    if r != st {
        let last = st.last().push((n, t, sp, false));
        assert(r == st.update(st.len() - 1, last));
        assert(vnames(last) =~= vnames(st.last()).push(n));
        assert forall|i: int, x: Seq<char>|
            0 <= i < st.len() && #[trigger] find_name(vnames(st[i]), x, 0) is Some implies find_name(
                vnames(r[i]),
                x,
                0,
            ) is Some by {
            if i == st.len() - 1 {
                lemma_find_name(vnames(st[i]), x, 0);
                let k = find_name(vnames(st[i]), x, 0).unwrap();
                lemma_find_name(vnames(r[i]), x, 0);
                assert(vnames(r[i])[k] == x);
            }
        }
    }
}

proof fn lemma_reports_concat(st: VStack, a: Seq<DiagV>, b: Seq<DiagV>)
    requires
        reports_unbound(st, a),
        reports_unbound(st, b),
    ensures
        reports_unbound(st, a + b),
{
    assert forall|i: int| 0 <= i < (a + b).len() && (#[trigger] (a + b)[i]).0 == "E100"@ implies exists|
        n: Seq<char>,
        sp: Span,
    | (a + b)[i] == #[trigger] undefined_var_v(n, sp) && !sc_bound(st, n) by {
        if i < a.len() {
            assert((a + b)[i] == a[i]);
        } else {
            assert((a + b)[i] == b[i - a.len()]);
        }
    }
}

proof fn lemma_reports_weaken(st: VStack, st2: VStack, ds: Seq<DiagV>)
    requires
        names_kept(st, st2),
        reports_unbound(st2, ds),
    ensures
        reports_unbound(st, ds),
{
    assert forall|i: int| 0 <= i < ds.len() && (#[trigger] ds[i]).0 == "E100"@ implies exists|
        n: Seq<char>,
        sp: Span,
    | ds[i] == #[trigger] undefined_var_v(n, sp) && !sc_bound(st, n) by {
        let (n, sp) = choose|n: Seq<char>, sp: Span| ds[i] == #[trigger] undefined_var_v(n, sp) && !sc_bound(st2, n);
        if sc_bound(st, n) {
            lemma_kept_bound(st, st2, n);
        }
    }
}

proof fn lemma_no_reports(st: VStack, ds: Seq<DiagV>)
    requires
        no_unbound_reports(ds),
    ensures
        reports_unbound(st, ds),
{
}

proof fn lemma_unused_clean(sc: Seq<VarV>)
    ensures
        no_unbound_reports(unused_diags(sc)),
    decreases sc.len(),
{
    lemma_codes();
    if sc.len() > 0 {
        lemma_unused_clean(sc.drop_last());
        let a = unused_diags(sc.drop_last());
        let v = sc.last();
        let b: Seq<DiagV> = if !v.3 && v.0 != "self"@ {
            seq![super::semantic_checker::unused_v(v.0, v.2)]
        } else {
            Seq::empty()
        };
        assert(unused_diags(sc) == a + b);
        assert forall|i: int| 0 <= i < (a + b).len() implies (#[trigger] (a + b)[i]).0 != "E100"@ by {
            if i < a.len() {
                assert((a + b)[i] == a[i]);
            } else {
                assert((a + b)[i] == b[i - a.len()]);
            }
        }
    }
}

proof fn lemma_heads_clean(c: ScCtx, n: Seq<char>, ann: Option<String>, sp: Span, name: Seq<char>, e: nat, g: nat)
    ensures
        no_unbound_reports(sc_type(c, n, sp)),
        no_unbound_reports(sc_ann(c, ann, sp)),
        no_unbound_reports(arity_check(name, e, g, sp)),
        no_unbound_reports(base_check(c, g, sp).0),
{
    lemma_codes();
    if let Some(a) = ann {
        assert(sc_ann(c, ann, sp) == sc_type(c, a@, sp));
    }
}

proof fn lemma_clean_out(st: VStack, ds: Seq<DiagV>)
    requires
        no_unbound_reports(ds),
    ensures
        sound_from(st, (st, ds)),
{
}

proof fn lemma_chain(st: VStack, first: ScOut, second: ScOut)
    requires
        sound_from(st, first),
        sound_from(first.0, second),
    ensures
        sound_from(st, chain(first, second)),
{
    lemma_reports_weaken(st, first.0, second.1);
    lemma_reports_concat(st, first.1, second.1);
}

proof fn lemma_extend(st: VStack, first: ScOut, more: Seq<DiagV>)
    requires
        sound_from(st, first),
        no_unbound_reports(more),
    ensures
        sound_from(st, (first.0, first.1 + more)),
        sound_from(st, (first.0, more + first.1)),
{
    lemma_reports_concat(st, first.1, more);
    lemma_reports_concat(st, more, first.1);
}

proof fn lemma_close(st: VStack, r: ScOut)
    requires
        sound_from(st.push(Seq::empty()), r),
    ensures
        sound_from(st, close(r)),
{
    lemma_kept_pop(st, Seq::empty(), r.0);
    lemma_kept_push(st, Seq::empty());
    lemma_reports_weaken(st, st.push(Seq::empty()), r.1);
    lemma_unused_clean(r.0.last());
    lemma_reports_concat(st, r.1, unused_diags(r.0.last()));
}

proof fn lemma_from_kept(a: VStack, b: VStack, r: ScOut)
    requires
        names_kept(a, b),
        a.len() == b.len(),
        sound_from(b, r),
    ensures
        sound_from(a, r),
{
    lemma_kept_trans(a, b, r.0);
    lemma_reports_weaken(a, b, r.1);
}

proof fn lemma_sc_atom(c: ScCtx, st: VStack, a: Atom)
    ensures
        sound_from(st, sc_atom(c, st, a)),
    decreases a,
{
    lemma_codes();
    match a {
        Atom::Variable(id) => {
            let name = id.name@;
            let out = sc_var(c, st, name, id.position);
            if name == "self"@ {
            } else if !sc_bound(st, name) {
                assert(out.1[0] == undefined_var_v(name, id.position));
            } else {
                lemma_mark_kept(st, name);
            }
        },
        Atom::Group(g) => lemma_sc_expr(c, st, g.expression),
        _ => {},
    }
}

proof fn lemma_sc_list(c: ScCtx, st: VStack, es: Seq<Expression>)
    ensures
        sound_from(st, sc_list(c, st, es)),
    decreases es,
{
    if es.len() > 0 {
        lemma_sc_list(c, st, es.drop_last());
        let pre = sc_list(c, st, es.drop_last());
        lemma_sc_expr(c, pre.0, es.last());
        lemma_chain(st, pre, sc_expr(c, pre.0, es.last()));
    }
}

proof fn lemma_sc_body(c: ScCtx, st: VStack, b: ExprBody)
    ensures
        sound_from(st, sc_body(c, st, b)),
    decreases b,
{
    match b {
        ExprBody::Single(e) => lemma_sc_expr(c, st, *e),
        ExprBody::Block(es) => lemma_sc_list(c, st, es@),
    }
}

proof fn lemma_sc_decls(c: ScCtx, st: VStack, ds: Seq<LetDecl>)
    requires
        st.len() >= 1,
    ensures
        sound_from(st, sc_decls(c, st, ds)),
    decreases ds,
{
    lemma_codes();
    if ds.len() > 0 {
        lemma_sc_decls(c, st, ds.drop_last());
        let pre = sc_decls(c, st, ds.drop_last());
        let d = ds.last();
        lemma_sc_expr(c, pre.0, d.value);
        let init = sc_expr(c, pre.0, d.value);
        lemma_define_kept(init.0, d.name@, super::type_checker::ann_type(d.type_ann), d.span);
        lemma_kept_trans(st, pre.0, init.0);
        lemma_kept_trans(st, init.0, sc_define(init.0, d.name@, super::type_checker::ann_type(d.type_ann), d.span));
        lemma_heads_clean(c, Seq::empty(), d.type_ann, d.span, Seq::empty(), 0, 0);
        let dup: Seq<DiagV> = if super::scopes::sc_fresh(init.0, d.name@) {
            Seq::empty()
        } else {
            seq![super::semantic_checker::duplicate_var_v(d.name@, d.span)]
        };
        lemma_reports_weaken(st, pre.0, init.1);
        lemma_no_reports(st, sc_ann(c, d.type_ann, d.span));
        lemma_no_reports(st, dup);
        lemma_reports_concat(st, pre.1, sc_ann(c, d.type_ann, d.span));
        lemma_reports_concat(st, pre.1 + sc_ann(c, d.type_ann, d.span), init.1);
        lemma_reports_concat(st, pre.1 + sc_ann(c, d.type_ann, d.span) + init.1, dup);
    }
}

proof fn lemma_sc_elifs(c: ScCtx, st: VStack, bs: Seq<CondBranch>)
    ensures
        sound_from(st, sc_elifs(c, st, bs)),
    decreases bs,
{
    if bs.len() > 0 {
        lemma_sc_elifs(c, st, bs.drop_last());
        let pre = sc_elifs(c, st, bs.drop_last());
        lemma_sc_expr(c, pre.0, bs.last().condition);
        let cond = sc_expr(c, pre.0, bs.last().condition);
        lemma_chain(st, pre, cond);
        lemma_sc_body(c, cond.0, bs.last().body);
        lemma_chain(st, chain(pre, cond), sc_body(c, cond.0, bs.last().body));
    }
}

proof fn lemma_sc_branches(c: ScCtx, st: VStack, bs: Seq<CaseBranch>)
    ensures
        sound_from(st, sc_branches(c, st, bs)),
    decreases bs,
{
    if bs.len() > 0 {
        lemma_sc_branches(c, st, bs.drop_last());
        let pre = sc_branches(c, st, bs.drop_last());
        let b = bs.last();
        let opened = pre.0.push(Seq::empty());
        let bound = sc_define(opened, b.name@, super::types::spec_from_name(b.type_ident@), b.span);
        lemma_define_kept(opened, b.name@, super::types::spec_from_name(b.type_ident@), b.span);
        lemma_sc_body(c, bound, b.body);
        lemma_from_kept(opened, bound, sc_body(c, bound, b.body));
        lemma_close(pre.0, sc_body(c, bound, b.body));
        let body = close(sc_body(c, bound, b.body));
        lemma_heads_clean(c, b.type_ident@, None, b.span, Seq::empty(), 0, 0);
        assert(pre.1 + sc_type(c, b.type_ident@, b.span) + body.1 == pre.1 + (sc_type(c, b.type_ident@, b.span)
            + body.1));
        lemma_extend(pre.0, body, sc_type(c, b.type_ident@, b.span));
        lemma_chain(st, pre, (body.0, sc_type(c, b.type_ident@, b.span) + body.1));
    }
}

proof fn lemma_sc_call(c: ScCtx, st: VStack, call: FunctionCall)
    ensures
        sound_from(st, sc_call(c, st, call)),
    decreases call,
{
    lemma_codes();
    lemma_sc_list(c, st, call.args@);
    if call.name@ == "base"@ {
        let h = base_check(c, call.args@.len(), call.span);
        lemma_heads_clean(c, Seq::empty(), None, call.span, Seq::empty(), 0, call.args@.len());
        lemma_clean_out(st, h.0);
        if h.1 {
            lemma_chain(st, (st, h.0), sc_list(c, st, call.args@));
        }
    } else {
        let head = match super::symbol_table::find_func(c.1, call.name@) {
            Some(f) => arity_check(call.name@, f.params@.len(), call.args@.len(), call.span),
            None => seq![super::semantic_checker::undefined_function_v(call.name@, call.span)],
        };
        if let Some(f) = super::symbol_table::find_func(c.1, call.name@) {
            lemma_heads_clean(c, Seq::empty(), None, call.span, call.name@, f.params@.len(), call.args@.len());
        }
        lemma_clean_out(st, head);
        lemma_chain(st, (st, head), sc_list(c, st, call.args@));
    }
}

proof fn lemma_sc_new(c: ScCtx, st: VStack, inst: NewInstance)
    ensures
        sound_from(st, sc_new(c, st, inst)),
    decreases inst,
{
    lemma_codes();
    lemma_sc_list(c, st, inst.args@);
    let head = if !super::semantic_checker::type_known(c, inst.type_ident@) {
        seq![super::semantic_checker::undefined_type_v(inst.type_ident@, inst.span)]
    } else {
        match super::symbol_table::find_class(c.0, inst.type_ident@) {
            Some(k) => arity_check(inst.type_ident@, k.params@.len(), inst.args@.len(), inst.span),
            None => Seq::empty(),
        }
    };
    if let Some(k) = super::symbol_table::find_class(c.0, inst.type_ident@) {
        lemma_heads_clean(c, Seq::empty(), None, inst.span, inst.type_ident@, k.params@.len(), inst.args@.len());
    }
    lemma_clean_out(st, head);
    lemma_chain(st, (st, head), sc_list(c, st, inst.args@));
}

proof fn lemma_sc_expr(c: ScCtx, st: VStack, e: Expression)
    ensures
        sound_from(st, sc_expr(c, st, e)),
    decreases e,
{
    lemma_codes();
    match e {
        Expression::Atom(a) => lemma_sc_atom(c, st, *a),
        Expression::BinaryOp(b) => {
            lemma_sc_expr(c, st, *b.left);
            let l = sc_expr(c, st, *b.left);
            lemma_sc_expr(c, l.0, *b.right);
            lemma_chain(st, l, sc_expr(c, l.0, *b.right));
        },
        Expression::UnaryOp(u) => lemma_sc_expr(c, st, *u.expr),
        Expression::Let(l) => {
            let opened = st.push(Seq::empty());
            lemma_sc_decls(c, opened, l.decls@);
            let decls = sc_decls(c, opened, l.decls@);
            lemma_sc_body(c, decls.0, l.body);
            lemma_chain(opened, decls, sc_body(c, decls.0, l.body));
            lemma_close(st, chain(decls, sc_body(c, decls.0, l.body)));
        },
        Expression::If(i) => {
            lemma_sc_expr(c, st, i.condition);
            let cond = sc_expr(c, st, i.condition);
            lemma_sc_body(c, cond.0, i.then_body);
            lemma_chain(st, cond, sc_body(c, cond.0, i.then_body));
            let th = chain(cond, sc_body(c, cond.0, i.then_body));
            lemma_sc_elifs(c, th.0, i.elif_branches@);
            lemma_chain(st, th, sc_elifs(c, th.0, i.elif_branches@));
            let el = chain(th, sc_elifs(c, th.0, i.elif_branches@));
            if let Some(eb) = i.else_body {
                lemma_sc_body(c, el.0, eb);
                lemma_chain(st, el, sc_body(c, el.0, eb));
            }
        },
        Expression::While(w) => {
            lemma_sc_expr(c, st, w.condition);
            let cond = sc_expr(c, st, w.condition);
            lemma_sc_body(c, cond.0, w.body);
            lemma_chain(st, cond, sc_body(c, cond.0, w.body));
        },
        Expression::For(f) => {
            lemma_sc_expr(c, st, f.iterable);
            let it = sc_expr(c, st, f.iterable);
            let opened = it.0.push(Seq::empty());
            let bound = sc_define(opened, f.var@, TypeV::Unknown, f.span);
            lemma_define_kept(opened, f.var@, TypeV::Unknown, f.span);
            lemma_sc_body(c, bound, f.body);
            lemma_from_kept(opened, bound, sc_body(c, bound, f.body));
            lemma_close(it.0, sc_body(c, bound, f.body));
            lemma_chain(st, it, close(sc_body(c, bound, f.body)));
        },
        Expression::IsType(x) => {
            lemma_sc_expr(c, st, x.expr);
            lemma_heads_clean(c, x.type_ident@, None, x.span, Seq::empty(), 0, 0);
            lemma_extend(st, sc_expr(c, st, x.expr), sc_type(c, x.type_ident@, x.span));
        },
        Expression::AsType(x) => {
            lemma_sc_expr(c, st, x.expr);
            lemma_heads_clean(c, x.type_ident@, None, x.span, Seq::empty(), 0, 0);
            lemma_extend(st, sc_expr(c, st, x.expr), sc_type(c, x.type_ident@, x.span));
        },
        Expression::Case(k) => {
            lemma_sc_expr(c, st, k.expr);
            let r = sc_expr(c, st, k.expr);
            lemma_sc_branches(c, r.0, k.branches@);
            lemma_chain(st, r, sc_branches(c, r.0, k.branches@));
        },
        Expression::Assign(a) => {
            let t = match target_check(st, a.target, a.span) {
                Some(r) => r,
                None => sc_expr(c, st, a.target),
            };
            match target_check(st, a.target, a.span) {
                Some(r) => {
                    match a.target {
                        Expression::Atom(at) => match *at {
                            Atom::Variable(id) => {
                                if !sc_bound(st, id.name@) {
                                    assert(r.1[0] == undefined_var_v(id.name@, id.position));
                                } else {
                                    lemma_mark_kept(st, id.name@);
                                }
                            },
                            _ => {},
                        },
                        _ => {},
                    }
                },
                None => lemma_sc_expr(c, st, a.target),
            }
            lemma_sc_expr(c, t.0, a.value);
            lemma_chain(st, t, sc_expr(c, t.0, a.value));
        },
        Expression::FunctionCall(call) => lemma_sc_call(c, st, *call),
        Expression::MemberAccess(m) => lemma_sc_expr(c, st, m.object),
        Expression::MethodCall(m) => {
            lemma_sc_expr(c, st, m.object);
            let o = sc_expr(c, st, m.object);
            lemma_sc_list(c, o.0, m.args@);
            lemma_chain(st, o, sc_list(c, o.0, m.args@));
        },
        Expression::IndexAccess(x) => {
            lemma_sc_expr(c, st, x.object);
            let o = sc_expr(c, st, x.object);
            lemma_sc_expr(c, o.0, x.index);
            lemma_chain(st, o, sc_expr(c, o.0, x.index));
        },
        Expression::NewInstance(inst) => lemma_sc_new(c, st, *inst),
        Expression::NewArray(a) => {
            lemma_sc_expr(c, st, a.size);
            let size = sc_expr(c, st, a.size);
            let tail = match a.init {
                Some(p) => sc_expr(c, size.0, p.1),
                None => (size.0, Seq::<DiagV>::empty()),
            };
            if let Some(p) = a.init {
                lemma_sc_expr(c, size.0, p.1);
            }
            lemma_chain(st, size, tail);
            lemma_heads_clean(c, Seq::empty(), a.type_ident, a.span, Seq::empty(), 0, 0);
            lemma_extend(st, chain(size, tail), sc_ann(c, a.type_ident, a.span));
        },
    }
}

/// The semantic check of an expression closes every scope it opens, keeps
/// every binding of the scopes around it, and reports a variable as
/// undefined only when no scope around the expression binds it.
pub proof fn law_check_reports_only_unbound(c: ScCtx, st: VStack, e: Expression)
    ensures
        sc_expr(c, st, e).0.len() == st.len(),
        names_kept(st, sc_expr(c, st, e).0),
        reports_unbound(st, sc_expr(c, st, e).1),
{
    lemma_sc_expr(c, st, e);
}

/// A call of a declared function (other than `base`) with fewer or with
/// more arguments than the function has parameters is reported as a
/// wrong arity (code E104), naming the function, the number expected and
/// the number given, before anything found in the arguments; with as many
/// arguments as parameters the call adds no report of its own.  A call of
/// a name that no function has is reported as undefined (code E101).
pub proof fn law_call_arity(c: ScCtx, st: VStack, call: FunctionCall)
    requires
        call.name@ != "base"@,
    ensures
        ({
            let out = sc_call(c, st, call);
            let args = sc_list(c, st, call.args@);
            let got = call.args@.len();
            match super::symbol_table::find_func(c.1, call.name@) {
                Some(f) => {
                    &&& got < f.params@.len() ==> out == (args.0, seq![arity_v(call.name@, f.params@.len(), got,
                        call.span)] + args.1)
                    &&& got > f.params@.len() ==> out == (args.0, seq![arity_v(call.name@, f.params@.len(), got,
                        call.span)] + args.1)
                    &&& got == f.params@.len() ==> out == args
                    &&& got != f.params@.len() ==> out.1[0].0 == "E104"@
                },
                None => {
                    &&& out == (args.0, seq![undefined_function_v(call.name@, call.span)] + args.1)
                    &&& out.1[0].0 == "E101"@
                },
            }
        }),
{
    let args = sc_list(c, st, call.args@);
    assert(Seq::<DiagV>::empty() + args.1 =~= args.1);
}
/// A `new` of a known class with fewer or with more arguments than the
/// class has parameters is reported as a wrong arity (code E104), naming
/// the class, the number expected and the number given, before anything
/// found in the arguments; with as many arguments as parameters it adds
/// no report of its own.
pub proof fn law_new_arity(c: ScCtx, st: VStack, inst: NewInstance)
    requires
        super::semantic_checker::type_known(c, inst.type_ident@),
    ensures
        ({
            let out = sc_new(c, st, inst);
            let args = sc_list(c, st, inst.args@);
            let got = inst.args@.len();
            match super::symbol_table::find_class(c.0, inst.type_ident@) {
                Some(k) => {
                    &&& got != k.params@.len() ==> out == (args.0, seq![arity_v(inst.type_ident@, k.params@.len(),
                        got, inst.span)] + args.1)
                    &&& got != k.params@.len() ==> out.1[0].0 == "E104"@
                    &&& got == k.params@.len() ==> out == args
                },
                None => out == args,
            }
        }),
{
    let args = sc_list(c, st, inst.args@);
    assert(Seq::<DiagV>::empty() + args.1 =~= args.1);
}
} // verus!

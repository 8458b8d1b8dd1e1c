//! Type inference for unannotated symbols.
//!
//! Infers types for symbols that lack explicit annotations: function and
//! method parameters from how their bodies use them, constructor
//! parameters from the attribute initializers and parent arguments,
//! attribute types from their initializers, and return types from bodies.
//!
//! The inferer collects constraints from how each unknown-typed symbol is
//! used (operators, arguments, indexing) and picks the type on which all
//! constraints agree, or their least common ancestor, or leaves the symbol
//! unknown when the constraints conflict.

use vstd::prelude::*;
use crate::ast::{
    Atom, Body, CaseBranch, ClassDecl, CondBranch, ExprBody, Expression, FunctionDecl, LetDecl, Method, Param,
    Program,
};
use crate::tokens::BinOp;
use crate::tokens;
use crate::text::str_eq;
use super::errors::CompilerError;
use super::symbol_table::{
    SymbolTable, FuncInfo, ClassInfo, AttrInfo, find_class, find_func, find_name, func_names, class_names,
    attr_names, index_of_func, index_of_class, index_of_attr, spec_lca, spec_resolve_attribute, spec_resolve_method, string_views, contains_string,
};
use super::types::{HulkType, TypeV, spec_from_name, spec_is_resolved};
use super::type_checker::{is_arithmetic, is_comparison};

verus! {

/// What inference reads of the symbol table: classes, functions and the
/// class being inferred.
pub type IfCtx = (Seq<ClassInfo>, Seq<FuncInfo>, Option<Seq<char>>);

/// A constraint: a variable name and a type it must have.
pub type Constraint = (Seq<char>, TypeV);

/// The variable an expression is, if it is one (possibly parenthesized).
pub open spec fn spec_extract_var_name(e: Expression) -> Option<Seq<char>>
    decreases e,
{
    match e {
        Expression::Atom(a) => match *a {
            Atom::Variable(id) => Some(id.name@),
            Atom::Group(g) => spec_extract_var_name(g.expression),
            _ => None,
        },
        _ => None,
    }
}

/// The class whose members a value of type `t` has (no `Self` here).
pub open spec fn spec_type_to_class_name(t: TypeV) -> Option<Seq<char>> {
    match t {
        TypeV::Class(n) => Some(n),
        TypeV::Number => Some("Number"@),
        TypeV::Str => Some("String"@),
        TypeV::Boolean => Some("Boolean"@),
        TypeV::Object => Some("Object"@),
        _ => None,
    }
}

/// The type of a binary operation by its operator alone.
pub open spec fn spec_binop_type(op: BinOp) -> TypeV {
    if is_arithmetic(op) {
        TypeV::Number
    } else if is_comparison(op) || op is EqualEqual || op is NotEqual || op is And || op is Or {
        TypeV::Boolean
    } else if op is Concat || op is ConcatSpaced {
        TypeV::Str
    } else {
        TypeV::Unknown
    }
}

/// The type of a unary operation by its operator alone.
pub open spec fn spec_unary_type(op: tokens::UnaryOp) -> TypeV {
    match op {
        tokens::UnaryOp::Minus(_) => TypeV::Number,
        tokens::UnaryOp::Not(_) => TypeV::Boolean,
    }
}

/// The type of the first parameter of `ps` named `name` with a resolved type.
pub open spec fn resolved_param_type(ps: Seq<(String, HulkType)>, name: Seq<char>) -> Option<TypeV>
    decreases ps.len(),
{
    if ps.len() == 0 {
        None
    } else if ps[0].0@ == name && spec_is_resolved(ps[0].1@) {
        Some(ps[0].1@)
    } else {
        resolved_param_type(ps.drop_first(), name)
    }
}

/// The lightweight type of an atom.
pub open spec fn ie_atom(cx: IfCtx, a: Atom) -> TypeV
    decreases a,
{
    match a {
        Atom::NumberLiteral(_) => TypeV::Number,
        Atom::StringLiteral(_) => TypeV::Str,
        Atom::BooleanLiteral(_) => TypeV::Boolean,
        Atom::Variable(id) => if id.name@ == "self"@ {
            match cx.2 {
                Some(n) => TypeV::Class(n),
                None => TypeV::Unknown,
            }
        } else {
            match cx.2 {
                Some(cn) => match find_class(cx.0, cn) {
                    Some(c) => match resolved_param_type(c.params@, id.name@) {
                        Some(t) => t,
                        None => TypeV::Unknown,
                    },
                    None => TypeV::Unknown,
                },
                None => TypeV::Unknown,
            }
        },
        Atom::Group(g) => ie_expr(cx, g.expression),
    }
}

/// The lightweight type of the last expression of a list, `Void` if empty.
pub open spec fn ie_last(cx: IfCtx, es: Seq<Expression>) -> TypeV
    decreases es,
{
    if es.len() == 0 {
        TypeV::Void
    } else {
        ie_expr(cx, es.last())
    }
}

pub open spec fn ie_body(cx: IfCtx, b: ExprBody) -> TypeV
    decreases b,
{
    match b {
        ExprBody::Single(e) => ie_expr(cx, *e),
        ExprBody::Block(es) => ie_last(cx, es@),
    }
}

pub open spec fn ie_elifs(cx: IfCtx, bs: Seq<CondBranch>, first: TypeV) -> TypeV
    decreases bs,
{
    if bs.len() == 0 {
        first
    } else {
        spec_lca(cx.0, ie_elifs(cx, bs.drop_last(), first), ie_body(cx, bs.last().body))
    }
}

pub open spec fn ie_branches(cx: IfCtx, bs: Seq<CaseBranch>) -> TypeV
    decreases bs,
{
    if bs.len() == 0 {
        TypeV::Error
    } else {
        let pre = ie_branches(cx, bs.drop_last());
        let t = ie_body(cx, bs.last().body);
        if pre is Error { t } else { spec_lca(cx.0, pre, t) }
    }
}

/// The lightweight type of an expression, as inference estimates it
/// before type checking.
pub open spec fn ie_expr(cx: IfCtx, e: Expression) -> TypeV
    decreases e,
{
    match e {
        Expression::Atom(a) => ie_atom(cx, *a),
        Expression::BinaryOp(b) => spec_binop_type(b.operator),
        Expression::UnaryOp(u) => spec_unary_type(u.op),
        Expression::FunctionCall(c) => match find_func(cx.1, c.name@) {
            Some(f) => f.return_type@,
            None => TypeV::Unknown,
        },
        Expression::NewInstance(n) => TypeV::Class(n.type_ident@),
        Expression::Let(l) => ie_body(cx, l.body),
        Expression::If(i) => {
            let r = ie_elifs(cx, i.elif_branches@, ie_body(cx, i.then_body));
            match i.else_body {
                Some(eb) => spec_lca(cx.0, r, ie_body(cx, eb)),
                None => r,
            }
        },
        Expression::While(w) => ie_body(cx, w.body),
        Expression::For(f) => ie_body(cx, f.body),
        Expression::IsType(_) => TypeV::Boolean,
        Expression::AsType(a) => spec_from_name(a.type_ident@),
        Expression::Case(c) => ie_branches(cx, c.branches@),
        Expression::Assign(a) => ie_expr(cx, a.value),
        Expression::MemberAccess(m) => match spec_type_to_class_name(ie_expr(cx, m.object)) {
            Some(cn) => match spec_resolve_attribute(cx.0, cn, m.member@) {
                Some((_, attr)) => attr.hulk_type@,
                None => TypeV::Unknown,
            },
            None => TypeV::Unknown,
        },
        Expression::MethodCall(m) => match spec_type_to_class_name(ie_expr(cx, m.object)) {
            Some(cn) => match spec_resolve_method(cx.0, cn, m.method@) {
                Some((_, f)) => f.return_type@,
                None => TypeV::Unknown,
            },
            None => TypeV::Unknown,
        },
        Expression::IndexAccess(_) => TypeV::Unknown,
        Expression::NewArray(a) => TypeV::Array(Box::new(match a.type_ident {
            Some(n) => spec_from_name(n@),
            None => TypeV::Unknown,
        })),
    }
}

/// The lightweight type of a function or method body.
pub open spec fn ie_fn_body(cx: IfCtx, b: Body) -> TypeV {
    match b {
        Body::Inline(e) => ie_expr(cx, e),
        Body::Block(es) => if es@.len() == 0 { TypeV::Void } else { ie_expr(cx, es@.last()) },
    }
}

// ───────────────────────── Constraints ─────────────────────────

/// The constraint that expression `e` has type `t`, if it is one of the
/// `targets` variables.
pub open spec fn var_constraint(e: Expression, targets: Seq<Seq<char>>, t: TypeV) -> Seq<Constraint> {
    match spec_extract_var_name(e) {
        Some(n) => if targets.contains(n) { seq![(n, t)] } else { Seq::empty() },
        None => Seq::empty(),
    }
}

/// The constraints an argument at position `i` gets from the parameter
/// types `params`: the parameter's type, if resolved.
pub open spec fn arg_constraint(e: Expression, targets: Seq<Seq<char>>, params: Seq<(String, HulkType)>, i: int) -> Seq<Constraint> {
    if i < params.len() && spec_is_resolved(params[i].1@) {
        var_constraint(e, targets, params[i].1@)
    } else {
        Seq::empty()
    }
}

/// The constraints from arguments against parameter types, then from
/// inside each argument, position by position.
pub open spec fn cc_args(cx: IfCtx, args: Seq<Expression>, targets: Seq<Seq<char>>, params: Seq<(String, HulkType)>) -> Seq<Constraint>
    decreases args,
{
    if args.len() == 0 {
        Seq::empty()
    } else {
        cc_args(cx, args.drop_last(), targets, params) + arg_constraint(args.last(), targets, params, args.len() - 1)
            + cc_expr(cx, args.last(), targets)
    }
}

pub open spec fn cc_list(cx: IfCtx, es: Seq<Expression>, targets: Seq<Seq<char>>) -> Seq<Constraint>
    decreases es,
{
    if es.len() == 0 {
        Seq::empty()
    } else {
        cc_list(cx, es.drop_last(), targets) + cc_expr(cx, es.last(), targets)
    }
}

pub open spec fn cc_body(cx: IfCtx, b: ExprBody, targets: Seq<Seq<char>>) -> Seq<Constraint>
    decreases b,
{
    match b {
        ExprBody::Single(e) => cc_expr(cx, *e, targets),
        ExprBody::Block(es) => cc_list(cx, es@, targets),
    }
}

pub open spec fn cc_decls(cx: IfCtx, ds: Seq<LetDecl>, targets: Seq<Seq<char>>) -> Seq<Constraint>
    decreases ds,
{
    if ds.len() == 0 {
        Seq::empty()
    } else {
        cc_decls(cx, ds.drop_last(), targets) + cc_expr(cx, ds.last().value, targets)
    }
}

pub open spec fn cc_elifs(cx: IfCtx, bs: Seq<CondBranch>, targets: Seq<Seq<char>>) -> Seq<Constraint>
    decreases bs,
{
    if bs.len() == 0 {
        Seq::empty()
    } else {
        cc_elifs(cx, bs.drop_last(), targets) + cc_expr(cx, bs.last().condition, targets) + cc_body(cx,
            bs.last().body, targets)
    }
}

pub open spec fn cc_branches(cx: IfCtx, bs: Seq<CaseBranch>, targets: Seq<Seq<char>>) -> Seq<Constraint>
    decreases bs,
{
    if bs.len() == 0 {
        Seq::empty()
    } else {
        cc_branches(cx, bs.drop_last(), targets) + cc_body(cx, bs.last().body, targets)
    }
}

/// The type the operands of `op` must have, if any.
pub open spec fn operand_type(op: BinOp) -> Option<TypeV> {
    if is_arithmetic(op) || is_comparison(op) {
        Some(TypeV::Number)
    } else if op is And || op is Or {
        Some(TypeV::Boolean)
    } else {
        None
    }
}

/// The constraints that the uses of the `targets` variables in `e` put
/// on their types, in the order they are met.
pub open spec fn cc_expr(cx: IfCtx, e: Expression, targets: Seq<Seq<char>>) -> Seq<Constraint>
    decreases e,
{
    match e {
        Expression::BinaryOp(b) => {
            let own = match operand_type(b.operator) {
                Some(t) => var_constraint(*b.left, targets, t) + var_constraint(*b.right, targets, t),
                None => Seq::empty(),
            };
            own + cc_expr(cx, *b.left, targets) + cc_expr(cx, *b.right, targets)
        },
        Expression::UnaryOp(u) => var_constraint(*u.expr, targets, spec_unary_type(u.op)) + cc_expr(cx, *u.expr, targets),
        Expression::FunctionCall(c) => {
            let params = match find_func(cx.1, c.name@) {
                Some(f) => f.params@,
                None => Seq::empty(),
            };
            cc_args(cx, c.args@, targets, params)
        },
        Expression::MethodCall(m) => cc_expr(cx, m.object, targets) + cc_list(cx, m.args@, targets),
        Expression::Let(l) => cc_decls(cx, l.decls@, targets) + cc_body(cx, l.body, targets),
        Expression::If(i) => cc_expr(cx, i.condition, targets) + cc_body(cx, i.then_body, targets) + cc_elifs(cx,
            i.elif_branches@, targets) + match i.else_body {
            Some(eb) => cc_body(cx, eb, targets),
            None => Seq::empty(),
        },
        Expression::While(w) => cc_expr(cx, w.condition, targets) + cc_body(cx, w.body, targets),
        Expression::For(f) => cc_expr(cx, f.iterable, targets) + cc_body(cx, f.body, targets),
        Expression::Assign(a) => cc_expr(cx, a.target, targets) + cc_expr(cx, a.value, targets),
        Expression::Atom(a) => match *a {
            Atom::Group(g) => cc_expr(cx, g.expression, targets),
            _ => Seq::empty(),
        },
        Expression::IsType(i) => cc_expr(cx, i.expr, targets),
        Expression::AsType(a) => cc_expr(cx, a.expr, targets),
        Expression::Case(c) => cc_expr(cx, c.expr, targets) + cc_branches(cx, c.branches@, targets),
        Expression::MemberAccess(m) => cc_expr(cx, m.object, targets),
        Expression::IndexAccess(x) => cc_expr(cx, x.object, targets) + var_constraint(x.index, targets, TypeV::Number)
            + cc_expr(cx, x.index, targets),
        Expression::NewInstance(n) => {
            let params = match find_class(cx.0, n.type_ident@) {
                Some(c) => c.params@,
                None => Seq::empty(),
            };
            cc_args(cx, n.args@, targets, params)
        },
        Expression::NewArray(a) => cc_expr(cx, a.size, targets) + match a.init {
            Some(p) => cc_expr(cx, p.1, targets),
            None => Seq::empty(),
        },
    }
}

/// A variable among the targets used directly as an operand of `<`, `<=`,
/// `>`, `>=`, `+`, `-`, `*`, `/`, `%` or `^` is constrained to `Number`,
/// and as an operand of `&` or `|` to `Boolean`; these constraints come
/// first, the left operand's before the right's.  `==`, `!=`, `@` and `@@`
/// put no constraint on their operands: only what stands inside them
/// constrains anything.
pub proof fn law_operand_constraints(cx: IfCtx, b: crate::ast::BinaryOp, targets: Seq<Seq<char>>, n: Seq<char>)
    requires
        targets.contains(n),
    ensures
        ({
            let e = cc_expr(cx, Expression::BinaryOp(b), targets);
            let op = b.operator;
            let num = op is Less || op is LessEqual || op is Greater || op is GreaterEqual || op is Plus || op is Minus
                || op is Mul || op is Div || op is Mod || op is Pow;
            let used = spec_extract_var_name(*b.left) == Some(n) || spec_extract_var_name(*b.right) == Some(n);
            &&& num && spec_extract_var_name(*b.left) == Some(n) ==> e[0] == (n, TypeV::Number)
            &&& (op is And || op is Or) && spec_extract_var_name(*b.left) == Some(n) ==> e[0] == (n, TypeV::Boolean)
            &&& num && used ==> e.contains((n, TypeV::Number)) && relevant(e, n).contains(TypeV::Number)
            &&& (op is And || op is Or) && used ==> e.contains((n, TypeV::Boolean)) && relevant(e, n).contains(
                TypeV::Boolean)
            &&& (op is EqualEqual || op is NotEqual || op is Concat || op is ConcatSpaced) ==> e == cc_expr(cx, *b.left,
                targets) + cc_expr(cx, *b.right, targets)
        }),
{
    let e = cc_expr(cx, Expression::BinaryOp(b), targets);
    let op = b.operator;
    match operand_type(op) {
        Some(t) => {
            let vl = var_constraint(*b.left, targets, t);
            let vr = var_constraint(*b.right, targets, t);
            let rest = cc_expr(cx, *b.left, targets) + cc_expr(cx, *b.right, targets);
            assert(e =~= vl + (vr + rest));
            if spec_extract_var_name(*b.left) == Some(n) {
                assert(vl =~= seq![(n, t)]);
                assert(e[0] == (n, t));
                lemma_relevant_has(e, 0, n);
            } else if spec_extract_var_name(*b.right) == Some(n) {
                assert(vr =~= seq![(n, t)]);
                assert(e[vl.len() as int] == (n, t));
                lemma_relevant_has(e, vl.len() as int, n);
            }
        },
        None => {
            assert(e =~= Seq::<Constraint>::empty() + cc_expr(cx, *b.left, targets) + cc_expr(cx, *b.right, targets));
        },
    }
}

/// A constraint on `n` in `cs` is among the types that `cs` puts on `n`.
proof fn lemma_relevant_has(cs: Seq<Constraint>, i: int, n: Seq<char>)
    requires
        0 <= i < cs.len(),
        cs[i].0 == n,
    ensures
        cs.contains(cs[i]),
        relevant(cs, n).contains(cs[i].1),
    decreases cs.len(),
{
    assert(cs[i] == cs[i]);
    if i == cs.len() - 1 {
        assert(relevant(cs, n).last() == cs[i].1);
        assert(relevant(cs, n)[relevant(cs, n).len() - 1] == cs[i].1);
    } else {
        let d = cs.drop_last();
        assert(d[i] == cs[i]);
        lemma_relevant_has(d, i, n);
        let r = relevant(d, n);
        let k = choose|k: int| 0 <= k < r.len() && r[k] == cs[i].1;
        if cs.last().0 == n {
            assert(relevant(cs, n)[k] == cs[i].1);
        } else {
            assert(relevant(cs, n) == r);
        }
    }
}

/// The type of a binary operation read from its operator alone:
/// comparisons, `==`, `!=`, `&` and `|` are `Boolean`; `+`, `-`, `*`, `/`,
/// `%` and `^` are `Number`; `@` and `@@` are `String`.  Of the prefix
/// operators, `-` is `Number` and `!` is `Boolean`.
pub proof fn law_operator_result_types(op: BinOp, u: tokens::UnaryOp)
    ensures
        (op is Less || op is LessEqual || op is Greater || op is GreaterEqual || op is EqualEqual || op is NotEqual
            || op is And || op is Or) ==> spec_binop_type(op) == TypeV::Boolean,
        (op is Plus || op is Minus || op is Mul || op is Div || op is Mod || op is Pow) ==> spec_binop_type(op)
            == TypeV::Number,
        (op is Concat || op is ConcatSpaced) ==> spec_binop_type(op) == TypeV::Str,
        u is Minus ==> spec_unary_type(u) == TypeV::Number,
        u is Not ==> spec_unary_type(u) == TypeV::Boolean,
{
}

/// The constraints of a function or method body.
pub open spec fn cc_fn_body(cx: IfCtx, b: Body, targets: Seq<Seq<char>>) -> Seq<Constraint> {
    match b {
        Body::Inline(e) => cc_expr(cx, e, targets),
        Body::Block(es) => cc_list(cx, es@, targets),
    }
}

/// The types that the constraints put on `name`, in order.
pub open spec fn relevant(cs: Seq<Constraint>, name: Seq<char>) -> Seq<TypeV>
    decreases cs.len(),
{
    if cs.len() == 0 {
        Seq::empty()
    } else if cs.last().0 == name {
        relevant(cs.drop_last(), name).push(cs.last().1)
    } else {
        relevant(cs.drop_last(), name)
    }
}

/// The root of every hierarchy: the type `Object`, or the class of that
/// name.
pub open spec fn is_root_type(t: TypeV) -> bool {
    t == TypeV::Object || t == TypeV::Class("Object"@)
}

fn is_root(t: &HulkType) -> (r: bool)
    ensures
        r == is_root_type(t@),
{
    match t {
        HulkType::Object => true,
        HulkType::Class(n) => str_eq(n.as_str(), "Object"),
        _ => false,
    }
}

/// Folding the constraint types: equal ones agree; others are replaced by
/// their least common ancestor, and the fold fails if that is the root
/// `Object`: constraints from different hierarchies conflict.
pub open spec fn fold_constraints(classes: Seq<ClassInfo>, ts: Seq<TypeV>) -> Option<TypeV>
    decreases ts.len(),
{
    if ts.len() == 0 {
        None
    } else if ts.len() == 1 {
        Some(ts[0])
    } else {
        match fold_constraints(classes, ts.drop_last()) {
            None => None,
            Some(r) => if ts.last() == r {
                Some(r)
            } else if is_root_type(spec_lca(classes, r, ts.last())) {
                None
            } else {
                Some(spec_lca(classes, r, ts.last()))
            },
        }
    }
}

/// The type inferred for `name` from the constraints: the one all agree
/// on (or their common ancestor), none if there are none or they conflict.
pub open spec fn spec_resolve_constraints(classes: Seq<ClassInfo>, cs: Seq<Constraint>, name: Seq<char>) -> Option<TypeV> {
    fold_constraints(classes, relevant(cs, name))
}

// ───────────────────────── The inferer ─────────────────────────

struct TypeInferer {
    symbols: SymbolTable,
    errors: Vec<CompilerError>,
    /// The constraints collected on the parameters being inferred.
    constraints: Vec<(String, HulkType)>,
    current_class: Option<String>,
}

/// The constraints an executable list stands for.
pub open spec fn constraints_view(cs: Seq<(String, HulkType)>) -> Seq<Constraint> {
    cs.map_values(|c: (String, HulkType)| (c.0@, c.1@))
}

/// The variable an expression is, if it is one (possibly parenthesized).
pub fn extract_var_name(expr: &Expression) -> (r: Option<String>)
    ensures
        match r {
            Some(n) => spec_extract_var_name(*expr) == Some(n@),
            None => spec_extract_var_name(*expr) is None,
        },
    decreases expr,
{
    match expr {
        Expression::Atom(atom) => match &**atom {
            Atom::Variable(id) => Some(id.name.clone()),
            Atom::Group(g) => extract_var_name(&g.expression),
            _ => None,
        },
        _ => None,
    }
}

/// The class whose members a value of type `t` has.
pub fn type_to_class_name(t: &HulkType) -> (r: Option<String>)
    ensures
        match r {
            Some(n) => spec_type_to_class_name(t@) == Some(n@),
            None => spec_type_to_class_name(t@) is None,
        },
{
    match t {
        HulkType::Class(name) => Some(name.clone()),
        HulkType::Number => Some(String::from_str("Number")),
        HulkType::String => Some(String::from_str("String")),
        HulkType::Boolean => Some(String::from_str("Boolean")),
        HulkType::Object => Some(String::from_str("Object")),
        _ => None,
    }
}

/// The type of a binary operation by its operator alone.
pub fn infer_binop_type(op: &BinOp) -> (t: HulkType)
    ensures
        t@ == spec_binop_type(*op),
{
    match op {
        BinOp::Plus(_) | BinOp::Minus(_) | BinOp::Mul(_) | BinOp::Div(_) | BinOp::Mod(_) | BinOp::Pow(_) => {
            HulkType::Number
        },
        BinOp::Less(_) | BinOp::LessEqual(_) | BinOp::Greater(_) | BinOp::GreaterEqual(_) | BinOp::EqualEqual(_)
        | BinOp::NotEqual(_) | BinOp::And(_) | BinOp::Or(_) => HulkType::Boolean,
        BinOp::Concat(_) | BinOp::ConcatSpaced(_) => HulkType::String,
        _ => HulkType::Unknown,
    }
}

/// The type of a unary operation by its operator alone.
pub fn infer_unary_type(op: &tokens::UnaryOp) -> (t: HulkType)
    ensures
        t@ == spec_unary_type(*op),
{
    match op {
        tokens::UnaryOp::Minus(_) => HulkType::Number,
        tokens::UnaryOp::Not(_) => HulkType::Boolean,
    }
}

fn resolved_param(ps: &Vec<(String, HulkType)>, name: &str) -> (r: Option<HulkType>)
    ensures
        match r {
            Some(t) => resolved_param_type(ps@, name@) == Some(t@),
            None => resolved_param_type(ps@, name@) is None,
        },
{
    let mut i: usize = 0;
    assert(ps@.subrange(0, ps@.len() as int) =~= ps@);
    while i < ps.len()
        invariant
            i <= ps.len(),
            resolved_param_type(ps@, name@) == resolved_param_type(ps@.subrange(i as int, ps@.len() as int), name@),
        decreases ps.len() - i,
    {
        let ghost rest = ps@.subrange(i as int, ps@.len() as int);
        assert(rest.drop_first() =~= ps@.subrange(i + 1, ps@.len() as int));
        assert(rest[0] == ps@[i as int]);
        if str_eq(ps[i].0.as_str(), name) && ps[i].1.is_resolved() {
            return Some(ps[i].1.duplicate());
        }
        i = i + 1;
    }
    None
}

impl TypeInferer {
    spec fn cx(self) -> IfCtx {
        (self.symbols.classes@, self.symbols.functions@, match self.current_class {
            Some(n) => Some(n@),
            None => None,
        })
    }

    spec fn cons(self) -> Seq<Constraint> {
        constraints_view(self.constraints@)
    }

    fn infer_atom_type(&self, atom: &Atom) -> (t: HulkType)
        ensures
            t@ == ie_atom(self.cx(), *atom),
        decreases atom,
    {
        match atom {
            Atom::NumberLiteral(_) => HulkType::Number,
            Atom::StringLiteral(_) => HulkType::String,
            Atom::BooleanLiteral(_) => HulkType::Boolean,
            Atom::Variable(id) => {
                if str_eq(id.name.as_str(), "self") {
                    match &self.current_class {
                        Some(n) => HulkType::Class(n.clone()),
                        None => HulkType::Unknown,
                    }
                } else {
                    // Constructor parameters of the current class.
                    match &self.current_class {
                        Some(class_name) => match self.symbols.get_class(class_name.as_str()) {
                            Some(class_info) => match resolved_param(&class_info.params, id.name.as_str()) {
                                Some(t) => t,
                                None => HulkType::Unknown,
                            },
                            None => HulkType::Unknown,
                        },
                        None => HulkType::Unknown,
                    }
                }
            },
            Atom::Group(g) => self.infer_expr_type(&g.expression),
        }
    }

    fn infer_last_type(&self, es: &Vec<Expression>) -> (t: HulkType)
        ensures
            t@ == ie_last(self.cx(), es@),
        decreases es,
    {
        if es.len() == 0 {
            HulkType::Void
        } else {
            proof {
                assert(decreases_to!(es => es@[es@.len() - 1]));
            }
            self.infer_expr_type(&es[es.len() - 1])
        }
    }

    fn infer_expr_body_type(&self, body: &ExprBody) -> (t: HulkType)
        ensures
            t@ == ie_body(self.cx(), *body),
        decreases body,
    {
        match body {
            ExprBody::Single(e) => self.infer_expr_type(e),
            ExprBody::Block(es) => {
                proof {
                    assert(decreases_to!(body => body->Block_0));
                }
                self.infer_last_type(es)
            },
        }
    }

    fn infer_body_type(&self, body: &Body) -> (t: HulkType)
        ensures
            t@ == ie_fn_body(self.cx(), *body),
    {
        match body {
            Body::Inline(e) => self.infer_expr_type(e),
            Body::Block(es) => if es.len() == 0 {
                HulkType::Void
            } else {
                self.infer_expr_type(&es[es.len() - 1])
            },
        }
    }

    /// The lightweight type of an expression, used before type checking.
    fn infer_expr_type(&self, expr: &Expression) -> (t: HulkType)
        ensures
            t@ == ie_expr(self.cx(), *expr),
        decreases expr,
    {
        match expr {
            Expression::Atom(atom) => self.infer_atom_type(atom),
            Expression::BinaryOp(binop) => infer_binop_type(&binop.operator),
            Expression::UnaryOp(unary) => infer_unary_type(&unary.op),
            Expression::FunctionCall(call) => match self.symbols.get_function(call.name.as_str()) {
                Some(f) => f.return_type.duplicate(),
                None => HulkType::Unknown,
            },
            Expression::NewInstance(inst) => HulkType::Class(inst.type_ident.clone()),
            Expression::Let(let_expr) => self.infer_expr_body_type(&let_expr.body),
            Expression::If(if_expr) => {
                let mut result = self.infer_expr_body_type(&if_expr.then_body);
                let ghost first = result@;
                let mut i: usize = 0;
                assert(if_expr.elif_branches@.subrange(0, 0) =~= Seq::<CondBranch>::empty());
                while i < if_expr.elif_branches.len()
                    invariant
                        i <= if_expr.elif_branches.len(),
                        *expr == Expression::If(*if_expr),
                        result@ == ie_elifs(self.cx(), if_expr.elif_branches@.subrange(0, i as int), first),
                    decreases if_expr.elif_branches.len() - i,
                {
                    let ghost cur = if_expr.elif_branches@.subrange(0, i + 1);
                    assert(cur.drop_last() =~= if_expr.elif_branches@.subrange(0, i as int));
                    assert(cur.last() == if_expr.elif_branches@[i as int]);
                    proof {
                        assert(decreases_to!(expr => expr->If_0));
                        assert(decreases_to!(expr => if_expr.elif_branches@[i as int].body));
                    }
                    let bt = self.infer_expr_body_type(&if_expr.elif_branches[i].body);
                    result = self.symbols.lca(&result, &bt);
                    i = i + 1;
                }
                assert(if_expr.elif_branches@.subrange(0, if_expr.elif_branches@.len() as int) =~= if_expr.elif_branches@);
                match &if_expr.else_body {
                    Some(else_body) => {
                        proof {
                            assert(decreases_to!(expr => expr->If_0));
                            assert(decreases_to!(expr => if_expr.else_body->Some_0));
                        }
                        let et = self.infer_expr_body_type(else_body);
                        self.symbols.lca(&result, &et)
                    },
                    None => result,
                }
            },
            Expression::While(w) => self.infer_expr_body_type(&w.body),
            Expression::For(f) => self.infer_expr_body_type(&f.body),
            Expression::IsType(_) => HulkType::Boolean,
            Expression::AsType(as_expr) => HulkType::from_name(as_expr.type_ident.as_str()),
            Expression::Case(case_expr) => {
                let mut result = HulkType::Error;
                let mut i: usize = 0;
                assert(case_expr.branches@.subrange(0, 0) =~= Seq::<CaseBranch>::empty());
                while i < case_expr.branches.len()
                    invariant
                        i <= case_expr.branches.len(),
                        *expr == Expression::Case(*case_expr),
                        result@ == ie_branches(self.cx(), case_expr.branches@.subrange(0, i as int)),
                    decreases case_expr.branches.len() - i,
                {
                    let ghost cur = case_expr.branches@.subrange(0, i + 1);
                    assert(cur.drop_last() =~= case_expr.branches@.subrange(0, i as int));
                    assert(cur.last() == case_expr.branches@[i as int]);
                    proof {
                        assert(decreases_to!(expr => expr->Case_0));
                        assert(decreases_to!(expr => case_expr.branches@[i as int].body));
                    }
                    let bt = self.infer_expr_body_type(&case_expr.branches[i].body);
                    if result.is_error() {
                        result = bt;
                    } else {
                        result = self.symbols.lca(&result, &bt);
                    }
                    i = i + 1;
                }
                assert(case_expr.branches@.subrange(0, case_expr.branches@.len() as int) =~= case_expr.branches@);
                result
            },
            Expression::Assign(assign) => self.infer_expr_type(&assign.value),
            Expression::MemberAccess(access) => {
                let obj_type = self.infer_expr_type(&access.object);
                match type_to_class_name(&obj_type) {
                    Some(class_name) => match self.symbols.resolve_attribute(class_name.as_str(), access.member.as_str()) {
                        Some((_, a)) => a.hulk_type.duplicate(),
                        None => HulkType::Unknown,
                    },
                    None => HulkType::Unknown,
                }
            },
            Expression::MethodCall(call) => {
                let obj_type = self.infer_expr_type(&call.object);
                match type_to_class_name(&obj_type) {
                    Some(class_name) => match self.symbols.resolve_method(class_name.as_str(), call.method.as_str()) {
                        Some((_, m)) => m.return_type.duplicate(),
                        None => HulkType::Unknown,
                    },
                    None => HulkType::Unknown,
                }
            },
            Expression::IndexAccess(_) => HulkType::Unknown,
            Expression::NewArray(arr) => {
                let elem = match &arr.type_ident {
                    Some(name) => HulkType::from_name(name.as_str()),
                    None => HulkType::Unknown,
                };
                HulkType::Array(Box::new(elem))
            },
        }
    }
}

impl TypeInferer {
    /// Constraints collected, nothing else changed.
    spec fn collected_more(self, old: Self, more: Seq<Constraint>) -> bool {
        &&& self.symbols == old.symbols
        &&& self.current_class == old.current_class
        &&& self.errors == old.errors
        &&& self.cons() == old.cons() + more
    }

    proof fn lemma_more_refl(a: Self)
        ensures
            a.collected_more(a, Seq::empty()),
    {
        assert(a.cons() =~= a.cons() + Seq::<Constraint>::empty());
    }

    proof fn lemma_more_trans(a: Self, b: Self, c: Self, m1: Seq<Constraint>, m2: Seq<Constraint>)
        requires
            b.collected_more(a, m1),
            c.collected_more(b, m2),
        ensures
            c.collected_more(a, m1 + m2),
    {
        assert(a.cons() + m1 + m2 =~= a.cons() + (m1 + m2));
    }

    /// Records that `e` has type `t` if it is one of the target variables.
    fn add_var_constraint(&mut self, e: &Expression, targets: &Vec<String>, t: &HulkType)
        ensures
            final(self).collected_more(*old(self), var_constraint(*e, string_views(targets@), t@)),
    {
        match extract_var_name(e) {
            Some(name) => {
                if contains_string(targets, name.as_str()) {
                    let ghost n = name@;
                    self.constraints.push((name, t.duplicate()));
                    assert(self.cons() =~= old(self).cons() + seq![(n, t@)]);
                } else {
                    proof {
                        Self::lemma_more_refl(*self);
                    }
                }
            },
            None => {
                proof {
                    Self::lemma_more_refl(*self);
                }
            },
        }
    }

    /// Collects the constraints of each argument: from the parameter type
    /// at its position, then from inside it.
    fn collect_args(&mut self, args: &Vec<Expression>, targets: &Vec<String>, params: &Vec<(String, HulkType)>)
        ensures
            final(self).collected_more(*old(self), cc_args(old(self).cx(), args@, string_views(targets@), params@)),
        decreases args,
    {
        let ghost tv = string_views(targets@);
        proof {
            Self::lemma_more_refl(*self);
            assert(args@.subrange(0, 0) =~= Seq::<Expression>::empty());
        }
        let mut i: usize = 0;
        while i < args.len()
            invariant
                i <= args.len(),
                tv == string_views(targets@),
                self.collected_more(*old(self), cc_args(old(self).cx(), args@.subrange(0, i as int), tv, params@)),
            decreases args.len() - i,
        {
            let ghost cur = args@.subrange(0, i + 1);
            assert(cur.drop_last() =~= args@.subrange(0, i as int));
            assert(cur.last() == args@[i as int]);
            let ghost m0 = *self;
            if i < params.len() && params[i].1.is_resolved() {
                self.add_var_constraint(&args[i], targets, &params[i].1);
            } else {
                proof {
                    Self::lemma_more_refl(*self);
                }
            }
            let ghost m1 = *self;
            proof {
                assert(decreases_to!(args => args@[i as int]));
            }
            self.collect_constraints_expr(&args[i], targets);
            proof {
                let pre = cc_args(old(self).cx(), args@.subrange(0, i as int), tv, params@);
                let ac = arg_constraint(args@[i as int], tv, params@, i as int);
                Self::lemma_more_trans(*old(self), m0, m1, pre, ac);
                Self::lemma_more_trans(*old(self), m1, *self, pre + ac, cc_expr(old(self).cx(), args@[i as int], tv));
            }
            i = i + 1;
        }
        assert(args@.subrange(0, args@.len() as int) =~= args@);
    }

    fn collect_list(&mut self, es: &Vec<Expression>, targets: &Vec<String>)
        ensures
            final(self).collected_more(*old(self), cc_list(old(self).cx(), es@, string_views(targets@))),
        decreases es,
    {
        let ghost tv = string_views(targets@);
        proof {
            Self::lemma_more_refl(*self);
            assert(es@.subrange(0, 0) =~= Seq::<Expression>::empty());
        }
        let mut i: usize = 0;
        while i < es.len()
            invariant
                i <= es.len(),
                tv == string_views(targets@),
                self.collected_more(*old(self), cc_list(old(self).cx(), es@.subrange(0, i as int), tv)),
            decreases es.len() - i,
        {
            let ghost cur = es@.subrange(0, i + 1);
            assert(cur.drop_last() =~= es@.subrange(0, i as int));
            assert(cur.last() == es@[i as int]);
            let ghost m0 = *self;
            proof {
                assert(decreases_to!(es => es@[i as int]));
            }
            self.collect_constraints_expr(&es[i], targets);
            proof {
                Self::lemma_more_trans(*old(self), m0, *self, cc_list(old(self).cx(), es@.subrange(0, i as int), tv),
                    cc_expr(old(self).cx(), es@[i as int], tv));
            }
            i = i + 1;
        }
        assert(es@.subrange(0, es@.len() as int) =~= es@);
    }

    fn collect_constraints_expr_body(&mut self, body: &ExprBody, targets: &Vec<String>)
        ensures
            final(self).collected_more(*old(self), cc_body(old(self).cx(), *body, string_views(targets@))),
        decreases body,
    {
        match body {
            ExprBody::Single(e) => self.collect_constraints_expr(e, targets),
            ExprBody::Block(es) => {
                proof {
                    assert(decreases_to!(body => body->Block_0));
                }
                self.collect_list(es, targets)
            },
        }
    }

    fn collect_constraints_body(&mut self, body: &Body, targets: &Vec<String>)
        ensures
            final(self).collected_more(*old(self), cc_fn_body(old(self).cx(), *body, string_views(targets@))),
    {
        match body {
            Body::Inline(e) => self.collect_constraints_expr(e, targets),
            Body::Block(es) => self.collect_list(es, targets),
        }
    }

    /// Walks an expression and records, for each use of a target variable
    /// in a context that constrains its type, the variable and the type.
    fn collect_constraints_expr(&mut self, expr: &Expression, targets: &Vec<String>)
        ensures
            final(self).collected_more(*old(self), cc_expr(old(self).cx(), *expr, string_views(targets@))),
        decreases expr,
    {
        let ghost cx = old(self).cx();
        let ghost tv = string_views(targets@);
        match expr {
            Expression::BinaryOp(binop) => {
                let operand = match &binop.operator {
                    BinOp::Plus(_) | BinOp::Minus(_) | BinOp::Mul(_) | BinOp::Div(_) | BinOp::Mod(_) | BinOp::Pow(_)
                    | BinOp::Less(_) | BinOp::LessEqual(_) | BinOp::Greater(_) | BinOp::GreaterEqual(_) => {
                        Some(HulkType::Number)
                    },
                    BinOp::And(_) | BinOp::Or(_) => Some(HulkType::Boolean),
                    _ => None,
                };
                let ghost m0 = *self;
                match &operand {
                    Some(t) => {
                        self.add_var_constraint(&binop.left, targets, t);
                        let ghost m1 = *self;
                        self.add_var_constraint(&binop.right, targets, t);
                        proof {
                            Self::lemma_more_trans(m0, m1, *self, var_constraint(*binop.left, tv, t@), var_constraint(
                                *binop.right, tv, t@));
                        }
                    },
                    None => {
                        proof {
                            Self::lemma_more_refl(*self);
                        }
                    },
                }
                let ghost own = match operand_type(binop.operator) {
                    Some(t) => var_constraint(*binop.left, tv, t) + var_constraint(*binop.right, tv, t),
                    None => Seq::empty(),
                };
                let ghost m2 = *self;
                self.collect_constraints_expr(&binop.left, targets);
                let ghost m3 = *self;
                self.collect_constraints_expr(&binop.right, targets);
                proof {
                    Self::lemma_more_trans(m0, m2, m3, own, cc_expr(cx, *binop.left, tv));
                    Self::lemma_more_trans(m0, m3, *self, own + cc_expr(cx, *binop.left, tv), cc_expr(cx, *binop.right, tv));
                }
            },
            Expression::UnaryOp(unary) => {
                let t = infer_unary_type(&unary.op);
                self.add_var_constraint(&unary.expr, targets, &t);
                let ghost m1 = *self;
                self.collect_constraints_expr(&unary.expr, targets);
                proof {
                    Self::lemma_more_trans(*old(self), m1, *self, var_constraint(*unary.expr, tv, t@), cc_expr(cx,
                        *unary.expr, tv));
                }
            },
            Expression::FunctionCall(call) => {
                let params = match self.symbols.get_function(call.name.as_str()) {
                    Some(f) => super::symbol_table::copy_params(&f.params),
                    None => Vec::new(),
                };
                proof {
                    assert(decreases_to!(expr => expr->FunctionCall_0));
                }
                self.collect_args(&call.args, targets, &params);
            },
            Expression::MethodCall(call) => {
                self.collect_constraints_expr(&call.object, targets);
                let ghost m1 = *self;
                proof {
                    assert(decreases_to!(expr => expr->MethodCall_0));
                }
                self.collect_list(&call.args, targets);
                proof {
                    Self::lemma_more_trans(*old(self), m1, *self, cc_expr(cx, call.object, tv), cc_list(cx, call.args@, tv));
                }
            },
            Expression::Let(let_expr) => {
                proof {
                    Self::lemma_more_refl(*self);
                    assert(let_expr.decls@.subrange(0, 0) =~= Seq::<LetDecl>::empty());
                }
                let mut i: usize = 0;
                while i < let_expr.decls.len()
                    invariant
                        i <= let_expr.decls.len(),
                        *expr == Expression::Let(*let_expr),
                        cx == old(self).cx(),
                        tv == string_views(targets@),
                        self.collected_more(*old(self), cc_decls(cx, let_expr.decls@.subrange(0, i as int), tv)),
                    decreases let_expr.decls.len() - i,
                {
                    let ghost cur = let_expr.decls@.subrange(0, i + 1);
                    assert(cur.drop_last() =~= let_expr.decls@.subrange(0, i as int));
                    assert(cur.last() == let_expr.decls@[i as int]);
                    let ghost m = *self;
                    proof {
                        assert(decreases_to!(expr => expr->Let_0));
                        assert(decreases_to!(expr => let_expr.decls@[i as int].value));
                    }
                    self.collect_constraints_expr(&let_expr.decls[i].value, targets);
                    proof {
                        Self::lemma_more_trans(*old(self), m, *self, cc_decls(cx, let_expr.decls@.subrange(0, i as int), tv),
                            cc_expr(cx, let_expr.decls@[i as int].value, tv));
                    }
                    i = i + 1;
                }
                assert(let_expr.decls@.subrange(0, let_expr.decls@.len() as int) =~= let_expr.decls@);
                let ghost m = *self;
                self.collect_constraints_expr_body(&let_expr.body, targets);
                proof {
                    Self::lemma_more_trans(*old(self), m, *self, cc_decls(cx, let_expr.decls@, tv), cc_body(cx,
                        let_expr.body, tv));
                }
            },
            Expression::If(if_expr) => {
                self.collect_constraints_expr(&if_expr.condition, targets);
                let ghost m0 = *self;
                self.collect_constraints_expr_body(&if_expr.then_body, targets);
                proof {
                    Self::lemma_more_trans(*old(self), m0, *self, cc_expr(cx, if_expr.condition, tv), cc_body(cx,
                        if_expr.then_body, tv));
                    assert(if_expr.elif_branches@.subrange(0, 0) =~= Seq::<CondBranch>::empty());
                }
                let ghost head = cc_expr(cx, if_expr.condition, tv) + cc_body(cx, if_expr.then_body, tv);
                assert(head + Seq::<Constraint>::empty() =~= head);
                let mut i: usize = 0;
                while i < if_expr.elif_branches.len()
                    invariant
                        i <= if_expr.elif_branches.len(),
                        *expr == Expression::If(*if_expr),
                        cx == old(self).cx(),
                        tv == string_views(targets@),
                        self.collected_more(*old(self), head + cc_elifs(cx, if_expr.elif_branches@.subrange(0, i as int),
                            tv)),
                    decreases if_expr.elif_branches.len() - i,
                {
                    let ghost cur = if_expr.elif_branches@.subrange(0, i + 1);
                    assert(cur.drop_last() =~= if_expr.elif_branches@.subrange(0, i as int));
                    assert(cur.last() == if_expr.elif_branches@[i as int]);
                    let ghost m = *self;
                    proof {
                        assert(decreases_to!(expr => expr->If_0));
                        assert(decreases_to!(expr => if_expr.elif_branches@[i as int].condition));
                        assert(decreases_to!(expr => if_expr.elif_branches@[i as int].body));
                    }
                    self.collect_constraints_expr(&if_expr.elif_branches[i].condition, targets);
                    let ghost m1 = *self;
                    self.collect_constraints_expr_body(&if_expr.elif_branches[i].body, targets);
                    proof {
                        let b = if_expr.elif_branches@[i as int];
                        let pre = head + cc_elifs(cx, if_expr.elif_branches@.subrange(0, i as int), tv);
                        Self::lemma_more_trans(*old(self), m, m1, pre, cc_expr(cx, b.condition, tv));
                        Self::lemma_more_trans(*old(self), m1, *self, pre + cc_expr(cx, b.condition, tv), cc_body(cx,
                            b.body, tv));
                        assert(pre + cc_expr(cx, b.condition, tv) + cc_body(cx, b.body, tv) =~= head + cc_elifs(cx, cur, tv));
                    }
                    i = i + 1;
                }
                assert(if_expr.elif_branches@.subrange(0, if_expr.elif_branches@.len() as int) =~= if_expr.elif_branches@);
                let ghost m2 = *self;
                match &if_expr.else_body {
                    Some(else_body) => {
                        proof {
                            assert(decreases_to!(expr => expr->If_0));
                            assert(decreases_to!(expr => if_expr.else_body->Some_0));
                        }
                        self.collect_constraints_expr_body(else_body, targets);
                        proof {
                            Self::lemma_more_trans(*old(self), m2, *self, head + cc_elifs(cx, if_expr.elif_branches@, tv),
                                cc_body(cx, *else_body, tv));
                        }
                    },
                    None => {
                        assert(head + cc_elifs(cx, if_expr.elif_branches@, tv) + Seq::<Constraint>::empty() =~= head
                            + cc_elifs(cx, if_expr.elif_branches@, tv));
                    },
                }
            },
            Expression::While(w) => {
                self.collect_constraints_expr(&w.condition, targets);
                let ghost m = *self;
                self.collect_constraints_expr_body(&w.body, targets);
                proof {
                    Self::lemma_more_trans(*old(self), m, *self, cc_expr(cx, w.condition, tv), cc_body(cx, w.body, tv));
                }
            },
            Expression::For(f) => {
                self.collect_constraints_expr(&f.iterable, targets);
                let ghost m = *self;
                self.collect_constraints_expr_body(&f.body, targets);
                proof {
                    Self::lemma_more_trans(*old(self), m, *self, cc_expr(cx, f.iterable, tv), cc_body(cx, f.body, tv));
                }
            },
            Expression::Assign(a) => {
                self.collect_constraints_expr(&a.target, targets);
                let ghost m = *self;
                self.collect_constraints_expr(&a.value, targets);
                proof {
                    Self::lemma_more_trans(*old(self), m, *self, cc_expr(cx, a.target, tv), cc_expr(cx, a.value, tv));
                }
            },
            Expression::Atom(atom) => match &**atom {
                // Atoms by themselves do not constrain anything.
                Atom::Group(g) => self.collect_constraints_expr(&g.expression, targets),
                _ => {
                    proof {
                        Self::lemma_more_refl(*self);
                    }
                },
            },
            Expression::IsType(i) => self.collect_constraints_expr(&i.expr, targets),
            Expression::AsType(a) => self.collect_constraints_expr(&a.expr, targets),
            Expression::Case(case_expr) => {
                self.collect_constraints_expr(&case_expr.expr, targets);
                let ghost head = cc_expr(cx, case_expr.expr, tv);
                proof {
                    assert(case_expr.branches@.subrange(0, 0) =~= Seq::<CaseBranch>::empty());
                    assert(head + Seq::<Constraint>::empty() =~= head);
                }
                let mut i: usize = 0;
                while i < case_expr.branches.len()
                    invariant
                        i <= case_expr.branches.len(),
                        *expr == Expression::Case(*case_expr),
                        cx == old(self).cx(),
                        tv == string_views(targets@),
                        self.collected_more(*old(self), head + cc_branches(cx, case_expr.branches@.subrange(0, i as int), tv)),
                    decreases case_expr.branches.len() - i,
                {
                    let ghost cur = case_expr.branches@.subrange(0, i + 1);
                    assert(cur.drop_last() =~= case_expr.branches@.subrange(0, i as int));
                    assert(cur.last() == case_expr.branches@[i as int]);
                    let ghost m = *self;
                    proof {
                        assert(decreases_to!(expr => expr->Case_0));
                        assert(decreases_to!(expr => case_expr.branches@[i as int].body));
                    }
                    self.collect_constraints_expr_body(&case_expr.branches[i].body, targets);
                    proof {
                        let pre = head + cc_branches(cx, case_expr.branches@.subrange(0, i as int), tv);
                        Self::lemma_more_trans(*old(self), m, *self, pre, cc_body(cx, case_expr.branches@[i as int].body, tv));
                        assert(pre + cc_body(cx, case_expr.branches@[i as int].body, tv) =~= head + cc_branches(cx, cur, tv));
                    }
                    i = i + 1;
                }
                assert(case_expr.branches@.subrange(0, case_expr.branches@.len() as int) =~= case_expr.branches@);
            },
            Expression::MemberAccess(m) => self.collect_constraints_expr(&m.object, targets),
            Expression::IndexAccess(access) => {
                self.collect_constraints_expr(&access.object, targets);
                let ghost m0 = *self;
                // The index must be a Number.
                self.add_var_constraint(&access.index, targets, &HulkType::Number);
                let ghost m1 = *self;
                self.collect_constraints_expr(&access.index, targets);
                proof {
                    Self::lemma_more_trans(*old(self), m0, m1, cc_expr(cx, access.object, tv), var_constraint(
                        access.index, tv, TypeV::Number));
                    Self::lemma_more_trans(*old(self), m1, *self, cc_expr(cx, access.object, tv) + var_constraint(
                        access.index, tv, TypeV::Number), cc_expr(cx, access.index, tv));
                }
            },
            Expression::NewInstance(inst) => {
                let params = match self.symbols.get_class(inst.type_ident.as_str()) {
                    Some(c) => super::symbol_table::copy_params(&c.params),
                    None => Vec::new(),
                };
                proof {
                    assert(decreases_to!(expr => expr->NewInstance_0));
                }
                self.collect_args(&inst.args, targets, &params);
            },
            Expression::NewArray(arr) => {
                self.collect_constraints_expr(&arr.size, targets);
                match &arr.init {
                    Some((_, init)) => {
                        proof {
                            assert(decreases_to!(expr => expr->NewArray_0));
                            assert(decreases_to!(expr => arr.init->Some_0));
                            assert(decreases_to!(expr => (arr.init->Some_0).1));
                        }
                        let ghost m = *self;
                        self.collect_constraints_expr(init, targets);
                        proof {
                            Self::lemma_more_trans(*old(self), m, *self, cc_expr(cx, arr.size, tv), cc_expr(cx, *init, tv));
                        }
                    },
                    None => {
                        assert(cc_expr(cx, arr.size, tv) + Seq::<Constraint>::empty() =~= cc_expr(cx, arr.size, tv));
                    },
                }
            },
        }
    }

    /// The type on which the collected constraints on `name` agree (or
    /// their least common ancestor); none if there are none or they
    /// conflict.
    fn resolve_constraints(&self, name: &str) -> (r: Option<HulkType>)
        ensures
            match r {
                Some(t) => spec_resolve_constraints(self.symbols.classes@, self.cons(), name@) == Some(t@),
                None => spec_resolve_constraints(self.symbols.classes@, self.cons(), name@) is None,
            },
    {
        let mut rel: Vec<HulkType> = Vec::new();
        let mut i: usize = 0;
        assert(self.constraints@.subrange(0, 0) =~= Seq::<(String, HulkType)>::empty());
        assert(constraints_view(Seq::<(String, HulkType)>::empty()) =~= Seq::<Constraint>::empty());
        while i < self.constraints.len()
            invariant
                i <= self.constraints.len(),
                super::type_checker::types_view(rel@) == relevant(constraints_view(self.constraints@.subrange(0, i as int)),
                    name@),
            decreases self.constraints.len() - i,
        {
            let ghost cur = constraints_view(self.constraints@.subrange(0, i + 1));
            assert(cur.drop_last() =~= constraints_view(self.constraints@.subrange(0, i as int)));
            assert(cur.last() == (self.constraints@[i as int].0@, self.constraints@[i as int].1@));
            if str_eq(self.constraints[i].0.as_str(), name) {
                let ghost before = rel@;
                rel.push(self.constraints[i].1.duplicate());
                assert(super::type_checker::types_view(rel@) =~= super::type_checker::types_view(before).push(
                    self.constraints@[i as int].1@));
            }
            i = i + 1;
        }
        assert(self.constraints@.subrange(0, self.constraints@.len() as int) =~= self.constraints@);
        let ghost ts = relevant(self.cons(), name@);
        if rel.len() == 0 {
            return None;
        }
        let mut result = rel[0].duplicate();
        let mut k: usize = 1;
        assert(ts.subrange(0, 1) =~= seq![ts[0]]);
        while k < rel.len()
            invariant
                1 <= k <= rel.len(),
                ts == super::type_checker::types_view(rel@),
                ts == relevant(self.cons(), name@),
                fold_constraints(self.symbols.classes@, ts.subrange(0, k as int)) == Some(result@),
            decreases rel.len() - k,
        {
            let ghost cur = ts.subrange(0, k + 1);
            assert(cur.drop_last() =~= ts.subrange(0, k as int));
            assert(cur.last() == rel@[k as int]@);
            if rel[k].same_as(&result) {
                k = k + 1;
                continue;
            }
            let l = self.symbols.lca(&result, &rel[k]);
            if is_root(&l) {
                assert(fold_constraints(self.symbols.classes@, cur) is None);
                proof {
                    lemma_fold_none_extends(self.symbols.classes@, ts, k + 1, ts.len() as int);
                    assert(ts.subrange(0, ts.len() as int) =~= ts);
                    assert(fold_constraints(self.symbols.classes@, ts) is None);
                    assert(spec_resolve_constraints(self.symbols.classes@, self.cons(), name@) is None);
                }
                return None;
            }
            result = l;
            k = k + 1;
        }
        assert(ts.subrange(0, ts.len() as int) =~= ts);
        Some(result)
    }
}

/// Once the fold has failed, it fails for every longer prefix.
proof fn lemma_fold_none_extends(classes: Seq<ClassInfo>, ts: Seq<TypeV>, a: int, b: int)
    requires
        2 <= a <= b <= ts.len(),
        fold_constraints(classes, ts.subrange(0, a)) is None,
    ensures
        fold_constraints(classes, ts.subrange(0, b)) is None,
    decreases b - a,
{
    if b > a {
        lemma_fold_none_extends(classes, ts, a, b - 1);
        assert(ts.subrange(0, b).drop_last() =~= ts.subrange(0, b - 1));
    }
}

// ───────────────────────── Refining the table ─────────────────────────

/// The names of the parameters without a type annotation, in order.
pub open spec fn unannotated(ps: Seq<Param>) -> Seq<Seq<char>>
    decreases ps.len(),
{
    if ps.len() == 0 {
        Seq::empty()
    } else if ps.last().type_ann is None {
        unannotated(ps.drop_last()).push(ps.last().name@)
    } else {
        unannotated(ps.drop_last())
    }
}

/// The type a parameter ends with: the inferred one, if it was unknown,
/// is a target and inference found a type for it.
pub open spec fn inferred_type(old_t: TypeV, name: Seq<char>, targets: Seq<Seq<char>>,
    inf: spec_fn(Seq<char>) -> Option<TypeV>) -> TypeV {
    if old_t == TypeV::Unknown && targets.contains(name) && inf(name) is Some {
        inf(name).unwrap()
    } else {
        old_t
    }
}

/// `new` is `old` with the inferred types of its unknown target parameters.
pub open spec fn params_updated(old: Seq<(String, HulkType)>, new: Seq<(String, HulkType)>, targets: Seq<Seq<char>>,
    inf: spec_fn(Seq<char>) -> Option<TypeV>) -> bool {
    &&& new.len() == old.len()
    &&& forall|k: int| 0 <= k < old.len() ==> (#[trigger] new[k]).0 == old[k].0 && new[k].1@ == inferred_type(
        old[k].1@, old[k].0@, targets, inf)
}

/// `t` stays, or it was unknown (or, for `loose`, unresolved) before.
pub open spec fn refined(old_t: TypeV, new_t: TypeV, loose: bool) -> bool {
    new_t == old_t || old_t == TypeV::Unknown || (loose && !spec_is_resolved(old_t))
}

pub open spec fn params_refined(old: Seq<(String, HulkType)>, new: Seq<(String, HulkType)>) -> bool {
    &&& new.len() == old.len()
    &&& forall|k: int| 0 <= k < old.len() ==> (#[trigger] new[k]).0 == old[k].0 && refined(old[k].1@, new[k].1@, false)
}

pub open spec fn func_refined(old: FuncInfo, new: FuncInfo) -> bool {
    &&& new.name == old.name
    &&& new.span == old.span
    &&& params_refined(old.params@, new.params@)
    &&& refined(old.return_type@, new.return_type@, true)
}

pub open spec fn attr_refined(old: AttrInfo, new: AttrInfo) -> bool {
    &&& new.name == old.name
    &&& new.span == old.span
    &&& refined(old.hulk_type@, new.hulk_type@, false)
}

pub open spec fn class_refined(old: ClassInfo, new: ClassInfo) -> bool {
    &&& new.name == old.name
    &&& new.parent == old.parent
    &&& new.span == old.span
    &&& params_refined(old.params@, new.params@)
    &&& new.attributes@.len() == old.attributes@.len()
    &&& forall|k: int| 0 <= k < old.attributes@.len() ==> attr_refined(old.attributes@[k], #[trigger] new.attributes@[k])
    &&& new.methods@.len() == old.methods@.len()
    &&& forall|k: int| 0 <= k < old.methods@.len() ==> func_refined(old.methods@[k], #[trigger] new.methods@[k])
}

/// `new` is `old` with some unknown types replaced: every declaration,
/// name, parent and span stays; a parameter or attribute type changes
/// only from `Unknown`, a return type only from an unresolved one.
pub open spec fn table_refined(old: SymbolTable, new: SymbolTable) -> bool {
    &&& new.functions@.len() == old.functions@.len()
    &&& forall|j: int| 0 <= j < old.functions@.len() ==> func_refined(old.functions@[j], #[trigger] new.functions@[j])
    &&& new.classes@.len() == old.classes@.len()
    &&& forall|j: int| 0 <= j < old.classes@.len() ==> class_refined(old.classes@[j], #[trigger] new.classes@[j])
    &&& new.scope_stack() == old.scope_stack()
    &&& new.current_class == old.current_class
}

proof fn lemma_params_refined_trans(a: Seq<(String, HulkType)>, b: Seq<(String, HulkType)>, c: Seq<(String, HulkType)>)
    requires
        params_refined(a, b),
        params_refined(b, c),
    ensures
        params_refined(a, c),
{
    assert forall|k: int| 0 <= k < a.len() implies (#[trigger] c[k]).0 == a[k].0 && refined(a[k].1@, c[k].1@, false) by {
        assert(b[k].0 == a[k].0 && refined(a[k].1@, b[k].1@, false));
        assert(c[k].0 == b[k].0 && refined(b[k].1@, c[k].1@, false));
    }
}

proof fn lemma_func_refined_trans(a: FuncInfo, b: FuncInfo, c: FuncInfo)
    requires
        func_refined(a, b),
        func_refined(b, c),
    ensures
        func_refined(a, c),
{
    lemma_params_refined_trans(a.params@, b.params@, c.params@);
}

proof fn lemma_class_refined_trans(a: ClassInfo, b: ClassInfo, c: ClassInfo)
    requires
        class_refined(a, b),
        class_refined(b, c),
    ensures
        class_refined(a, c),
{
    lemma_params_refined_trans(a.params@, b.params@, c.params@);
    assert forall|k: int| 0 <= k < a.attributes@.len() implies attr_refined(a.attributes@[k], #[trigger] c.attributes@[k]) by {
        assert(attr_refined(a.attributes@[k], b.attributes@[k]));
        assert(attr_refined(b.attributes@[k], c.attributes@[k]));
    }
    assert forall|k: int| 0 <= k < a.methods@.len() implies func_refined(a.methods@[k], #[trigger] c.methods@[k]) by {
        assert(func_refined(a.methods@[k], b.methods@[k]));
        assert(func_refined(b.methods@[k], c.methods@[k]));
        lemma_func_refined_trans(a.methods@[k], b.methods@[k], c.methods@[k]);
    }
}

proof fn lemma_table_refined_trans(a: SymbolTable, b: SymbolTable, c: SymbolTable)
    requires
        table_refined(a, b),
        table_refined(b, c),
    ensures
        table_refined(a, c),
{
    assert forall|j: int| 0 <= j < a.functions@.len() implies func_refined(a.functions@[j], #[trigger] c.functions@[j]) by {
        lemma_func_refined_trans(a.functions@[j], b.functions@[j], c.functions@[j]);
    }
    assert forall|j: int| 0 <= j < a.classes@.len() implies class_refined(a.classes@[j], #[trigger] c.classes@[j]) by {
        lemma_class_refined_trans(a.classes@[j], b.classes@[j], c.classes@[j]);
    }
}

proof fn lemma_table_refined_refl(a: SymbolTable)
    ensures
        table_refined(a, a),
{
    assert forall|j: int| 0 <= j < a.classes@.len() implies class_refined(a.classes@[j], #[trigger] a.classes@[j]) by {
        let c = a.classes@[j];
        assert forall|k: int| 0 <= k < c.methods@.len() implies func_refined(c.methods@[k], #[trigger] c.methods@[k]) by {
        }
    }
}

proof fn lemma_params_updated_refined(old: Seq<(String, HulkType)>, new: Seq<(String, HulkType)>, targets: Seq<Seq<char>>,
    inf: spec_fn(Seq<char>) -> Option<TypeV>)
    requires
        params_updated(old, new, targets, inf),
    ensures
        params_refined(old, new),
{
    assert forall|k: int| 0 <= k < old.len() implies (#[trigger] new[k]).0 == old[k].0 && refined(old[k].1@, new[k].1@,
        false) by {
        assert(new[k].0 == old[k].0);
    }
}

/// Gives each unknown parameter that is a target the inferred type.
fn apply_inference(params: &mut Vec<(String, HulkType)>, targets: &Vec<String>, inferred: &Vec<Option<HulkType>>,
    Ghost(inf): Ghost<spec_fn(Seq<char>) -> Option<TypeV>>)
    requires
        inferred@.len() == targets@.len(),
        forall|i: int| 0 <= i < targets@.len() ==> match #[trigger] inferred@[i] {
            Some(t) => inf(targets@[i]@) == Some(t@),
            None => inf(targets@[i]@) is None,
        },
    ensures
        params_updated(old(params)@, final(params)@, string_views(targets@), inf),
{
    let ghost p0 = params@;
    let mut t: usize = 0;
    assert(string_views(targets@.subrange(0, 0)) =~= Seq::<Seq<char>>::empty());
    while t < targets.len()
        invariant
            t <= targets.len(),
            inferred@.len() == targets@.len(),
            forall|i: int| 0 <= i < targets@.len() ==> match #[trigger] inferred@[i] {
                Some(x) => inf(targets@[i]@) == Some(x@),
                None => inf(targets@[i]@) is None,
            },
            params_updated(p0, params@, string_views(targets@.subrange(0, t as int)), inf),
        decreases targets.len() - t,
    {
        let ghost before = params@;
        let ghost tv = string_views(targets@.subrange(0, t as int));
        let ghost tv1 = string_views(targets@.subrange(0, t + 1));
        assert(tv1 =~= tv.push(targets@[t as int]@));
        match &inferred[t] {
            Some(ty) => {
                let q = targets[t].as_str();
                let mut k: usize = 0;
                while k < params.len()
                    invariant
                        k <= params.len(),
                        params@.len() == before.len(),
                        inf(q@) == Some(ty@),
                        forall|m: int| 0 <= m < before.len() ==> (#[trigger] params@[m]).0 == before[m].0,
                        forall|m: int| 0 <= m < k ==> (#[trigger] params@[m]).1@ == (if before[m].1@ == TypeV::Unknown
                            && before[m].0@ == q@ { ty@ } else { before[m].1@ }),
                        forall|m: int| k <= m < before.len() ==> #[trigger] params@[m] == before[m],
                    decreases params.len() - k,
                {
                    if str_eq(params[k].0.as_str(), q) && matches!(params[k].1, HulkType::Unknown) {
                        let (name, _) = params.remove(k);
                        params.insert(k, (name, ty.duplicate()));
                    }
                    k = k + 1;
                }
                proof {
                    assert forall|m: int| 0 <= m < p0.len() implies (#[trigger] params@[m]).0 == p0[m].0 && params@[m].1@
                        == inferred_type(p0[m].1@, p0[m].0@, tv1, inf) by {
                        assert(before[m].0 == p0[m].0);
                        assert(before[m].1@ == inferred_type(p0[m].1@, p0[m].0@, tv, inf));
                        if p0[m].0@ == q@ {
                            assert(tv1.contains(q@)) by {
                                assert(tv1[tv1.len() - 1] == q@);
                            }
                        } else {
                            assert(tv1.contains(p0[m].0@) == tv.contains(p0[m].0@)) by {
                                if tv1.contains(p0[m].0@) {
                                    let w = choose|w: int| 0 <= w < tv1.len() && tv1[w] == p0[m].0@;
                                    assert(w < tv.len());
                                    assert(tv[w] == tv1[w]);
                                }
                                if tv.contains(p0[m].0@) {
                                    let w = choose|w: int| 0 <= w < tv.len() && tv[w] == p0[m].0@;
                                    assert(tv1[w] == tv[w]);
                                }
                            }
                        }
                    }
                }
            },
            None => {
                proof {
                    assert forall|m: int| 0 <= m < p0.len() implies (#[trigger] params@[m]).0 == p0[m].0 && params@[m].1@
                        == inferred_type(p0[m].1@, p0[m].0@, tv1, inf) by {
                        let n = p0[m].0@;
                        if n != targets@[t as int]@ {
                            assert(tv1.contains(n) == tv.contains(n)) by {
                                if tv1.contains(n) {
                                    let w = choose|w: int| 0 <= w < tv1.len() && tv1[w] == n;
                                    assert(w < tv.len());
                                    assert(tv[w] == tv1[w]);
                                }
                                if tv.contains(n) {
                                    let w = choose|w: int| 0 <= w < tv.len() && tv[w] == n;
                                    assert(tv1[w] == tv[w]);
                                }
                            }
                        }
                    }
                }
            },
        }
        t = t + 1;
    }
    assert(targets@.subrange(0, targets@.len() as int) =~= targets@);
}

fn unannotated_names(ps: &Vec<Param>) -> (r: Vec<String>)
    ensures
        string_views(r@) == unannotated(ps@),
{
    let mut r: Vec<String> = Vec::new();
    let mut i: usize = 0;
    assert(ps@.subrange(0, 0) =~= Seq::<Param>::empty());
    assert(string_views(r@) =~= Seq::<Seq<char>>::empty());
    while i < ps.len()
        invariant
            i <= ps.len(),
            string_views(r@) == unannotated(ps@.subrange(0, i as int)),
        decreases ps.len() - i,
    {
        let ghost cur = ps@.subrange(0, i + 1);
        assert(cur.drop_last() =~= ps@.subrange(0, i as int));
        assert(cur.last() == ps@[i as int]);
        if ps[i].type_ann.is_none() {
            let ghost before = string_views(r@);
            r.push(ps[i].name.clone());
            assert(string_views(r@) =~= before.push(ps@[i as int].name@));
        }
        i = i + 1;
    }
    assert(ps@.subrange(0, ps@.len() as int) =~= ps@);
    r
}

/// The inferred types of the targets, from the constraints `cons`.
pub open spec fn inference(classes: Seq<ClassInfo>, cons: Seq<Constraint>) -> spec_fn(Seq<char>) -> Option<TypeV> {
    |q: Seq<char>| spec_resolve_constraints(classes, cons, q)
}

/// A function signature after inference: parameters from `inf`, and the
/// return type from `body` when unannotated and not yet resolved.
pub open spec fn signature_inferred(old: FuncInfo, new: FuncInfo, targets: Seq<Seq<char>>,
    inf: spec_fn(Seq<char>) -> Option<TypeV>, ret: Option<TypeV>) -> bool {
    &&& new.name == old.name
    &&& new.span == old.span
    &&& params_updated(old.params@, new.params@, targets, inf)
    &&& new.return_type@ == match ret {
        Some(t) => if !spec_is_resolved(old.return_type@) { t } else { old.return_type@ },
        None => old.return_type@,
    }
}

/// The global functions after inferring those of `func`: the first
/// function of that name gets the parameter types its body's constraints
/// agree on, and the body's type as return type if it had none.
pub open spec fn function_step(cx: IfCtx, new_fs: Seq<FuncInfo>, func: FunctionDecl) -> bool {
    let targets = unannotated(func.params@);
    let inf = inference(cx.0, cc_fn_body(cx, func.body, targets));
    let body_t = ie_fn_body(cx, func.body);
    let ret = if func.return_type is None && spec_is_resolved(body_t) { Some(body_t) } else { None };
    &&& new_fs.len() == cx.1.len()
    &&& forall|j: int| 0 <= j < cx.1.len() ==> if find_name(func_names(cx.1), func.name@, 0) == Some(j) {
        signature_inferred(cx.1[j], #[trigger] new_fs[j], targets, inf, ret)
    } else {
        new_fs[j] == cx.1[j]
    }
}

proof fn lemma_signature_refined(old: FuncInfo, new: FuncInfo, targets: Seq<Seq<char>>,
    inf: spec_fn(Seq<char>) -> Option<TypeV>, ret: Option<TypeV>)
    requires
        signature_inferred(old, new, targets, inf, ret),
    ensures
        func_refined(old, new),
{
    lemma_params_updated_refined(old.params@, new.params@, targets, inf);
}

impl TypeInferer {
    /// Infers the inferences of the targets from the collected constraints.
    fn infer_all(&self, targets: &Vec<String>) -> (r: Vec<Option<HulkType>>)
        ensures
            r@.len() == targets@.len(),
            forall|i: int| 0 <= i < targets@.len() ==> match #[trigger] r@[i] {
                Some(t) => inference(self.symbols.classes@, self.cons())(targets@[i]@) == Some(t@),
                None => inference(self.symbols.classes@, self.cons())(targets@[i]@) is None,
            },
    {
        let mut r: Vec<Option<HulkType>> = Vec::new();
        let mut i: usize = 0;
        while i < targets.len()
            invariant
                i <= targets.len(),
                r@.len() == i,
                forall|k: int| 0 <= k < i ==> match #[trigger] r@[k] {
                    Some(t) => inference(self.symbols.classes@, self.cons())(targets@[k]@) == Some(t@),
                    None => inference(self.symbols.classes@, self.cons())(targets@[k]@) is None,
                },
            decreases targets.len() - i,
        {
            let x = self.resolve_constraints(targets[i].as_str());
            r.push(x);
            i = i + 1;
        }
        r
    }

    /// Infers the unannotated parameter types of a global function from
    /// its body, and its return type from the body's type.
    fn infer_function_params(&mut self, func: &FunctionDecl)
        ensures
            function_step(old(self).cx(), final(self).symbols.functions@, *func),
            final(self).symbols.classes == old(self).symbols.classes,
            final(self).symbols.scope_stack() == old(self).symbols.scope_stack(),
            final(self).symbols.current_class == old(self).symbols.current_class,
            final(self).current_class == old(self).current_class,
            final(self).errors == old(self).errors,
            table_refined(old(self).symbols, final(self).symbols),
    {
        let ghost cx = old(self).cx();
        let targets = unannotated_names(&func.params);
        let ghost tv = string_views(targets@);
        // The body's type does not depend on parameter types.
        let body_type = self.infer_body_type(&func.body);
        let ghost inf = inference(cx.0, cc_fn_body(cx, func.body, tv));
        let ghost f0 = self.symbols.functions@;
        if targets.len() > 0 {
            self.constraints = Vec::new();
            assert(self.cons() =~= Seq::<Constraint>::empty());
            self.collect_constraints_body(&func.body, &targets);
            assert(self.cons() =~= cc_fn_body(cx, func.body, tv));
            let inferred = self.infer_all(&targets);
            match index_of_func(&self.symbols.functions, func.name.as_str()) {
                Some(j) => {
                    let mut f = self.symbols.functions.remove(j);
                    apply_inference(&mut f.params, &targets, &inferred, Ghost(inf));
                    self.symbols.functions.insert(j, f);
                },
                None => {},
            }
        }
        let ghost f1 = self.symbols.functions@;
        if func.return_type.is_none() && body_type.is_resolved() {
            match index_of_func(&self.symbols.functions, func.name.as_str()) {
                Some(j) => {
                    if !self.symbols.functions[j].return_type.is_resolved() {
                        let mut f = self.symbols.functions.remove(j);
                        f.return_type = body_type;
                        self.symbols.functions.insert(j, f);
                    }
                },
                None => {},
            }
        }
        proof {
            let ret = if func.return_type is None && spec_is_resolved(ie_fn_body(cx, func.body)) {
                Some(ie_fn_body(cx, func.body))
            } else {
                None
            };
            assert(func_names(f1) =~= func_names(f0));
            assert forall|j: int| 0 <= j < f0.len() implies (if find_name(func_names(f0), func.name@, 0) == Some(j) {
                signature_inferred(f0[j], #[trigger] self.symbols.functions@[j], tv, inf, ret)
            } else {
                self.symbols.functions@[j] == f0[j]
            }) by {
                if targets@.len() == 0 {
                    assert forall|k: int| 0 <= k < f0[j].params@.len() implies inferred_type(f0[j].params@[k].1@,
                        f0[j].params@[k].0@, tv, inf) == f0[j].params@[k].1@ by {
                        assert(tv.len() == 0);
                    }
                }
            }
            assert forall|j: int| 0 <= j < f0.len() implies func_refined(f0[j], #[trigger] self.symbols.functions@[j]) by {
                if find_name(func_names(f0), func.name@, 0) == Some(j) {
                    lemma_signature_refined(f0[j], self.symbols.functions@[j], tv, inf, ret);
                } else {
                    lemma_table_refined_refl(old(self).symbols);
                    assert(func_refined(f0[j], f0[j]));
                }
            }
        }
    }
}

/// `new_cs` is `cs` with the first class named `name` changed as `ok`
/// says, and every other class as it was.
pub open spec fn class_updated(cs: Seq<ClassInfo>, new_cs: Seq<ClassInfo>, name: Seq<char>,
    ok: spec_fn(ClassInfo, ClassInfo) -> bool) -> bool {
    &&& new_cs.len() == cs.len()
    &&& forall|j: int| 0 <= j < cs.len() ==> if find_name(class_names(cs), name, 0) == Some(j) {
        ok(cs[j], #[trigger] new_cs[j])
    } else {
        new_cs[j] == cs[j]
    }
}

/// A class with the constructor parameters inferred.
pub open spec fn ctor_inferred(targets: Seq<Seq<char>>, inf: spec_fn(Seq<char>) -> Option<TypeV>) -> spec_fn(ClassInfo, ClassInfo) -> bool {
    |o: ClassInfo, n: ClassInfo| {
        &&& n.name == o.name
        &&& n.parent == o.parent
        &&& n.span == o.span
        &&& n.attributes == o.attributes
        &&& n.methods == o.methods
        &&& params_updated(o.params@, n.params@, targets, inf)
    }
}

/// A class whose first attribute named `attr` gets type `t` if it was
/// unknown.
pub open spec fn attribute_inferred(attr: Seq<char>, t: TypeV) -> spec_fn(ClassInfo, ClassInfo) -> bool {
    |o: ClassInfo, n: ClassInfo| {
        &&& n.name == o.name
        &&& n.parent == o.parent
        &&& n.span == o.span
        &&& n.params == o.params
        &&& n.methods == o.methods
        &&& n.attributes@.len() == o.attributes@.len()
        &&& forall|a: int| 0 <= a < o.attributes@.len() ==> if find_name(attr_names(o.attributes@), attr, 0) == Some(a)
            && o.attributes@[a].hulk_type@ == TypeV::Unknown {
            (#[trigger] n.attributes@[a]).name == o.attributes@[a].name && n.attributes@[a].span == o.attributes@[a].span
                && n.attributes@[a].hulk_type@ == t
        } else {
            n.attributes@[a] == o.attributes@[a]
        }
    }
}

/// A class whose first method named `method` has its parameter types
/// inferred.
pub open spec fn method_inferred(method: Seq<char>, targets: Seq<Seq<char>>, inf: spec_fn(Seq<char>) -> Option<TypeV>) -> spec_fn(ClassInfo, ClassInfo) -> bool {
    |o: ClassInfo, n: ClassInfo| {
        &&& n.name == o.name
        &&& n.parent == o.parent
        &&& n.span == o.span
        &&& n.params == o.params
        &&& n.attributes == o.attributes
        &&& n.methods@.len() == o.methods@.len()
        &&& forall|m: int| 0 <= m < o.methods@.len() ==> if find_name(func_names(o.methods@), method, 0) == Some(m) {
            signature_inferred(o.methods@[m], #[trigger] n.methods@[m], targets, inf, None)
        } else {
            n.methods@[m] == o.methods@[m]
        }
    }
}

/// The constraints of a list of attribute initializers.
pub open spec fn cc_inits(cx: IfCtx, attrs: Seq<crate::ast::Attribute>, targets: Seq<Seq<char>>) -> Seq<Constraint>
    decreases attrs.len(),
{
    if attrs.len() == 0 {
        Seq::empty()
    } else {
        cc_inits(cx, attrs.drop_last(), targets) + cc_expr(cx, attrs.last().init, targets)
    }
}

proof fn lemma_class_updated_refined(old: SymbolTable, new: SymbolTable, name: Seq<char>,
    ok: spec_fn(ClassInfo, ClassInfo) -> bool)
    requires
        class_updated(old.classes@, new.classes@, name, ok),
        forall|o: ClassInfo, n: ClassInfo| #[trigger] ok(o, n) ==> class_refined(o, n),
        new.functions == old.functions,
        new.scope_stack() == old.scope_stack(),
        new.current_class == old.current_class,
    ensures
        table_refined(old, new),
{
    lemma_table_refined_refl(old);
    assert forall|j: int| 0 <= j < old.classes@.len() implies class_refined(old.classes@[j], #[trigger] new.classes@[j]) by {
        if find_name(class_names(old.classes@), name, 0) == Some(j) {
            assert(ok(old.classes@[j], new.classes@[j]));
        }
    }
}

impl TypeInferer {
    /// Infers the unannotated parameter types of a method of class
    /// `class_name` from its body.
    fn infer_method_params(&mut self, class_name: &str, method: &Method)
        ensures
            ({
                let targets = unannotated(method.params@);
                let inf = inference(old(self).symbols.classes@, cc_fn_body(old(self).cx(), method.body, targets));
                class_updated(old(self).symbols.classes@, final(self).symbols.classes@, class_name@, method_inferred(
                    method.name@, targets, inf))
            }),
            final(self).symbols.functions == old(self).symbols.functions,
            final(self).symbols.scope_stack() == old(self).symbols.scope_stack(),
            final(self).symbols.current_class == old(self).symbols.current_class,
            final(self).current_class == old(self).current_class,
            final(self).errors == old(self).errors,
            table_refined(old(self).symbols, final(self).symbols),
    {
        let ghost cx = old(self).cx();
        let ghost c0 = self.symbols.classes@;
        let targets = unannotated_names(&method.params);
        let ghost tv = string_views(targets@);
        let ghost inf = inference(cx.0, cc_fn_body(cx, method.body, tv));
        let ghost ok = method_inferred(method.name@, tv, inf);
        if targets.len() == 0 {
            proof {
                assert forall|j: int| 0 <= j < c0.len() implies (if find_name(class_names(c0), class_name@, 0) == Some(j) {
                    ok(c0[j], #[trigger] self.symbols.classes@[j])
                } else {
                    self.symbols.classes@[j] == c0[j]
                }) by {
                    let c = c0[j];
                    assert forall|m: int| 0 <= m < c.methods@.len() implies (if find_name(func_names(c.methods@),
                        method.name@, 0) == Some(m) {
                        signature_inferred(c.methods@[m], #[trigger] c.methods@[m], tv, inf, None)
                    } else {
                        c.methods@[m] == c.methods@[m]
                    }) by {
                        assert forall|k: int| 0 <= k < c.methods@[m].params@.len() implies (
                            #[trigger] c.methods@[m].params@[k]).0 == c.methods@[m].params@[k].0
                            && c.methods@[m].params@[k].1@ == inferred_type(c.methods@[m].params@[k].1@,
                            c.methods@[m].params@[k].0@, tv, inf) by {
                            assert(tv.len() == 0);
                        }
                    }
                }
                lemma_method_inferred_refines(method.name@, tv, inf);
                lemma_class_updated_refined(old(self).symbols, self.symbols, class_name@, ok);
            }
            return;
        }
        self.constraints = Vec::new();
        assert(self.cons() =~= Seq::<Constraint>::empty());
        self.collect_constraints_body(&method.body, &targets);
        assert(self.cons() =~= cc_fn_body(cx, method.body, tv));
        let inferred = self.infer_all(&targets);
        match index_of_class(&self.symbols.classes, class_name) {
            Some(j) => {
                let mut class = self.symbols.classes.remove(j);
                let ghost cl0 = class;
                match index_of_func(&class.methods, method.name.as_str()) {
                    Some(m) => {
                        let mut f = class.methods.remove(m);
                        let ghost fm = f;
                        apply_inference(&mut f.params, &targets, &inferred, Ghost(inf));
                        class.methods.insert(m, f);
                        proof {
                            assert forall|q: int| 0 <= q < cl0.methods@.len() implies (if find_name(func_names(
                                cl0.methods@), method.name@, 0) == Some(q) {
                                signature_inferred(cl0.methods@[q], #[trigger] class.methods@[q], tv, inf, None)
                            } else {
                                class.methods@[q] == cl0.methods@[q]
                            }) by {}
                        }
                    },
                    None => {
                        proof {
                            super::symbol_table::lemma_find_name(func_names(cl0.methods@), method.name@, 0);
                        }
                    },
                }
                self.symbols.classes.insert(j, class);
                proof {
                    assert(ok(cl0, class));
                }
            },
            None => {},
        }
        proof {
            lemma_method_inferred_refines(method.name@, tv, inf);
            lemma_class_updated_refined(old(self).symbols, self.symbols, class_name@, ok);
        }
    }
}

proof fn lemma_method_inferred_refines(method: Seq<char>, targets: Seq<Seq<char>>, inf: spec_fn(Seq<char>) -> Option<TypeV>)
    ensures
        forall|o: ClassInfo, n: ClassInfo| #[trigger] method_inferred(method, targets, inf)(o, n) ==> class_refined(o, n),
{
    assert forall|o: ClassInfo, n: ClassInfo| #[trigger] method_inferred(method, targets, inf)(o, n) implies class_refined(o,
        n) by {
        assert forall|k: int| 0 <= k < o.methods@.len() implies func_refined(o.methods@[k], #[trigger] n.methods@[k]) by {
            if find_name(func_names(o.methods@), method, 0) == Some(k) {
                lemma_signature_refined(o.methods@[k], n.methods@[k], targets, inf, None);
            }
        }
        assert forall|k: int| 0 <= k < o.attributes@.len() implies attr_refined(o.attributes@[k],
            #[trigger] n.attributes@[k]) by {}
        assert forall|k: int| 0 <= k < o.params@.len() implies (#[trigger] n.params@[k]).0 == o.params@[k].0 && refined(
            o.params@[k].1@, n.params@[k].1@, false) by {}
    }
}

proof fn lemma_attribute_inferred_refines(attr: Seq<char>, t: TypeV)
    ensures
        forall|o: ClassInfo, n: ClassInfo| #[trigger] attribute_inferred(attr, t)(o, n) ==> class_refined(o, n),
{
    assert forall|o: ClassInfo, n: ClassInfo| #[trigger] attribute_inferred(attr, t)(o, n) implies class_refined(o, n) by {
        assert forall|k: int| 0 <= k < o.methods@.len() implies func_refined(o.methods@[k], #[trigger] n.methods@[k]) by {
            assert forall|q: int| 0 <= q < o.methods@[k].params@.len() implies (#[trigger] n.methods@[k].params@[q]).0
                == o.methods@[k].params@[q].0 && refined(o.methods@[k].params@[q].1@, n.methods@[k].params@[q].1@,
                false) by {}
        }
        assert forall|k: int| 0 <= k < o.attributes@.len() implies attr_refined(o.attributes@[k],
            #[trigger] n.attributes@[k]) by {
            if find_name(attr_names(o.attributes@), attr, 0) == Some(k) && o.attributes@[k].hulk_type@ == TypeV::Unknown {
            }
        }
        assert forall|k: int| 0 <= k < o.params@.len() implies (#[trigger] n.params@[k]).0 == o.params@[k].0 && refined(
            o.params@[k].1@, n.params@[k].1@, false) by {}
    }
}

proof fn lemma_ctor_inferred_refines(targets: Seq<Seq<char>>, inf: spec_fn(Seq<char>) -> Option<TypeV>)
    ensures
        forall|o: ClassInfo, n: ClassInfo| #[trigger] ctor_inferred(targets, inf)(o, n) ==> class_refined(o, n),
{
    assert forall|o: ClassInfo, n: ClassInfo| #[trigger] ctor_inferred(targets, inf)(o, n) implies class_refined(o, n) by {
        lemma_params_updated_refined(o.params@, n.params@, targets, inf);
        assert forall|k: int| 0 <= k < o.methods@.len() implies func_refined(o.methods@[k], #[trigger] n.methods@[k]) by {
            assert forall|q: int| 0 <= q < o.methods@[k].params@.len() implies (#[trigger] n.methods@[k].params@[q]).0
                == o.methods@[k].params@[q].0 && refined(o.methods@[k].params@[q].1@, n.methods@[k].params@[q].1@,
                false) by {}
        }
        assert forall|k: int| 0 <= k < o.attributes@.len() implies attr_refined(o.attributes@[k],
            #[trigger] n.attributes@[k]) by {}
    }
}

impl TypeInferer {
    /// Infers the type of an unannotated attribute of class `class_name`
    /// from its initializer.
    fn infer_attribute(&mut self, class_name: &str, attr: &crate::ast::Attribute)
        ensures
            ({
                let t = ie_expr(old(self).cx(), attr.init);
                if attr.type_ann is None && spec_is_resolved(t) {
                    class_updated(old(self).symbols.classes@, final(self).symbols.classes@, class_name@,
                        attribute_inferred(attr.name@, t))
                } else {
                    final(self).symbols.classes == old(self).symbols.classes
                }
            }),
            final(self).symbols.functions == old(self).symbols.functions,
            final(self).symbols.scope_stack() == old(self).symbols.scope_stack(),
            final(self).symbols.current_class == old(self).symbols.current_class,
            final(self).current_class == old(self).current_class,
            final(self).errors == old(self).errors,
            final(self).constraints == old(self).constraints,
            table_refined(old(self).symbols, final(self).symbols),
    {
        proof {
            lemma_table_refined_refl(self.symbols);
        }
        if attr.type_ann.is_some() {
            return;
        }
        let inferred = self.infer_expr_type(&attr.init);
        if !inferred.is_resolved() {
            return;
        }
        let ghost t = inferred@;
        let ghost c0 = self.symbols.classes@;
        let ghost ok = attribute_inferred(attr.name@, t);
        match index_of_class(&self.symbols.classes, class_name) {
            Some(j) => {
                let mut class = self.symbols.classes.remove(j);
                let ghost cl0 = class;
                match index_of_attr(&class.attributes, attr.name.as_str()) {
                    Some(a) => {
                        if matches!(class.attributes[a].hulk_type, HulkType::Unknown) {
                            let mut info = class.attributes.remove(a);
                            info.hulk_type = inferred;
                            class.attributes.insert(a, info);
                        }
                    },
                    None => {
                        proof {
                            super::symbol_table::lemma_find_name(attr_names(cl0.attributes@), attr.name@, 0);
                        }
                    },
                }
                self.symbols.classes.insert(j, class);
                proof {
                    assert(ok(cl0, class));
                }
            },
            None => {},
        }
        proof {
            lemma_attribute_inferred_refines(attr.name@, t);
            lemma_class_updated_refined(old(self).symbols, self.symbols, class_name@, ok);
        }
    }

    /// Infers the unannotated constructor parameter types of `class` from
    /// the attribute initializers and the parent arguments.
    fn infer_ctor_params(&mut self, class: &ClassDecl)
        ensures
            ({
                let targets = unannotated(class.params@);
                let cx = old(self).cx();
                let inf = inference(cx.0, cc_inits(cx, class.attributes@, targets) + cc_list(cx, class.parent_args@,
                    targets));
                class_updated(old(self).symbols.classes@, final(self).symbols.classes@, class.name@, ctor_inferred(
                    targets, inf))
            }),
            final(self).symbols.functions == old(self).symbols.functions,
            final(self).symbols.scope_stack() == old(self).symbols.scope_stack(),
            final(self).symbols.current_class == old(self).symbols.current_class,
            final(self).current_class == old(self).current_class,
            final(self).errors == old(self).errors,
            table_refined(old(self).symbols, final(self).symbols),
    {
        let ghost cx = old(self).cx();
        let ghost c0 = self.symbols.classes@;
        let targets = unannotated_names(&class.params);
        let ghost tv = string_views(targets@);
        let ghost inf = inference(cx.0, cc_inits(cx, class.attributes@, tv) + cc_list(cx, class.parent_args@, tv));
        let ghost ok = ctor_inferred(tv, inf);
        proof {
            lemma_ctor_inferred_refines(tv, inf);
        }
        if targets.len() == 0 {
            proof {
                assert forall|j: int| 0 <= j < c0.len() implies (if find_name(class_names(c0), class.name@, 0) == Some(j) {
                    ok(c0[j], #[trigger] self.symbols.classes@[j])
                } else {
                    self.symbols.classes@[j] == c0[j]
                }) by {
                    assert forall|k: int| 0 <= k < c0[j].params@.len() implies (#[trigger] c0[j].params@[k]).0
                        == c0[j].params@[k].0 && c0[j].params@[k].1@ == inferred_type(c0[j].params@[k].1@,
                        c0[j].params@[k].0@, tv, inf) by {
                        assert(tv.len() == 0);
                    }
                }
                lemma_class_updated_refined(old(self).symbols, self.symbols, class.name@, ok);
            }
            return;
        }
        self.constraints = Vec::new();
        assert(self.cons() =~= Seq::<Constraint>::empty());
        let mut i: usize = 0;
        assert(class.attributes@.subrange(0, 0) =~= Seq::<crate::ast::Attribute>::empty());
        while i < class.attributes.len()
            invariant
                i <= class.attributes.len(),
                cx == old(self).cx(),
                tv == string_views(targets@),
                self.symbols == old(self).symbols,
                self.current_class == old(self).current_class,
                self.errors == old(self).errors,
                self.cons() == cc_inits(cx, class.attributes@.subrange(0, i as int), tv),
            decreases class.attributes.len() - i,
        {
            let ghost cur = class.attributes@.subrange(0, i + 1);
            assert(cur.drop_last() =~= class.attributes@.subrange(0, i as int));
            assert(cur.last() == class.attributes@[i as int]);
            self.collect_constraints_expr(&class.attributes[i].init, &targets);
            i = i + 1;
        }
        assert(class.attributes@.subrange(0, class.attributes@.len() as int) =~= class.attributes@);
        let ghost m = *self;
        self.collect_list(&class.parent_args, &targets);
        assert(self.cons() == cc_inits(cx, class.attributes@, tv) + cc_list(cx, class.parent_args@, tv));
        let inferred = self.infer_all(&targets);
        match index_of_class(&self.symbols.classes, class.name.as_str()) {
            Some(j) => {
                let mut info = self.symbols.classes.remove(j);
                let ghost cl0 = info;
                apply_inference(&mut info.params, &targets, &inferred, Ghost(inf));
                self.symbols.classes.insert(j, info);
                proof {
                    assert(ok(cl0, info));
                }
            },
            None => {},
        }
        proof {
            lemma_class_updated_refined(old(self).symbols, self.symbols, class.name@, ok);
        }
    }

    /// Infers the constructor parameters, then the attribute types, then
    /// the method parameters of a class.
    fn infer_class(&mut self, class: &ClassDecl)
        requires
            old(self).current_class is None,
        ensures
            class_infer_steps(old(self).symbols, final(self).symbols, *class),
            table_refined(old(self).symbols, final(self).symbols),
            final(self).current_class is None,
            final(self).errors == old(self).errors,
    {
        self.current_class = Some(class.name.clone());
        let ghost start = self.symbols;
        proof {
            lemma_table_refined_refl(start);
        }
        self.infer_ctor_params(class);
        let ghost mut trace: Seq<SymbolTable> = seq![start, self.symbols];
        assert(ctor_infer_step(trace[0], trace[1], *class));
        let mut i: usize = 0;
        while i < class.attributes.len()
            invariant
                i <= class.attributes.len(),
                table_refined(start, self.symbols),
                self.errors == old(self).errors,
                self.current_class matches Some(n) && n@ == class.name@,
                trace.len() == 2 + i,
                trace[0] == start,
                trace[trace.len() - 1] == self.symbols,
                ctor_infer_step(trace[0], trace[1], *class),
                forall|j: int|
                    0 <= j < i ==> attribute_infer_step(trace[1 + j], trace[2 + j], class.name@,
                        #[trigger] class.attributes@[j]),
            decreases class.attributes.len() - i,
        {
            let ghost m = self.symbols;
            self.infer_attribute(class.name.as_str(), &class.attributes[i]);
            proof {
                lemma_table_refined_trans(start, m, self.symbols);
                assert(attribute_infer_step(m, self.symbols, class.name@, class.attributes@[i as int]));
                trace = trace.push(self.symbols);
            }
            i = i + 1;
        }
        let ghost na = class.attributes@.len();
        let mut q: usize = 0;
        while q < class.methods.len()
            invariant
                q <= class.methods.len(),
                na == class.attributes@.len(),
                table_refined(start, self.symbols),
                self.errors == old(self).errors,
                self.current_class matches Some(n) && n@ == class.name@,
                trace.len() == 2 + na + q,
                trace[0] == start,
                trace[trace.len() - 1] == self.symbols,
                ctor_infer_step(trace[0], trace[1], *class),
                forall|j: int|
                    0 <= j < na ==> attribute_infer_step(trace[1 + j], trace[2 + j], class.name@,
                        #[trigger] class.attributes@[j]),
                forall|j: int|
                    0 <= j < q ==> method_infer_step(trace[1 + na + j], trace[2 + na + j], class.name@,
                        #[trigger] class.methods@[j]),
            decreases class.methods.len() - q,
        {
            let ghost m = self.symbols;
            self.infer_method_params(class.name.as_str(), &class.methods[q]);
            proof {
                lemma_table_refined_trans(start, m, self.symbols);
                assert(method_infer_step(m, self.symbols, class.name@, class.methods@[q as int]));
                trace = trace.push(self.symbols);
            }
            q = q + 1;
        }
        self.current_class = None;
        assert(class_infer_steps(start, self.symbols, *class));
    }
}

/// The inference context over table `t`, inside the class named `cur`.
pub open spec fn table_cx(t: SymbolTable, cur: Option<Seq<char>>) -> IfCtx {
    (t.classes@, t.functions@, cur)
}

/// `b` keeps the scopes and the current class of `a`.
pub open spec fn same_frame(a: SymbolTable, b: SymbolTable) -> bool {
    b.scope_stack() == a.scope_stack() && b.current_class == a.current_class
}

/// Table `b` is table `a` after inferring the global function `f`.
pub open spec fn function_infer_step(a: SymbolTable, b: SymbolTable, f: FunctionDecl) -> bool {
    function_step(table_cx(a, None), b.functions@, f) && b.classes == a.classes && same_frame(a, b)
}

/// Table `b` is table `a` after inferring the constructor parameters of `c`.
pub open spec fn ctor_infer_step(a: SymbolTable, b: SymbolTable, c: ClassDecl) -> bool {
    let targets = unannotated(c.params@);
    let cx = table_cx(a, Some(c.name@));
    let inf = inference(cx.0, cc_inits(cx, c.attributes@, targets) + cc_list(cx, c.parent_args@, targets));
    class_updated(a.classes@, b.classes@, c.name@, ctor_inferred(targets, inf)) && b.functions == a.functions
        && same_frame(a, b)
}

/// Table `b` is table `a` after inferring the attribute `attr` of the
/// class named `cname`.
pub open spec fn attribute_infer_step(a: SymbolTable, b: SymbolTable, cname: Seq<char>, attr: crate::ast::Attribute) -> bool {
    let t = ie_expr(table_cx(a, Some(cname)), attr.init);
    &&& if attr.type_ann is None && spec_is_resolved(t) {
        class_updated(a.classes@, b.classes@, cname, attribute_inferred(attr.name@, t))
    } else {
        b.classes == a.classes
    }
    &&& b.functions == a.functions
    &&& same_frame(a, b)
}

/// Table `b` is table `a` after inferring the parameters of the method
/// `m` of the class named `cname`.
pub open spec fn method_infer_step(a: SymbolTable, b: SymbolTable, cname: Seq<char>, m: Method) -> bool {
    let targets = unannotated(m.params@);
    let inf = inference(a.classes@, cc_fn_body(table_cx(a, Some(cname)), m.body, targets));
    class_updated(a.classes@, b.classes@, cname, method_inferred(m.name@, targets, inf)) && b.functions
        == a.functions && same_frame(a, b)
}

/// Table `b` is table `a` after inferring class `c`: its constructor
/// parameters, then each attribute, then each method, in order.
pub open spec fn class_infer_steps(a: SymbolTable, b: SymbolTable, c: ClassDecl) -> bool {
    let na = c.attributes@.len();
    let nm = c.methods@.len();
    exists|ts: Seq<SymbolTable>|
        #![trigger ts[0]]
        ts.len() == 2 + na + nm && ts[0] == a && ts[ts.len() - 1] == b && ctor_infer_step(ts[0], ts[1], c) && (
        forall|i: int| 0 <= i < na ==> attribute_infer_step(ts[1 + i], ts[2 + i], c.name@, #[trigger] c.attributes@[i]))
            && (forall|i: int|
            0 <= i < nm ==> method_infer_step(ts[1 + na + i], ts[2 + na + i], c.name@, #[trigger] c.methods@[i]))
}

/// Table `b` is table `a` after inferring program `p`: each global
/// function, then each class, in order.
pub open spec fn program_infer_steps(a: SymbolTable, b: SymbolTable, p: Program) -> bool {
    let nf = p.functions@.len();
    let nc = p.classes@.len();
    exists|ts: Seq<SymbolTable>|
        #![trigger ts[0]]
        ts.len() == 1 + nf + nc && ts[0] == a && ts[ts.len() - 1] == b && (forall|i: int|
            0 <= i < nf ==> function_infer_step(ts[i], ts[i + 1], #[trigger] p.functions@[i])) && (forall|i: int|
            0 <= i < nc ==> class_infer_steps(ts[nf + i], ts[nf + i + 1], #[trigger] p.classes@[i]))
}

/// Runs type inference on a program whose declarations are collected in
/// `symbols`: first the parameter and return types of the global
/// functions, then per class the constructor parameters, the attributes
/// and the method parameters.  Only unknown types are filled in; every
/// declaration keeps its name, parent, span and parameters; no
/// diagnostic is produced.
pub fn infer_types(program: &Program, symbols: &mut SymbolTable) -> (errors: Vec<CompilerError>)
    ensures
        errors@.len() == 0,
        program_infer_steps(*old(symbols), *final(symbols), *program),
        table_refined(*old(symbols), *final(symbols)),
{
    let mut table = SymbolTable { functions: Vec::new(), classes: Vec::new(), scopes: Vec::new(), current_class: None };
    std::mem::swap(&mut table, symbols);
    assert(table == *old(symbols));
    let mut inferer = TypeInferer { symbols: table, errors: Vec::new(), constraints: Vec::new(), current_class: None };
    let ghost start = inferer.symbols;
    proof {
        lemma_table_refined_refl(start);
    }
    let ghost mut trace: Seq<SymbolTable> = seq![start];
    let mut i: usize = 0;
    while i < program.functions.len()
        invariant
            i <= program.functions.len(),
            table_refined(start, inferer.symbols),
            inferer.errors@.len() == 0,
            inferer.current_class is None,
            trace.len() == 1 + i,
            trace[0] == start,
            trace[trace.len() - 1] == inferer.symbols,
            forall|j: int| 0 <= j < i ==> function_infer_step(trace[j], trace[j + 1], #[trigger] program.functions@[j]),
        decreases program.functions.len() - i,
    {
        let ghost m = inferer.symbols;
        inferer.infer_function_params(&program.functions[i]);
        proof {
            lemma_table_refined_trans(start, m, inferer.symbols);
            assert(function_infer_step(m, inferer.symbols, program.functions@[i as int]));
            trace = trace.push(inferer.symbols);
        }
        i = i + 1;
    }
    let ghost nf = program.functions@.len();
    let mut k: usize = 0;
    while k < program.classes.len()
        invariant
            k <= program.classes.len(),
            nf == program.functions@.len(),
            table_refined(start, inferer.symbols),
            inferer.errors@.len() == 0,
            inferer.current_class is None,
            trace.len() == 1 + nf + k,
            trace[0] == start,
            trace[trace.len() - 1] == inferer.symbols,
            forall|j: int| 0 <= j < nf ==> function_infer_step(trace[j], trace[j + 1], #[trigger] program.functions@[j]),
            forall|j: int| 0 <= j < k ==> class_infer_steps(trace[nf + j], trace[nf + j + 1], #[trigger] program.classes@[j]),
        decreases program.classes.len() - k,
    {
        let ghost m = inferer.symbols;
        inferer.infer_class(&program.classes[k]);
        proof {
            lemma_table_refined_trans(start, m, inferer.symbols);
            assert(class_infer_steps(m, inferer.symbols, program.classes@[k as int]));
            trace = trace.push(inferer.symbols);
        }
        k = k + 1;
    }
    let ghost fin = inferer.symbols;
    std::mem::swap(&mut inferer.symbols, symbols);
    assert(*symbols == fin);
    assert(program_infer_steps(start, fin, *program));
    inferer.errors
}

} // verus!

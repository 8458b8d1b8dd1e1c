//! Pass 1: the declaration collector.
//!
//! Walks the program once and registers every top-level class and function
//! in the symbol table without analysing bodies, so that later passes can
//! reference any symbol regardless of declaration order.

use vstd::prelude::*;
use crate::ast::{Atom, Attribute, ClassDecl, Expression, FunctionDecl, Method, Param, Program};
use crate::tokens;
use crate::text::str_eq;
use super::errors::{CompilerError, Severity, diag_is};
use super::symbol_table::{
    AttrInfo, ClassInfo, FuncInfo, SymbolTable, find_class, find_name, func_names,
    class_names, param_views, string_views, contains_string, params_equal,
    lemma_find_name, index_of_class,
};
use super::types::{HulkType, TypeV, spec_from_name};

verus! {

/// The type a parameter's annotation names, or `Unknown` without one.
pub open spec fn spec_annotated(ann: Option<String>) -> TypeV {
    match ann {
        Some(a) => spec_from_name(a@),
        None => TypeV::Unknown,
    }
}

fn annotated_type(ann: &Option<String>) -> (t: HulkType)
    ensures
        t@ == spec_annotated(*ann),
{
    match ann {
        Some(a) => HulkType::from_name(a.as_str()),
        None => HulkType::Unknown,
    }
}

/// The parameter list of a declaration, typed by its annotations.
pub open spec fn spec_params(ps: Seq<Param>) -> Seq<(Seq<char>, TypeV)> {
    ps.map_values(|p: Param| (p.name@, spec_annotated(p.type_ann)))
}

fn declared_params(ps: &Vec<Param>) -> (r: Vec<(String, HulkType)>)
    ensures
        param_views(r@) == spec_params(ps@),
{
    let mut r: Vec<(String, HulkType)> = Vec::new();
    let mut i: usize = 0;
    while i < ps.len()
        invariant
            i <= ps@.len(),
            param_views(r@) == spec_params(ps@.subrange(0, i as int)),
        decreases ps.len() - i,
    {
        let ghost prev = r@;
        r.push((ps[i].name.clone(), annotated_type(&ps[i].type_ann)));
        assert(param_views(r@) =~= param_views(prev).push((ps@[i as int].name@, spec_annotated(ps@[i as int].type_ann))));
        assert(ps@.subrange(0, i + 1) =~= ps@.subrange(0, i as int).push(ps@[i as int]));
        assert(spec_params(ps@.subrange(0, i + 1)) =~= spec_params(ps@.subrange(0, i as int)).push((ps@[i as int].name@, spec_annotated(ps@[i as int].type_ann))));
        i = i + 1;
    }
    assert(ps@.subrange(0, ps@.len() as int) =~= ps@);
    r
}

/// The type of a simple initializer: literals, a parenthesized simple
/// initializer, a unary minus (Number) or not (Boolean), and
/// `new ClassName(...)`; `Unknown` for anything else.
pub open spec fn spec_infer_type_from_expr(e: Expression) -> TypeV
    decreases e,
{
    match e {
        Expression::Atom(a) => match *a {
            Atom::NumberLiteral(_) => TypeV::Number,
            Atom::StringLiteral(_) => TypeV::Str,
            Atom::BooleanLiteral(_) => TypeV::Boolean,
            Atom::Group(g) => spec_infer_type_from_expr(g.expression),
            _ => TypeV::Unknown,
        },
        Expression::UnaryOp(u) => match u.op {
            tokens::UnaryOp::Minus(_) => TypeV::Number,
            tokens::UnaryOp::Not(_) => TypeV::Boolean,
        },
        Expression::NewInstance(inst) => TypeV::Class(inst.type_ident@),
        _ => TypeV::Unknown,
    }
}

/// Attempts to infer a type from a simple initializer expression.
pub fn infer_type_from_expr(expr: &Expression) -> (t: HulkType)
    ensures
        t@ == spec_infer_type_from_expr(*expr),
    decreases expr,
{
    match expr {
        Expression::Atom(atom) => match &**atom {
            Atom::NumberLiteral(_) => HulkType::Number,
            Atom::StringLiteral(_) => HulkType::String,
            Atom::BooleanLiteral(_) => HulkType::Boolean,
            Atom::Group(g) => infer_type_from_expr(&g.expression),
            _ => HulkType::Unknown,
        },
        Expression::UnaryOp(unary) => match &unary.op {
            tokens::UnaryOp::Minus(_) => HulkType::Number,
            tokens::UnaryOp::Not(_) => HulkType::Boolean,
        },
        Expression::NewInstance(inst) => HulkType::Class(inst.type_ident.clone()),
        _ => HulkType::Unknown,
    }
}

/// The first parameter named `name`, with its type.
pub open spec fn spec_param_type_of(ps: Seq<(Seq<char>, TypeV)>, name: Seq<char>, i: int) -> TypeV
    decreases ps.len() - i,
{
    if i < 0 || i >= ps.len() {
        TypeV::Unknown
    } else if ps[i].0 == name {
        ps[i].1
    } else {
        spec_param_type_of(ps, name, i + 1)
    }
}

/// The type recorded for an attribute: its annotation; else the type of a
/// simple initializer; else, for an initializer that is a constructor
/// parameter, that parameter's type; else `Unknown`.
pub open spec fn spec_attr_type(a: Attribute, params: Seq<(Seq<char>, TypeV)>) -> TypeV {
    match a.type_ann {
        Some(ann) => spec_from_name(ann@),
        None => {
            let inferred = spec_infer_type_from_expr(a.init);
            if inferred is Unknown {
                match a.init {
                    Expression::Atom(atom) => match *atom {
                        Atom::Variable(v) => spec_param_type_of(params, v.name@, 0),
                        _ => TypeV::Unknown,
                    },
                    _ => TypeV::Unknown,
                }
            } else {
                inferred
            }
        },
    }
}

fn param_type_of(ps: &Vec<(String, HulkType)>, name: &str) -> (t: HulkType)
    ensures
        t@ == spec_param_type_of(param_views(ps@), name@, 0),
{
    let ghost pv = param_views(ps@);
    let mut i: usize = 0;
    while i < ps.len()
        invariant
            i <= ps@.len(),
            pv == param_views(ps@),
            spec_param_type_of(pv, name@, 0) == spec_param_type_of(pv, name@, i as int),
        decreases ps.len() - i,
    {
        if str_eq(ps[i].0.as_str(), name) {
            return ps[i].1.duplicate();
        }
        i = i + 1;
    }
    HulkType::Unknown
}

fn attribute_type(a: &Attribute, params: &Vec<(String, HulkType)>) -> (t: HulkType)
    ensures
        t@ == spec_attr_type(*a, param_views(params@)),
{
    match &a.type_ann {
        Some(ann) => HulkType::from_name(ann.as_str()),
        None => {
            let inferred = infer_type_from_expr(&a.init);
            if matches!(inferred, HulkType::Unknown) {
                match &a.init {
                    Expression::Atom(atom) => match &**atom {
                        Atom::Variable(var) => param_type_of(params, var.name.as_str()),
                        _ => HulkType::Unknown,
                    },
                    _ => HulkType::Unknown,
                }
            } else {
                inferred
            }
        },
    }
}

/// The view of a recorded signature: name, typed parameters, return type, span.
pub type SigView = (Seq<char>, Seq<(Seq<char>, TypeV)>, TypeV, tokens::Span);

pub open spec fn sig_view(f: FuncInfo) -> SigView {
    (f.name@, param_views(f.params@), f.return_type@, f.span)
}

pub open spec fn method_sig(m: Method) -> SigView {
    (m.name@, spec_params(m.params@), spec_annotated(m.return_type), m.span)
}

pub open spec fn sig_names(t: Seq<SigView>) -> Seq<Seq<char>> {
    t.map_values(|s: SigView| s.0)
}

/// The method table of a class: the first declaration of each name, in order.
pub open spec fn spec_method_table(ms: Seq<Method>) -> Seq<SigView>
    decreases ms.len(),
{
    if ms.len() == 0 {
        Seq::empty()
    } else {
        let t = spec_method_table(ms.drop_last());
        if sig_names(t).contains(ms.last().name@) {
            t
        } else {
            t.push(method_sig(ms.last()))
        }
    }
}

/// The methods that repeat an earlier method's name, in order.
pub open spec fn spec_method_dups(ms: Seq<Method>) -> Seq<Method>
    decreases ms.len(),
{
    if ms.len() == 0 {
        Seq::empty()
    } else {
        let d = spec_method_dups(ms.drop_last());
        if sig_names(spec_method_table(ms.drop_last())).contains(ms.last().name@) {
            d.push(ms.last())
        } else {
            d
        }
    }
}

/// The report of a duplicated declaration of the given kind.
pub open spec fn is_duplicate_report(e: CompilerError, kind: Seq<char>, name: Seq<char>, span: tokens::Span) -> bool {
    diag_is(e, "E103"@, kind + " '"@ + name + "' ya fue definida anteriormente"@, span, Severity::Error, None)
}

/// Collects the methods of a class: the first declaration of each name is
/// kept; every later one is reported as a duplicate.
fn collect_methods(methods: &Vec<Method>, errors: &mut Vec<CompilerError>) -> (r: Vec<FuncInfo>)
    ensures
        r@.map_values(|f: FuncInfo| sig_view(f)) == spec_method_table(methods@),
        final(errors)@.len() == old(errors)@.len() + spec_method_dups(methods@).len(),
        final(errors)@.subrange(0, old(errors)@.len() as int) == old(errors)@,
        forall|k: int| 0 <= k < spec_method_dups(methods@).len() ==> is_duplicate_report(
            #[trigger] final(errors)@[old(errors)@.len() + k], "Método"@, spec_method_dups(methods@)[k].name@,
            spec_method_dups(methods@)[k].span),
{
    let mut r: Vec<FuncInfo> = Vec::new();
    let mut i: usize = 0;
    let ghost e0 = errors@;
    while i < methods.len()
        invariant
            i <= methods@.len(),
            r@.map_values(|f: FuncInfo| sig_view(f)) == spec_method_table(methods@.subrange(0, i as int)),
            errors@.len() == e0.len() + spec_method_dups(methods@.subrange(0, i as int)).len(),
            errors@.subrange(0, e0.len() as int) == e0,
            forall|k: int| 0 <= k < spec_method_dups(methods@.subrange(0, i as int)).len() ==> is_duplicate_report(
                #[trigger] errors@[e0.len() + k], "Método"@, spec_method_dups(methods@.subrange(0, i as int))[k].name@,
                spec_method_dups(methods@.subrange(0, i as int))[k].span),
        decreases methods.len() - i,
    {
        let m = &methods[i];
        let ghost pre = methods@.subrange(0, i as int);
        let ghost cur = methods@.subrange(0, i + 1);
        assert(cur.drop_last() =~= pre);
        assert(cur.last() == *m);
        let ghost table = r@.map_values(|f: FuncInfo| sig_view(f));
        let mut present = false;
        let mut k: usize = 0;
        while k < r.len()
            invariant
                k <= r@.len(),
                table == r@.map_values(|f: FuncInfo| sig_view(f)),
                !present ==> forall|q: int| 0 <= q < k ==> r@[q].name@ != m.name@,
                present ==> sig_names(table).contains(m.name@),
            decreases r.len() - k,
        {
            if str_eq(r[k].name.as_str(), m.name.as_str()) {
                present = true;
                assert(sig_names(table)[k as int] == m.name@);
            }
            k = k + 1;
        }
        if !present {
            assert forall|q: int| 0 <= q < sig_names(table).len() implies sig_names(table)[q] != m.name@ by {
                assert(sig_names(table)[q] == r@[q].name@);
            }
        }
        if present {
            let ghost before = errors@;
            let e = CompilerError::duplicate_definition("Método", m.name.as_str(), m.span);
            errors.push(e);
            assert(errors@.subrange(0, e0.len() as int) =~= before.subrange(0, e0.len() as int));
            assert(spec_method_dups(cur) == spec_method_dups(pre).push(*m));
        } else {
            let ghost before = r@;
            let f = FuncInfo {
                name: m.name.clone(),
                params: declared_params(&m.params),
                return_type: annotated_type(&m.return_type),
                span: m.span,
            };
            r.push(f);
            assert(r@.map_values(|f: FuncInfo| sig_view(f)) =~= table.push(method_sig(*m)));
        }
        i = i + 1;
    }
    assert(methods@.subrange(0, methods@.len() as int) =~= methods@);
    r
}

/// The view of a recorded attribute: name, type, span.
pub open spec fn attr_view(a: AttrInfo) -> (Seq<char>, TypeV, tokens::Span) {
    (a.name@, a.hulk_type@, a.span)
}

/// The attributes a class declaration records.
pub open spec fn spec_attrs(d: ClassDecl) -> Seq<(Seq<char>, TypeV, tokens::Span)> {
    d.attributes@.map_values(|a: Attribute| (a.name@, spec_attr_type(a, spec_params(d.params@)), a.span))
}

/// The class a declaration registers, apart from its constructor
/// parameters: name, parent (`Object` when none is written), attributes,
/// method table and span.
pub open spec fn class_shape_ok(c: ClassInfo, d: ClassDecl) -> bool {
    &&& c.name@ == d.name@
    &&& (match d.parent {
        Some(p) => c.parent matches Some(q) && q@ == p@,
        None => c.parent matches Some(q) && q@ == "Object"@,
    })
    &&& c.attributes@.map_values(|a: AttrInfo| attr_view(a)) == spec_attrs(d)
    &&& c.methods@.map_values(|f: FuncInfo| sig_view(f)) == spec_method_table(d.methods@)
    &&& c.span == d.span
}

/// The class a declaration registers, with the parameters it declares.
pub open spec fn class_entry_ok(c: ClassInfo, d: ClassDecl) -> bool {
    &&& class_shape_ok(c, d)
    &&& param_views(c.params@) == spec_params(d.params@)
}

/// The function a declaration registers.
pub open spec fn function_entry_ok(f: FuncInfo, d: FunctionDecl) -> bool {
    sig_view(f) == (d.name@, spec_params(d.params@), spec_annotated(d.return_type), d.span)
}

fn collect_attributes(class: &ClassDecl, params: &Vec<(String, HulkType)>) -> (r: Vec<AttrInfo>)
    requires
        param_views(params@) == spec_params(class.params@),
    ensures
        r@.map_values(|a: AttrInfo| attr_view(a)) == spec_attrs(*class),
{
    let mut r: Vec<AttrInfo> = Vec::new();
    let mut i: usize = 0;
    while i < class.attributes.len()
        invariant
            i <= class.attributes@.len(),
            param_views(params@) == spec_params(class.params@),
            r@.map_values(|a: AttrInfo| attr_view(a)) == spec_attrs(*class).subrange(0, i as int),
        decreases class.attributes.len() - i,
    {
        assert(spec_attrs(*class).len() == class.attributes@.len());
        let a = &class.attributes[i];
        let ghost before = r@;
        let info = AttrInfo { name: a.name.clone(), hulk_type: attribute_type(a, params), span: a.span };
        assert(attr_view(info) == spec_attrs(*class)[i as int]);
        r.push(info);
        assert(r@.map_values(|a: AttrInfo| attr_view(a)) =~= before.map_values(|a: AttrInfo| attr_view(a)).push(attr_view(info)));
        assert(spec_attrs(*class).subrange(0, i + 1) =~= spec_attrs(*class).subrange(0, i as int).push(spec_attrs(*class)[i as int]));
        i = i + 1;
    }
    assert(spec_attrs(*class).subrange(0, i as int) =~= spec_attrs(*class));
    r
}

/// Builds the class entry that a declaration registers.
fn class_entry(class: &ClassDecl, errors: &mut Vec<CompilerError>) -> (c: ClassInfo)
    ensures
        class_entry_ok(c, *class),
        final(errors)@.len() == old(errors)@.len() + spec_method_dups(class.methods@).len(),
        final(errors)@.subrange(0, old(errors)@.len() as int) == old(errors)@,
        forall|k: int| 0 <= k < spec_method_dups(class.methods@).len() ==> is_duplicate_report(
            #[trigger] final(errors)@[old(errors)@.len() + k], "Método"@, spec_method_dups(class.methods@)[k].name@,
            spec_method_dups(class.methods@)[k].span),
{
    let params = declared_params(&class.params);
    let attributes = collect_attributes(class, &params);
    let methods = collect_methods(&class.methods, errors);
    let parent = match &class.parent {
        Some(p) => Some(p.clone()),
        None => Some(String::from_str("Object")),
    };
    ClassInfo { name: class.name.clone(), params, parent, attributes, methods, span: class.span }
}

/// The class declarations that are registered: those whose name is not
/// yet taken by an earlier class.
pub open spec fn spec_accepted_classes(existing: Seq<Seq<char>>, ds: Seq<ClassDecl>) -> Seq<ClassDecl>
    decreases ds.len(),
{
    if ds.len() == 0 {
        Seq::empty()
    } else {
        let acc = spec_accepted_classes(existing, ds.drop_last());
        if (existing + acc.map_values(|d: ClassDecl| d.name@)).contains(ds.last().name@) {
            acc
        } else {
            acc.push(ds.last())
        }
    }
}

/// The class declarations rejected as duplicates, in order.
pub open spec fn spec_duplicate_classes(existing: Seq<Seq<char>>, ds: Seq<ClassDecl>) -> Seq<ClassDecl>
    decreases ds.len(),
{
    if ds.len() == 0 {
        Seq::empty()
    } else {
        let acc = spec_accepted_classes(existing, ds.drop_last());
        let dups = spec_duplicate_classes(existing, ds.drop_last());
        if (existing + acc.map_values(|d: ClassDecl| d.name@)).contains(ds.last().name@) {
            dups.push(ds.last())
        } else {
            dups
        }
    }
}

/// The diagnostics of class registration: for each rejected class, the
/// duplicate report, and for each accepted one, the reports of its
/// duplicated methods; in declaration order.
pub open spec fn spec_class_reports(existing: Seq<Seq<char>>, ds: Seq<ClassDecl>) -> Seq<(Seq<char>, Seq<char>, tokens::Span)>
    decreases ds.len(),
{
    if ds.len() == 0 {
        Seq::empty()
    } else {
        let acc = spec_accepted_classes(existing, ds.drop_last());
        let prev = spec_class_reports(existing, ds.drop_last());
        if (existing + acc.map_values(|d: ClassDecl| d.name@)).contains(ds.last().name@) {
            prev.push(("Tipo"@, ds.last().name@, ds.last().span))
        } else {
            prev + spec_method_dups(ds.last().methods@).map_values(|m: Method| ("Método"@, m.name@, m.span))
        }
    }
}

proof fn lemma_find_none_iff(names: Seq<Seq<char>>, name: Seq<char>)
    ensures
        (find_name(names, name, 0) is None) == !names.contains(name),
{
    super::symbol_table::lemma_find_name(names, name, 0);
    if names.contains(name) {
        let k = choose|k: int| 0 <= k < names.len() && names[k] == name;
        assert(names[k] == name);
    }
}

/// Registers the class declarations, in order.
fn collect_classes(classes: &Vec<ClassDecl>, symbols: &mut SymbolTable, errors: &mut Vec<CompilerError>)
    ensures
        final(symbols).classes@.len() == old(symbols).classes@.len() + spec_accepted_classes(
            class_names(old(symbols).classes@), classes@).len(),
        final(symbols).classes@.subrange(0, old(symbols).classes@.len() as int) == old(symbols).classes@,
        forall|k: int| 0 <= k < spec_accepted_classes(class_names(old(symbols).classes@), classes@).len()
            ==> class_entry_ok(#[trigger] final(symbols).classes@[old(symbols).classes@.len() + k],
            spec_accepted_classes(class_names(old(symbols).classes@), classes@)[k]),
        final(symbols).functions == old(symbols).functions,
        final(symbols).scope_stack() == old(symbols).scope_stack(),
        final(symbols).current_class == old(symbols).current_class,
        final(errors)@.subrange(0, old(errors)@.len() as int) == old(errors)@,
        final(errors)@.len() == old(errors)@.len() + spec_class_reports(class_names(old(symbols).classes@), classes@).len(),
        forall|k: int| 0 <= k < spec_class_reports(class_names(old(symbols).classes@), classes@).len()
            ==> is_duplicate_report(#[trigger] final(errors)@[old(errors)@.len() + k],
            spec_class_reports(class_names(old(symbols).classes@), classes@)[k].0,
            spec_class_reports(class_names(old(symbols).classes@), classes@)[k].1,
            spec_class_reports(class_names(old(symbols).classes@), classes@)[k].2),
{
    let ghost existing = class_names(symbols.classes@);
    let ghost c0 = symbols.classes@;
    let ghost e0 = errors@;
    let mut i: usize = 0;
    while i < classes.len()
        invariant
            i <= classes@.len(),
            existing == class_names(c0),
            symbols.classes@.len() == c0.len() + spec_accepted_classes(existing, classes@.subrange(0, i as int)).len(),
            symbols.classes@.subrange(0, c0.len() as int) == c0,
            forall|k: int| 0 <= k < spec_accepted_classes(existing, classes@.subrange(0, i as int)).len()
                ==> class_entry_ok(#[trigger] symbols.classes@[c0.len() + k],
                spec_accepted_classes(existing, classes@.subrange(0, i as int))[k]),
            class_names(symbols.classes@) == existing + spec_accepted_classes(existing, classes@.subrange(0, i as int)).map_values(|d: ClassDecl| d.name@),
            symbols.functions == old(symbols).functions,
            symbols.scope_stack() == old(symbols).scope_stack(),
            symbols.current_class == old(symbols).current_class,
            errors@.subrange(0, e0.len() as int) == e0,
            errors@.len() == e0.len() + spec_class_reports(existing, classes@.subrange(0, i as int)).len(),
            forall|k: int| 0 <= k < spec_class_reports(existing, classes@.subrange(0, i as int)).len()
                ==> is_duplicate_report(#[trigger] errors@[e0.len() + k],
                spec_class_reports(existing, classes@.subrange(0, i as int))[k].0,
                spec_class_reports(existing, classes@.subrange(0, i as int))[k].1,
                spec_class_reports(existing, classes@.subrange(0, i as int))[k].2),
        decreases classes.len() - i,
    {
        let class = &classes[i];
        let ghost pre = classes@.subrange(0, i as int);
        let ghost cur = classes@.subrange(0, i + 1);
        assert(cur.drop_last() =~= pre);
        assert(cur.last() == *class);
        let ghost acc = spec_accepted_classes(existing, pre);
        let ghost reps = spec_class_reports(existing, pre);
        let ghost cls_before = symbols.classes@;
        let ghost errs_before = errors@;
        proof {
            lemma_find_none_iff(class_names(symbols.classes@), class.name@);
        }
        if symbols.get_class(class.name.as_str()).is_some() {
            errors.push(CompilerError::duplicate_definition("Tipo", class.name.as_str(), class.span));
            assert(errors@.subrange(0, e0.len() as int) =~= errs_before.subrange(0, e0.len() as int));
            assert(spec_class_reports(existing, cur) == reps.push(("Tipo"@, class.name@, class.span)));
            assert forall|k: int| 0 <= k < spec_class_reports(existing, cur).len()
                implies is_duplicate_report(#[trigger] errors@[e0.len() + k],
                spec_class_reports(existing, cur)[k].0,
                spec_class_reports(existing, cur)[k].1,
                spec_class_reports(existing, cur)[k].2) by {
                if k < reps.len() {
                    assert(errors@[e0.len() + k] == errs_before[e0.len() + k]);
                }
            }
        } else {
            let entry = class_entry(class, errors);
            let ghost mdups = spec_method_dups(class.methods@);
            symbols.classes.push(entry);
            assert(symbols.classes@.subrange(0, c0.len() as int) =~= cls_before.subrange(0, c0.len() as int));
            assert(spec_accepted_classes(existing, cur) == acc.push(*class));
            assert(acc.push(*class).map_values(|d: ClassDecl| d.name@) =~= acc.map_values(|d: ClassDecl| d.name@).push(class.name@));
            assert(class_names(symbols.classes@) =~= class_names(cls_before).push(class.name@));
            assert(errors@.subrange(0, e0.len() as int) =~= errs_before.subrange(0, e0.len() as int));
            assert(spec_class_reports(existing, cur) == reps + mdups.map_values(|m: Method| ("Método"@, m.name@, m.span)));
            assert forall|k: int| 0 <= k < spec_accepted_classes(existing, cur).len()
                implies class_entry_ok(#[trigger] symbols.classes@[c0.len() + k],
                spec_accepted_classes(existing, cur)[k]) by {
                if k < acc.len() {
                    assert(symbols.classes@[c0.len() + k] == cls_before[c0.len() + k]);
                }
            }
            assert forall|k: int| 0 <= k < spec_class_reports(existing, cur).len()
                implies is_duplicate_report(#[trigger] errors@[e0.len() + k],
                spec_class_reports(existing, cur)[k].0,
                spec_class_reports(existing, cur)[k].1,
                spec_class_reports(existing, cur)[k].2) by {
                if k < reps.len() {
                    assert(errors@[e0.len() + k] == errs_before[e0.len() + k]);
                } else {
                    let q = k - reps.len();
                    assert(errors@[e0.len() + k] == errors@[errs_before.len() + q]);
                }
            }
        }
        i = i + 1;
    }
    assert(classes@.subrange(0, classes@.len() as int) =~= classes@);
}

/// The function declarations that are registered: those whose name is
/// not yet taken by an earlier function.
pub open spec fn spec_accepted_functions(existing: Seq<Seq<char>>, ds: Seq<FunctionDecl>) -> Seq<FunctionDecl>
    decreases ds.len(),
{
    if ds.len() == 0 {
        Seq::empty()
    } else {
        let acc = spec_accepted_functions(existing, ds.drop_last());
        if (existing + acc.map_values(|d: FunctionDecl| d.name@)).contains(ds.last().name@) {
            acc
        } else {
            acc.push(ds.last())
        }
    }
}

/// The function declarations rejected as duplicates, in order.
pub open spec fn spec_duplicate_functions(existing: Seq<Seq<char>>, ds: Seq<FunctionDecl>) -> Seq<FunctionDecl>
    decreases ds.len(),
{
    if ds.len() == 0 {
        Seq::empty()
    } else {
        let acc = spec_accepted_functions(existing, ds.drop_last());
        let dups = spec_duplicate_functions(existing, ds.drop_last());
        if (existing + acc.map_values(|d: FunctionDecl| d.name@)).contains(ds.last().name@) {
            dups.push(ds.last())
        } else {
            dups
        }
    }
}

/// Registers the global function declarations, in order.
fn collect_functions(functions: &Vec<FunctionDecl>, symbols: &mut SymbolTable, errors: &mut Vec<CompilerError>)
    ensures
        final(symbols).functions@.len() == old(symbols).functions@.len() + spec_accepted_functions(
            func_names(old(symbols).functions@), functions@).len(),
        final(symbols).functions@.subrange(0, old(symbols).functions@.len() as int) == old(symbols).functions@,
        forall|k: int| 0 <= k < spec_accepted_functions(func_names(old(symbols).functions@), functions@).len()
            ==> function_entry_ok(#[trigger] final(symbols).functions@[old(symbols).functions@.len() + k],
            spec_accepted_functions(func_names(old(symbols).functions@), functions@)[k]),
        final(symbols).classes == old(symbols).classes,
        final(symbols).scope_stack() == old(symbols).scope_stack(),
        final(symbols).current_class == old(symbols).current_class,
        final(errors)@.subrange(0, old(errors)@.len() as int) == old(errors)@,
        final(errors)@.len() == old(errors)@.len() + spec_duplicate_functions(func_names(old(symbols).functions@), functions@).len(),
        forall|k: int| 0 <= k < spec_duplicate_functions(func_names(old(symbols).functions@), functions@).len()
            ==> is_duplicate_report(#[trigger] final(errors)@[old(errors)@.len() + k], "Función"@,
            spec_duplicate_functions(func_names(old(symbols).functions@), functions@)[k].name@,
            spec_duplicate_functions(func_names(old(symbols).functions@), functions@)[k].span),
{
    let ghost existing = func_names(symbols.functions@);
    let ghost f0 = symbols.functions@;
    let ghost e0 = errors@;
    let mut i: usize = 0;
    while i < functions.len()
        invariant
            i <= functions@.len(),
            existing == func_names(f0),
            symbols.functions@.len() == f0.len() + spec_accepted_functions(existing, functions@.subrange(0, i as int)).len(),
            symbols.functions@.subrange(0, f0.len() as int) == f0,
            forall|k: int| 0 <= k < spec_accepted_functions(existing, functions@.subrange(0, i as int)).len()
                ==> function_entry_ok(#[trigger] symbols.functions@[f0.len() + k],
                spec_accepted_functions(existing, functions@.subrange(0, i as int))[k]),
            func_names(symbols.functions@) == existing + spec_accepted_functions(existing, functions@.subrange(0, i as int)).map_values(|d: FunctionDecl| d.name@),
            symbols.classes == old(symbols).classes,
            symbols.scope_stack() == old(symbols).scope_stack(),
            symbols.current_class == old(symbols).current_class,
            errors@.subrange(0, e0.len() as int) == e0,
            errors@.len() == e0.len() + spec_duplicate_functions(existing, functions@.subrange(0, i as int)).len(),
            forall|k: int| 0 <= k < spec_duplicate_functions(existing, functions@.subrange(0, i as int)).len()
                ==> is_duplicate_report(#[trigger] errors@[e0.len() + k], "Función"@,
                spec_duplicate_functions(existing, functions@.subrange(0, i as int))[k].name@,
                spec_duplicate_functions(existing, functions@.subrange(0, i as int))[k].span),
        decreases functions.len() - i,
    {
        let func = &functions[i];
        let ghost pre = functions@.subrange(0, i as int);
        let ghost cur = functions@.subrange(0, i + 1);
        assert(cur.drop_last() =~= pre);
        assert(cur.last() == *func);
        let ghost acc = spec_accepted_functions(existing, pre);
        let ghost dups = spec_duplicate_functions(existing, pre);
        let ghost fs_before = symbols.functions@;
        let ghost errs_before = errors@;
        proof {
            lemma_find_none_iff(func_names(symbols.functions@), func.name@);
        }
        if symbols.get_function(func.name.as_str()).is_some() {
            errors.push(CompilerError::duplicate_definition("Función", func.name.as_str(), func.span));
            assert(errors@.subrange(0, e0.len() as int) =~= errs_before.subrange(0, e0.len() as int));
            assert(spec_duplicate_functions(existing, cur) == dups.push(*func));
            assert forall|k: int| 0 <= k < spec_duplicate_functions(existing, cur).len()
                implies is_duplicate_report(#[trigger] errors@[e0.len() + k], "Función"@,
                spec_duplicate_functions(existing, cur)[k].name@,
                spec_duplicate_functions(existing, cur)[k].span) by {
                if k < dups.len() {
                    assert(errors@[e0.len() + k] == errs_before[e0.len() + k]);
                }
            }
        } else {
            let entry = FuncInfo {
                name: func.name.clone(),
                params: declared_params(&func.params),
                return_type: annotated_type(&func.return_type),
                span: func.span,
            };
            symbols.functions.push(entry);
            assert(symbols.functions@.subrange(0, f0.len() as int) =~= fs_before.subrange(0, f0.len() as int));
            assert(spec_accepted_functions(existing, cur) == acc.push(*func));
            assert(acc.push(*func).map_values(|d: FunctionDecl| d.name@) =~= acc.map_values(|d: FunctionDecl| d.name@).push(func.name@));
            assert(func_names(symbols.functions@) =~= func_names(fs_before).push(func.name@));
            assert forall|k: int| 0 <= k < spec_accepted_functions(existing, cur).len()
                implies function_entry_ok(#[trigger] symbols.functions@[f0.len() + k],
                spec_accepted_functions(existing, cur)[k]) by {
                if k < acc.len() {
                    assert(symbols.functions@[f0.len() + k] == fs_before[f0.len() + k]);
                }
            }
        }
        i = i + 1;
    }
    assert(functions@.subrange(0, functions@.len() as int) =~= functions@);
}

/// Whether the parent chain from `cur` runs into a name already visited.
pub open spec fn cycle_walk(classes: Seq<ClassInfo>, cur: Seq<char>, visited: Seq<Seq<char>>, fuel: nat) -> bool
    decreases fuel,
{
    if fuel == 0 {
        false
    } else if visited.contains(cur) {
        true
    } else {
        match find_class(classes, cur) {
            Some(c) => match c.parent {
                Some(p) => cycle_walk(classes, p@, visited.push(cur), (fuel - 1) as nat),
                None => false,
            },
            None => false,
        }
    }
}

/// Whether the inheritance chain of class `name` is cyclic.
pub open spec fn spec_has_cycle(classes: Seq<ClassInfo>, name: Seq<char>) -> bool {
    cycle_walk(classes, name, Seq::empty(), (classes.len() + 1) as nat)
}

fn has_cycle(symbols: &SymbolTable, name: &str) -> (r: bool)
    ensures
        r == spec_has_cycle(symbols.classes@, name@),
{
    let mut visited: Vec<String> = Vec::new();
    let mut current: String = name.to_owned();
    let mut fuel: u128 = (symbols.classes.len() as u128) + 1;
    assert(string_views(visited@) =~= Seq::<Seq<char>>::empty());
    loop
        invariant
            cycle_walk(symbols.classes@, current@, string_views(visited@), fuel as nat)
                == spec_has_cycle(symbols.classes@, name@),
        decreases fuel,
    {
        if fuel == 0 {
            return false;
        }
        if contains_string(&visited, current.as_str()) {
            return true;
        }
        match symbols.get_class(current.as_str()) {
            Some(info) => match &info.parent {
                Some(p) => {
                    let next = p.clone();
                    let ghost v = string_views(visited@);
                    visited.push(current);
                    assert(string_views(visited@) =~= v.push(current@));
                    current = next;
                    fuel = fuel - 1;
                },
                None => {
                    return false;
                },
            },
            None => {
                return false;
            },
        }
    }
}

/// The built-in types that the inheritance check skips.
pub open spec fn is_builtin_entry(c: ClassInfo) -> bool {
    c.span == tokens::Position::new_spec(0, 0) && (c.name@ == "Object"@ || c.name@ == "Number"@
        || c.name@ == "String"@ || c.name@ == "Boolean"@ || c.name@ == "Range"@)
}

/// What an inheritance report is about.
pub enum InheritanceIssue {
    PrimitiveParent,
    UndefinedParent,
    Cycle,
}

/// A report of the inheritance check: its issue, the name it is about, span.
pub type Report = (InheritanceIssue, Seq<char>, tokens::Span);

/// The reports of the inheritance check for one class: inheriting from a
/// primitive type, an undefined parent, a cyclic chain.
pub open spec fn class_inheritance_reports(classes: Seq<ClassInfo>, c: ClassInfo) -> Seq<Report> {
    if is_builtin_entry(c) {
        Seq::empty()
    } else {
        let parent_reports = match c.parent {
            Some(p) => (if p@ == "Number"@ || p@ == "String"@ || p@ == "Boolean"@ {
                seq![(InheritanceIssue::PrimitiveParent, p@, c.span)]
            } else {
                Seq::empty()
            }) + (if super::symbol_table::spec_builtin_type_name(p@) || find_class(classes, p@) is Some {
                Seq::empty()
            } else {
                seq![(InheritanceIssue::UndefinedParent, p@, c.span)]
            }),
            None => Seq::empty(),
        };
        parent_reports + (if spec_has_cycle(classes, c.name@) {
            seq![(InheritanceIssue::Cycle, c.name@, c.span)]
        } else {
            Seq::empty()
        })
    }
}

/// The reports of the inheritance check for the classes `cs`, in order.
pub open spec fn spec_inheritance_reports(classes: Seq<ClassInfo>, cs: Seq<ClassInfo>) -> Seq<Report>
    decreases cs.len(),
{
    if cs.len() == 0 {
        Seq::empty()
    } else {
        spec_inheritance_reports(classes, cs.drop_last()) + class_inheritance_reports(classes, cs.last())
    }
}

/// A diagnostic that matches a report of the inheritance check.
pub open spec fn report_matches(e: CompilerError, r: Report) -> bool {
    match r.0 {
        InheritanceIssue::PrimitiveParent => diag_is(e, "E110"@, "No se puede heredar del tipo '"@ + r.1
            + "'"@, r.2, Severity::Error, None),
        InheritanceIssue::UndefinedParent => diag_is(e, "E102"@, "Tipo '"@ + r.1 + "' no está definido"@,
            r.2, Severity::Error, None),
        InheritanceIssue::Cycle => diag_is(e, "E107"@, "Herencia circular detectada en la clase '"@ + r.1
            + "'"@, r.2, Severity::Error, None),
    }
}

fn is_primitive_name(name: &str) -> (r: bool)
    ensures
        r == (name@ == "Number"@ || name@ == "String"@ || name@ == "Boolean"@),
{
    str_eq(name, "Number") || str_eq(name, "String") || str_eq(name, "Boolean")
}

/// Validates that all parent types exist and that there are no
/// inheritance cycles.
pub fn check_inheritance_cycles(symbols: &SymbolTable) -> (errors: Vec<CompilerError>)
    ensures
        errors@.len() == spec_inheritance_reports(symbols.classes@, symbols.classes@).len(),
        forall|k: int| 0 <= k < errors@.len() ==> report_matches(#[trigger] errors@[k],
            spec_inheritance_reports(symbols.classes@, symbols.classes@)[k]),
{
    let mut errors: Vec<CompilerError> = Vec::new();
    let ghost all = symbols.classes@;
    let mut i: usize = 0;
    while i < symbols.classes.len()
        invariant
            i <= all.len(),
            all == symbols.classes@,
            errors@.len() == spec_inheritance_reports(all, all.subrange(0, i as int)).len(),
            forall|k: int| 0 <= k < errors@.len() ==> report_matches(#[trigger] errors@[k],
                spec_inheritance_reports(all, all.subrange(0, i as int))[k]),
        decreases all.len() - i,
    {
        let class = &symbols.classes[i];
        let ghost pre = all.subrange(0, i as int);
        let ghost cur = all.subrange(0, i + 1);
        assert(cur.drop_last() =~= pre);
        assert(cur.last() == *class);
        let ghost before = errors@;
        let ghost reps = class_inheritance_reports(all, *class);
        let builtin = class.span.start == 0 && class.span.end == 0 && (str_eq(class.name.as_str(), "Object")
            || str_eq(class.name.as_str(), "Number") || str_eq(class.name.as_str(), "String")
            || str_eq(class.name.as_str(), "Boolean") || str_eq(class.name.as_str(), "Range"));
        if !builtin {
            let ghost mut added: Seq<Report> = Seq::empty();
            match &class.parent {
                Some(parent) => {
                    if is_primitive_name(parent.as_str()) {
                        errors.push(CompilerError::invalid_inheritance(parent.as_str(), class.span));
                        proof { added = added.push((InheritanceIssue::PrimitiveParent, parent@, class.span)); }
                        assert(report_matches(errors@.last(), added.last()));
                        assert forall|k: int| before.len() <= k < errors@.len() implies report_matches(
                            #[trigger] errors@[k], added[k - before.len()]) by {}
                    }
                    if !symbols.type_exists(parent.as_str()) {
                        let ghost mid = errors@;
                        let ghost added_before = added;
                        errors.push(CompilerError::undefined_type(parent.as_str(), class.span));
                        proof { added = added.push((InheritanceIssue::UndefinedParent, parent@, class.span)); }
                        assert(report_matches(errors@.last(), added.last()));
                        assert forall|k: int| before.len() <= k < errors@.len() implies report_matches(
                            #[trigger] errors@[k], added[k - before.len()]) by {
                            if k < errors@.len() - 1 {
                                assert(errors@[k] == mid[k]);
                                assert(added[k - before.len()] == added_before[k - before.len()]);
                            }
                        }
                    }
                },
                None => {},
            }
            if has_cycle(symbols, class.name.as_str()) {
                let ghost mid = errors@;
                let ghost added_before = added;
                errors.push(CompilerError::cyclic_inheritance(class.name.as_str(), class.span));
                proof { added = added.push((InheritanceIssue::Cycle, class.name@, class.span)); }
                assert(report_matches(errors@.last(), added.last()));
                assert forall|k: int| before.len() <= k < errors@.len() implies report_matches(
                    #[trigger] errors@[k], added[k - before.len()]) by {
                    if k < errors@.len() - 1 {
                        assert(errors@[k] == mid[k]);
                        assert(added[k - before.len()] == added_before[k - before.len()]);
                    }
                }
            }
            assert(added =~= reps);
            assert(errors@.len() == before.len() + added.len());
            assert(errors@.subrange(0, before.len() as int) =~= before);
            assert forall|k: int| 0 <= k < errors@.len() implies report_matches(#[trigger] errors@[k],
                (spec_inheritance_reports(all, pre) + reps)[k]) by {
                if k < before.len() {
                    assert(errors@[k] == errors@.subrange(0, before.len() as int)[k]);
                } else {
                    assert(report_matches(errors@[k], added[k - before.len()]));
                }
            }
        } else {
            assert(reps =~= Seq::<Report>::empty());
        }
        assert(spec_inheritance_reports(all, cur) == spec_inheritance_reports(all, pre) + reps);
        i = i + 1;
    }
    assert(all.subrange(0, all.len() as int) =~= all);
    errors
}

// ───────────────────────── Constructor signatures ─────────────────────────

/// A parameter list as the symbol table holds it.
pub type ParamList = Seq<(String, HulkType)>;

/// The memo of resolved constructor signatures: class name and parameters.
pub type CtorMemo = Seq<(Seq<char>, ParamList)>;

/// The memo that an executable memo stands for.
pub open spec fn memo_view(m: Seq<(String, Vec<(String, HulkType)>)>) -> CtorMemo {
    m.map_values(|e: (String, Vec<(String, HulkType)>)| (e.0@, e.1@))
}

pub open spec fn memo_keys(m: CtorMemo) -> Seq<Seq<char>> {
    m.map_values(|e: (Seq<char>, ParamList)| e.0)
}

/// The parameters the memo holds for `name`.
pub open spec fn memo_lookup(m: CtorMemo, name: Seq<char>) -> Option<ParamList> {
    match find_name(memo_keys(m), name, 0) {
        Some(j) => Some(m[j].1),
        None => None,
    }
}

/// The memo with `name` bound to `v`, replacing an earlier binding.
pub open spec fn memo_put(m: CtorMemo, name: Seq<char>, v: ParamList) -> CtorMemo {
    match find_name(memo_keys(m), name, 0) {
        Some(j) => m.update(j, (name, v)),
        None => m.push((name, v)),
    }
}

/// The last declaration of `ds` named `name` (a later declaration of a name
/// replaces an earlier one).
pub open spec fn find_decl(ds: Seq<ClassDecl>, name: Seq<char>) -> Option<ClassDecl>
    decreases ds.len(),
{
    if ds.len() == 0 {
        None
    } else if ds.last().name@ == name {
        Some(ds.last())
    } else {
        find_decl(ds.drop_last(), name)
    }
}

/// A constructor mismatch: the class name and its span.
pub type CtorReport = (Seq<char>, tokens::Span);

/// The outcome of resolving one class: its effective constructor
/// parameters, the memo afterwards, and the mismatches found on the way.
pub type CtorStep = (ParamList, CtorMemo, Seq<CtorReport>);

/// Resolves the effective constructor parameters of class `name`.
///
/// A class with explicit parameters keeps them.  A class with neither
/// parameters nor parent arguments inherits the parent's effective
/// signature (unless the parent is `Object`).  A class with parameters,
/// a parent other than `Object` and no parent arguments must repeat the
/// parent's effective signature exactly, else a mismatch is reported.
/// A class being resolved further up the chain resolves to no parameters.
pub open spec fn spec_resolve_ctor(classes: Seq<ClassInfo>, decls: Seq<ClassDecl>, name: Seq<char>,
    memo: CtorMemo, resolving: Seq<Seq<char>>, fuel: nat) -> CtorStep
    decreases fuel,
{
    if fuel == 0 {
        (Seq::empty(), memo, Seq::empty())
    } else {
        match memo_lookup(memo, name) {
            Some(p) => (p, memo, Seq::empty()),
            None => if resolving.contains(name) {
                (Seq::empty(), memo, Seq::empty())
            } else {
                match find_class(classes, name) {
                    None => (Seq::empty(), memo, Seq::empty()),
                    Some(info) => {
                        let own = info.params@;
                        match find_decl(decls, name) {
                            None => (own, memo_put(memo, name, own), Seq::empty()),
                            Some(d) => {
                                let inherits = d.params@.len() == 0 && d.parent_args@.len() == 0;
                                match info.parent {
                                    Some(p) => if p@ != "Object"@ && (inherits || d.parent_args@.len() == 0) {
                                        let sub = spec_resolve_ctor(classes, decls, p@, memo,
                                            resolving.push(name), (fuel - 1) as nat);
                                        if inherits {
                                            (sub.0, memo_put(sub.1, name, sub.0), sub.2)
                                        } else if param_views(sub.0) == param_views(own) {
                                            (own, memo_put(sub.1, name, own), sub.2)
                                        } else {
                                            (own, memo_put(sub.1, name, own), sub.2.push((d.name@, d.span)))
                                        }
                                    } else {
                                        (own, memo_put(memo, name, own), Seq::empty())
                                    },
                                    None => (own, memo_put(memo, name, own), Seq::empty()),
                                }
                            },
                        }
                    },
                }
            },
        }
    }
}

/// A diagnostic that reports a constructor mismatch.
pub open spec fn ctor_report_matches(e: CompilerError, r: CtorReport) -> bool {
    diag_is(e, "E113"@, "La firma de '"@ + "<constructor>"@ + "' en '"@ + r.0
        + "' no coincide con la del ancestro"@, r.1, Severity::Error, None)
}

/// `after` is `before` followed by one diagnostic for each report.
pub open spec fn reports_appended(after: Seq<CompilerError>, before: Seq<CompilerError>, reps: Seq<CtorReport>) -> bool {
    &&& after.len() == before.len() + reps.len()
    &&& after.subrange(0, before.len() as int) == before
    &&& forall|k: int| 0 <= k < reps.len() ==> ctor_report_matches(#[trigger] after[before.len() + k], reps[k])
}

proof fn lemma_resolving_bound(classes: Seq<ClassInfo>, resolving: Seq<Seq<char>>)
    requires
        resolving.no_duplicates(),
        forall|k: int| 0 <= k < resolving.len() ==> class_names(classes).contains(#[trigger] resolving[k]),
    ensures
        resolving.len() <= classes.len(),
{
    let names = class_names(classes);
    resolving.unique_seq_to_set();
    names.lemma_cardinality_of_set();
    assert(resolving.to_set().subset_of(names.to_set())) by {
        assert forall|x: Seq<char>| resolving.to_set().contains(x) implies names.to_set().contains(x) by {
            let k = choose|k: int| 0 <= k < resolving.len() && resolving[k] == x;
            assert(names.contains(resolving[k]));
        }
    }
    vstd::set_lib::lemma_len_subset(resolving.to_set(), names.to_set());
}

proof fn lemma_found_class_named(classes: Seq<ClassInfo>, name: Seq<char>)
    requires
        find_class(classes, name) is Some,
    ensures
        class_names(classes).contains(name),
{
    lemma_find_name(class_names(classes), name, 0);
    let j = find_name(class_names(classes), name, 0).unwrap();
    assert(class_names(classes)[j] == name);
}

fn memo_index(memo: &Vec<(String, Vec<(String, HulkType)>)>, name: &str) -> (r: Option<usize>)
    ensures
        r matches Some(j) ==> find_name(memo_keys(memo_view(memo@)), name@, 0) == Some(j as int)
            && j < memo@.len(),
        r is None ==> find_name(memo_keys(memo_view(memo@)), name@, 0) is None,
{
    let ghost keys = memo_keys(memo_view(memo@));
    let mut i: usize = 0;
    while i < memo.len()
        invariant
            i <= memo.len(),
            keys == memo_keys(memo_view(memo@)),
            keys.len() == memo@.len(),
            find_name(keys, name@, 0) == find_name(keys, name@, i as int),
        decreases memo.len() - i,
    {
        assert(keys[i as int] == memo@[i as int].0@);
        if str_eq(memo[i].0.as_str(), name) {
            return Some(i);
        }
        i = i + 1;
    }
    None
}

fn memo_put_exec(memo: &mut Vec<(String, Vec<(String, HulkType)>)>, name: &str, v: Vec<(String, HulkType)>)
    ensures
        memo_view(final(memo)@) == memo_put(memo_view(old(memo)@), name@, v@),
{
    let ghost m0 = memo_view(memo@);
    match memo_index(memo, name) {
        Some(j) => {
            let _ = memo.remove(j);
            memo.insert(j, (name.to_owned(), v));
            assert(memo_view(memo@) =~= m0.update(j as int, (name@, v@)));
        },
        None => {
            memo.push((name.to_owned(), v));
            assert(memo_view(memo@) =~= m0.push((name@, v@)));
        },
    }
}

fn decl_index(decls: &Vec<ClassDecl>, name: &str) -> (r: Option<usize>)
    ensures
        r matches Some(j) ==> j < decls@.len() && find_decl(decls@, name@) == Some(decls@[j as int]),
        r is None ==> find_decl(decls@, name@) is None,
{
    let mut i: usize = decls.len();
    assert(decls@.subrange(0, i as int) =~= decls@);
    while i > 0
        invariant
            i <= decls.len(),
            find_decl(decls@, name@) == find_decl(decls@.subrange(0, i as int), name@),
        decreases i,
    {
        let ghost pre = decls@.subrange(0, i as int);
        assert(pre.drop_last() =~= decls@.subrange(0, i - 1));
        if str_eq(decls[i - 1].name.as_str(), name) {
            return Some(i - 1);
        }
        i = i - 1;
    }
    assert(decls@.subrange(0, 0) =~= Seq::<ClassDecl>::empty());
    None
}

fn resolve_one(
    class_name: &str,
    decls: &Vec<ClassDecl>,
    symbols: &SymbolTable,
    memo: &mut Vec<(String, Vec<(String, HulkType)>)>,
    resolving: &mut Vec<String>,
    errors: &mut Vec<CompilerError>,
    fuel: u128,
) -> (r: Vec<(String, HulkType)>)
    requires
        string_views(old(resolving)@).no_duplicates(),
        forall|k: int| 0 <= k < old(resolving)@.len() ==> class_names(symbols.classes@).contains(
            #[trigger] string_views(old(resolving)@)[k]),
        fuel + old(resolving)@.len() >= symbols.classes@.len() + 1,
    ensures
        string_views(final(resolving)@) == string_views(old(resolving)@),
        ({
            let step = spec_resolve_ctor(symbols.classes@, decls@, class_name@, memo_view(old(memo)@),
                string_views(old(resolving)@), fuel as nat);
            &&& r@ == step.0
            &&& memo_view(final(memo)@) == step.1
            &&& reports_appended(final(errors)@, old(errors)@, step.2)
        }),
    decreases fuel,
{
    let ghost classes = symbols.classes@;
    let ghost rv = string_views(resolving@);
    let ghost m0 = memo_view(memo@);
    let ghost e0 = errors@;
    proof {
        lemma_resolving_bound(classes, rv);
    }
    assert(errors@.subrange(0, e0.len() as int) =~= e0);
    match memo_index(memo, class_name) {
        Some(j) => {
            return copy_params_list(&memo[j].1);
        },
        None => {},
    }
    if contains_string(resolving, class_name) {
        return Vec::new();
    }
    let info = match symbols.get_class(class_name) {
        Some(i) => i,
        None => {
            return Vec::new();
        },
    };
    let own = copy_params_list(&info.params);
    let decl = match decl_index(decls, class_name) {
        Some(k) => &decls[k],
        None => {
            memo_put_exec(memo, class_name, copy_params_list(&own));
            return own;
        },
    };
    let inherits = decl.params.len() == 0 && decl.parent_args.len() == 0;
    match &info.parent {
        Some(p) => {
            if !str_eq(p.as_str(), "Object") && (inherits || decl.parent_args.len() == 0) {
                proof {
                    lemma_found_class_named(classes, class_name@);
                }
                let ghost e1 = errors@;
                resolving.push(class_name.to_owned());
                proof {
                    assert(string_views(resolving@) =~= rv.push(class_name@));
                }
                let sub = resolve_one(p.as_str(), decls, symbols, memo, resolving, errors, fuel - 1);
                let ghost before_pop = resolving@;
                let _ = resolving.pop();
                proof {
                    assert(string_views(resolving@) =~= string_views(before_pop).drop_last());
                    assert(string_views(resolving@) =~= rv);
                }
                let ghost sub_step = spec_resolve_ctor(classes, decls@, p@, m0, rv.push(class_name@),
                    (fuel - 1) as nat);
                if inherits {
                    memo_put_exec(memo, class_name, copy_params_list(&sub));
                    return sub;
                }
                if !params_equal(&sub, &own) {
                    let ghost e2 = errors@;
                    errors.push(CompilerError::invalid_override_signature(decl.name.as_str(), "<constructor>",
                        decl.span));
                    proof {
                        assert(errors@.subrange(0, e0.len() as int) =~= e2.subrange(0, e0.len() as int));
                        assert forall|k: int| 0 <= k < sub_step.2.push((decl.name@, decl.span)).len()
                            implies ctor_report_matches(#[trigger] errors@[e0.len() + k],
                            sub_step.2.push((decl.name@, decl.span))[k]) by {
                            if k < sub_step.2.len() {
                                assert(errors@[e0.len() + k] == e2[e0.len() + k]);
                            }
                        }
                    }
                }
                memo_put_exec(memo, class_name, copy_params_list(&own));
                return own;
            }
        },
        None => {},
    }
    memo_put_exec(memo, class_name, copy_params_list(&own));
    own
}

fn copy_params_list(v: &Vec<(String, HulkType)>) -> (r: Vec<(String, HulkType)>)
    ensures
        r@ == v@,
{
    super::symbol_table::copy_params(v)
}

/// Resolving the first `n` class declarations in order, with one memo
/// throughout: the effective parameters of each, the memo, the mismatches.
pub open spec fn spec_resolve_prefix(classes: Seq<ClassInfo>, decls: Seq<ClassDecl>, n: nat)
    -> (Seq<ParamList>, CtorMemo, Seq<CtorReport>)
    decreases n,
{
    if n == 0 {
        (Seq::empty(), Seq::empty(), Seq::empty())
    } else {
        let acc = spec_resolve_prefix(classes, decls, (n - 1) as nat);
        let step = spec_resolve_ctor(classes, decls, decls[n - 1].name@, acc.1, Seq::empty(),
            (classes.len() + 1) as nat);
        (acc.0.push(step.0), step.1, acc.2 + step.2)
    }
}

/// The parameters resolved for the last of the first `n` declarations
/// named `name`.
pub open spec fn last_update(decls: Seq<ClassDecl>, updates: Seq<ParamList>, name: Seq<char>, n: int) -> Option<ParamList>
    decreases n,
{
    if n <= 0 {
        None
    } else if decls[n - 1].name@ == name {
        Some(updates[n - 1])
    } else {
        last_update(decls, updates, name, n - 1)
    }
}

/// The parameters class `j` ends with once the first `n` resolutions are
/// stored: the last one for its name, if it is the first class of that
/// name; else its own.
pub open spec fn stored_params(classes: Seq<ClassInfo>, decls: Seq<ClassDecl>, updates: Seq<ParamList>, j: int, n: int) -> ParamList {
    if find_name(class_names(classes), classes[j].name@, 0) == Some(j) {
        match last_update(decls, updates, classes[j].name@, n) {
            Some(p) => p,
            None => classes[j].params@,
        }
    } else {
        classes[j].params@
    }
}

/// `c` is `d` with the parameters `p`.
pub open spec fn with_params(c: ClassInfo, d: ClassInfo, p: ParamList) -> bool {
    &&& c.name == d.name
    &&& c.parent == d.parent
    &&& c.attributes == d.attributes
    &&& c.methods == d.methods
    &&& c.span == d.span
    &&& c.params@ == p
}

proof fn lemma_reports_compose(a: Seq<CompilerError>, b: Seq<CompilerError>, c: Seq<CompilerError>,
    r1: Seq<CtorReport>, r2: Seq<CtorReport>)
    requires
        reports_appended(b, a, r1),
        reports_appended(c, b, r2),
    ensures
        reports_appended(c, a, r1 + r2),
{
    assert(c.subrange(0, a.len() as int) =~= b.subrange(0, a.len() as int));
    assert forall|k: int| 0 <= k < (r1 + r2).len() implies ctor_report_matches(#[trigger] c[a.len() + k],
        (r1 + r2)[k]) by {
        if k < r1.len() {
            assert(c[a.len() + k] == b[a.len() + k]);
        } else {
            assert(c[a.len() + k] == c[b.len() + (k - r1.len())]);
        }
    }
}

/// Resolves the effective constructor parameters of every declared class
/// (see `spec_resolve_ctor`) and stores them in the symbol table once all
/// are resolved.
fn resolve_constructor_signatures(program: &Program, symbols: &mut SymbolTable) -> (errors: Vec<CompilerError>)
    ensures
        reports_appended(errors@, Seq::empty(),
            spec_resolve_prefix(old(symbols).classes@, program.classes@, program.classes@.len()).2),
        final(symbols).classes@.len() == old(symbols).classes@.len(),
        forall|j: int| 0 <= j < old(symbols).classes@.len() ==> with_params(#[trigger] final(symbols).classes@[j],
            old(symbols).classes@[j], stored_params(old(symbols).classes@, program.classes@,
            spec_resolve_prefix(old(symbols).classes@, program.classes@, program.classes@.len()).0, j,
            program.classes@.len() as int)),
        final(symbols).functions == old(symbols).functions,
        final(symbols).scope_stack() == old(symbols).scope_stack(),
        final(symbols).current_class == old(symbols).current_class,
{
    let ghost c0 = symbols.classes@;
    let ghost decls = program.classes@;
    let mut errors: Vec<CompilerError> = Vec::new();
    let mut memo: Vec<(String, Vec<(String, HulkType)>)> = Vec::new();
    let mut resolving: Vec<String> = Vec::new();
    let mut updates: Vec<Vec<(String, HulkType)>> = Vec::new();
    let fuel: u128 = symbols.classes.len() as u128 + 1;
    assert(memo_view(memo@) =~= Seq::<(Seq<char>, ParamList)>::empty());
    assert(errors@.subrange(0, 0) =~= Seq::<CompilerError>::empty());
    let mut i: usize = 0;
    while i < program.classes.len()
        invariant
            i <= decls.len(),
            decls == program.classes@,
            c0 == symbols.classes@,
            fuel == c0.len() + 1,
            resolving@.len() == 0,
            updates@.len() == i,
            memo_view(memo@) == spec_resolve_prefix(c0, decls, i as nat).1,
            updates@.map_values(|u: Vec<(String, HulkType)>| u@) == spec_resolve_prefix(c0, decls, i as nat).0,
            reports_appended(errors@, Seq::empty(), spec_resolve_prefix(c0, decls, i as nat).2),
        decreases decls.len() - i,
    {
        let ghost acc = spec_resolve_prefix(c0, decls, i as nat);
        let ghost e1 = errors@;
        let ghost u1 = updates@;
        assert(string_views(resolving@) =~= Seq::<Seq<char>>::empty());
        let effective = resolve_one(program.classes[i].name.as_str(), &program.classes, symbols, &mut memo,
            &mut resolving, &mut errors, fuel);
        proof {
            lemma_reports_compose(Seq::empty(), e1, errors@, acc.2,
                spec_resolve_ctor(c0, decls, decls[i as int].name@, acc.1, Seq::empty(), (c0.len() + 1) as nat).2);
        }
        updates.push(effective);
        assert(updates@.map_values(|u: Vec<(String, HulkType)>| u@) =~= u1.map_values(
            |u: Vec<(String, HulkType)>| u@).push(effective@));
        assert(resolving@.len() == 0);
        i = i + 1;
    }
    let ghost ups = spec_resolve_prefix(c0, decls, decls.len()).0;
    let mut k: usize = 0;
    while k < updates.len()
        invariant
            k <= updates@.len(),
            updates@.len() == decls.len(),
            decls == program.classes@,
            updates@.map_values(|u: Vec<(String, HulkType)>| u@) == ups,
            symbols.classes@.len() == c0.len(),
            class_names(symbols.classes@) == class_names(c0),
            forall|j: int| 0 <= j < c0.len() ==> with_params(#[trigger] symbols.classes@[j], c0[j],
                stored_params(c0, decls, ups, j, k as int)),
            symbols.functions == old(symbols).functions,
            symbols.scope_stack() == old(symbols).scope_stack(),
            symbols.current_class == old(symbols).current_class,
        decreases updates.len() - k,
    {
        let ghost before = symbols.classes@;
        assert(ups[k as int] == updates@[k as int]@);
        match index_of_class(&symbols.classes, program.classes[k].name.as_str()) {
            Some(j) => {
                let mut c = symbols.classes.remove(j);
                c.params = copy_params_list(&updates[k]);
                symbols.classes.insert(j, c);
                proof {
                    assert(class_names(symbols.classes@) =~= class_names(before));
                    assert forall|q: int| 0 <= q < c0.len() implies with_params(#[trigger] symbols.classes@[q], c0[q],
                        stored_params(c0, decls, ups, q, k + 1)) by {
                        if q != j {
                            assert(symbols.classes@[q] == before[q]);
                            if find_name(class_names(c0), c0[q].name@, 0) == Some(q) {
                                assert(c0[q].name@ == class_names(c0)[q]);
                                assert(class_names(c0)[j as int] == decls[k as int].name@);
                                assert(c0[q].name@ != decls[k as int].name@);
                            }
                        } else {
                            assert(class_names(c0)[q] == c0[q].name@);
                        }
                    }
                }
            },
            None => {
                proof {
                    lemma_find_name(class_names(c0), decls[k as int].name@, 0);
                    assert forall|q: int| 0 <= q < c0.len() implies with_params(#[trigger] symbols.classes@[q], c0[q],
                        stored_params(c0, decls, ups, q, k + 1)) by {
                        assert(class_names(c0)[q] == c0[q].name@);
                    }
                }
            },
        }
        k = k + 1;
    }
    errors
}

/// `errs` holds, from `off` on, the duplicate reports `reps`.
pub open spec fn duplicates_at(errs: Seq<CompilerError>, off: int, reps: Seq<(Seq<char>, Seq<char>, tokens::Span)>) -> bool {
    forall|k: int| 0 <= k < reps.len() ==> is_duplicate_report(#[trigger] errs[off + k], reps[k].0, reps[k].1, reps[k].2)
}

/// The duplicate reports of rejected functions.
pub open spec fn function_reports(dups: Seq<FunctionDecl>) -> Seq<(Seq<char>, Seq<char>, tokens::Span)> {
    dups.map_values(|d: FunctionDecl| ("Función"@, d.name@, d.span))
}

/// `errs` holds, from `off` on, the inheritance reports `reps`.
pub open spec fn inheritance_at(errs: Seq<CompilerError>, off: int, reps: Seq<Report>) -> bool {
    forall|k: int| 0 <= k < reps.len() ==> report_matches(#[trigger] errs[off + k], reps[k])
}

/// `errs` holds, from `off` on, the constructor reports `reps`.
pub open spec fn ctor_reports_at(errs: Seq<CompilerError>, off: int, reps: Seq<CtorReport>) -> bool {
    forall|k: int| 0 <= k < reps.len() ==> ctor_report_matches(#[trigger] errs[off + k], reps[k])
}

/// `mid` is `old` with the classes and functions of `program` registered.
pub open spec fn registered(old: SymbolTable, program: Program, mid_classes: Seq<ClassInfo>, mid_functions: Seq<FuncInfo>) -> bool {
    let acc = spec_accepted_classes(class_names(old.classes@), program.classes@);
    let accf = spec_accepted_functions(func_names(old.functions@), program.functions@);
    &&& mid_classes.len() == old.classes@.len() + acc.len()
    &&& mid_classes.subrange(0, old.classes@.len() as int) == old.classes@
    &&& forall|k: int| 0 <= k < acc.len() ==> class_entry_ok(#[trigger] mid_classes[old.classes@.len() + k], acc[k])
    &&& mid_functions.len() == old.functions@.len() + accf.len()
    &&& mid_functions.subrange(0, old.functions@.len() as int) == old.functions@
    &&& forall|k: int| 0 <= k < accf.len() ==> function_entry_ok(#[trigger] mid_functions[old.functions@.len() + k], accf[k])
}

/// What collecting the declarations of `program` into `old` gives, with
/// `mid` the classes as registered: the final table and the diagnostics.
pub open spec fn collected(old: SymbolTable, program: Program, mid: Seq<ClassInfo>, new: SymbolTable, errs: Seq<CompilerError>) -> bool {
    let creps = spec_class_reports(class_names(old.classes@), program.classes@);
    let freps = function_reports(spec_duplicate_functions(func_names(old.functions@), program.functions@));
    let ireps = spec_inheritance_reports(mid, mid);
    let res = spec_resolve_prefix(mid, program.classes@, program.classes@.len());
    &&& registered(old, program, mid, new.functions@)
    &&& new.classes@.len() == mid.len()
    &&& forall|j: int| 0 <= j < mid.len() ==> with_params(#[trigger] new.classes@[j], mid[j],
            stored_params(mid, program.classes@, res.0, j, program.classes@.len() as int))
    &&& new.scope_stack() == old.scope_stack()
    &&& new.current_class == old.current_class
    &&& errs.len() == creps.len() + freps.len() + ireps.len() + res.2.len()
    &&& duplicates_at(errs, 0, creps)
    &&& duplicates_at(errs, creps.len() as int, freps)
    &&& inheritance_at(errs, (creps.len() + freps.len()) as int, ireps)
    &&& ctor_reports_at(errs, (creps.len() + freps.len() + ireps.len()) as int, res.2)
}

/// Collects all top-level declarations into the symbol table: classes,
/// then functions; then reports inheritance problems and resolves the
/// constructor signatures.  Returns the diagnostics, in that order.
pub fn collect_declarations(program: &Program, symbols: &mut SymbolTable) -> (errors: Vec<CompilerError>)
    ensures
        exists|mid: Seq<ClassInfo>| collected(*old(symbols), *program, mid, *final(symbols), errors@),
{
    let ghost s0 = *symbols;
    let mut errors: Vec<CompilerError> = Vec::new();
    collect_classes(&program.classes, symbols, &mut errors);
    let ghost e0 = errors@;
    collect_functions(&program.functions, symbols, &mut errors);
    let ghost mid = symbols.classes@;
    let ghost e1 = errors@;
    let mut cycle_errors = check_inheritance_cycles(symbols);
    errors.append(&mut cycle_errors);
    let ghost e2 = errors@;
    let mut ctor_errors = resolve_constructor_signatures(program, symbols);
    let ghost ce = ctor_errors@;
    errors.append(&mut ctor_errors);
    proof {
        let creps = spec_class_reports(class_names(s0.classes@), program.classes@);
        let fdups = spec_duplicate_functions(func_names(s0.functions@), program.functions@);
        let freps = function_reports(fdups);
        let ireps = spec_inheritance_reports(mid, mid);
        let res = spec_resolve_prefix(mid, program.classes@, program.classes@.len());
        assert forall|k: int| 0 <= k < creps.len() implies is_duplicate_report(#[trigger] errors@[0 + k],
            creps[k].0, creps[k].1, creps[k].2) by {
            assert(errors@[k] == e1[k]);
            assert(e1[k] == e1.subrange(0, e0.len() as int)[k]);
            assert(e0[0 + k] == e0[k]);
        }
        assert forall|k: int| 0 <= k < freps.len() implies is_duplicate_report(#[trigger] errors@[creps.len() + k],
            freps[k].0, freps[k].1, freps[k].2) by {
            assert(errors@[creps.len() + k] == e1[creps.len() + k]);
        }
        assert forall|k: int| 0 <= k < ireps.len() implies report_matches(
            #[trigger] errors@[creps.len() + freps.len() + k], ireps[k]) by {
            assert(errors@[creps.len() + freps.len() + k] == e2[e1.len() + k]);
        }
        assert forall|k: int| 0 <= k < res.2.len() implies ctor_report_matches(
            #[trigger] errors@[creps.len() + freps.len() + ireps.len() + k], res.2[k]) by {
            assert(errors@[creps.len() + freps.len() + ireps.len() + k] == ce[k]);
            assert(ce[0 + k] == ce[k]);
        }
        assert(collected(s0, *program, mid, *symbols, errors@));
    }
    errors
}

// ───────────────────────── Distinct names ─────────────────────────

/// No name occurs twice in `s`.
pub open spec fn distinct_names(s: Seq<Seq<char>>) -> bool {
    forall|i: int, j: int| 0 <= i < j < s.len() ==> s[i] != s[j]
}

/// Every class of `cs` has methods of distinct names.
pub open spec fn methods_distinct(cs: Seq<ClassInfo>) -> bool {
    forall|j: int| 0 <= j < cs.len() ==> distinct_names(func_names((#[trigger] cs[j]).methods@))
}

proof fn lemma_push_distinct(s: Seq<Seq<char>>, x: Seq<char>)
    requires
        distinct_names(s),
        !s.contains(x),
    ensures
        distinct_names(s.push(x)),
{
    let t = s.push(x);
    assert forall|i: int, j: int| 0 <= i < j < t.len() implies t[i] != t[j] by {
        if j == s.len() {
            assert(t[i] == s[i]);
            assert(s.contains(s[i]));
        } else {
            assert(t[i] == s[i] && t[j] == s[j]);
        }
    }
}

proof fn lemma_accepted_classes_distinct(existing: Seq<Seq<char>>, ds: Seq<ClassDecl>)
    requires
        distinct_names(existing),
    ensures
        distinct_names(existing + spec_accepted_classes(existing, ds).map_values(|d: ClassDecl| d.name@)),
    decreases ds.len(),
{
    if ds.len() == 0 {
        assert(existing + spec_accepted_classes(existing, ds).map_values(|d: ClassDecl| d.name@) =~= existing);
    } else {
        lemma_accepted_classes_distinct(existing, ds.drop_last());
        let acc = spec_accepted_classes(existing, ds.drop_last());
        let names = existing + acc.map_values(|d: ClassDecl| d.name@);
        if !names.contains(ds.last().name@) {
            assert(existing + acc.push(ds.last()).map_values(|d: ClassDecl| d.name@) =~= names.push(ds.last().name@));
            lemma_push_distinct(names, ds.last().name@);
        }
    }
}

proof fn lemma_accepted_functions_distinct(existing: Seq<Seq<char>>, ds: Seq<FunctionDecl>)
    requires
        distinct_names(existing),
    ensures
        distinct_names(existing + spec_accepted_functions(existing, ds).map_values(|d: FunctionDecl| d.name@)),
    decreases ds.len(),
{
    if ds.len() == 0 {
        assert(existing + spec_accepted_functions(existing, ds).map_values(|d: FunctionDecl| d.name@) =~= existing);
    } else {
        lemma_accepted_functions_distinct(existing, ds.drop_last());
        let acc = spec_accepted_functions(existing, ds.drop_last());
        let names = existing + acc.map_values(|d: FunctionDecl| d.name@);
        if !names.contains(ds.last().name@) {
            assert(existing + acc.push(ds.last()).map_values(|d: FunctionDecl| d.name@) =~= names.push(
                ds.last().name@,
            ));
            lemma_push_distinct(names, ds.last().name@);
        }
    }
}

proof fn lemma_method_table_distinct(ms: Seq<Method>)
    ensures
        distinct_names(sig_names(spec_method_table(ms))),
    decreases ms.len(),
{
    if ms.len() > 0 {
        lemma_method_table_distinct(ms.drop_last());
        let t = spec_method_table(ms.drop_last());
        if !sig_names(t).contains(ms.last().name@) {
            assert(sig_names(t.push(method_sig(ms.last()))) =~= sig_names(t).push(ms.last().name@));
            lemma_push_distinct(sig_names(t), ms.last().name@);
        }
    }
}

/// Collecting declarations keeps the names of the table distinct: no two
/// classes, no two global functions, and no two methods of a class share
/// a name, when that held of the table before (a later declaration of a
/// taken name is reported and left out).
pub proof fn law_collected_names_distinct(old: SymbolTable, program: Program, mid: Seq<ClassInfo>, new: SymbolTable,
    errs: Seq<CompilerError>)
    requires
        collected(old, program, mid, new, errs),
        distinct_names(class_names(old.classes@)),
        distinct_names(func_names(old.functions@)),
        methods_distinct(old.classes@),
    ensures
        distinct_names(class_names(new.classes@)),
        distinct_names(func_names(new.functions@)),
        methods_distinct(new.classes@),
{
    let n = old.classes@.len();
    let acc = spec_accepted_classes(class_names(old.classes@), program.classes@);
    let accf = spec_accepted_functions(func_names(old.functions@), program.functions@);
    lemma_accepted_classes_distinct(class_names(old.classes@), program.classes@);
    lemma_accepted_functions_distinct(func_names(old.functions@), program.functions@);
    let cn = class_names(old.classes@) + acc.map_values(|d: ClassDecl| d.name@);
    assert(class_names(new.classes@) =~= cn) by {
        assert forall|j: int| 0 <= j < new.classes@.len() implies class_names(new.classes@)[j] == cn[j] by {
            assert(new.classes@[j].name == mid[j].name);
            if j < n {
                assert(mid[j] == mid.subrange(0, n as int)[j]);
            } else {
                assert(class_entry_ok(mid[n + (j - n)], acc[j - n]));
            }
        }
    }
    let fnames = func_names(old.functions@) + accf.map_values(|d: FunctionDecl| d.name@);
    assert(func_names(new.functions@) =~= fnames) by {
        assert forall|j: int| 0 <= j < new.functions@.len() implies func_names(new.functions@)[j] == fnames[j] by {
            if j < old.functions@.len() {
                assert(new.functions@[j] == new.functions@.subrange(0, old.functions@.len() as int)[j]);
            } else {
                let k = j - old.functions@.len();
                assert(function_entry_ok(new.functions@[old.functions@.len() + k], accf[k]));
                assert(sig_view(new.functions@[j]).0 == accf[k].name@);
            }
        }
    }
    assert forall|j: int| 0 <= j < new.classes@.len() implies distinct_names(
        func_names((#[trigger] new.classes@[j]).methods@),
    ) by {
        assert(new.classes@[j].methods == mid[j].methods);
        if j < n {
            assert(mid[j] == mid.subrange(0, n as int)[j]);
            assert(distinct_names(func_names(old.classes@[j].methods@)));
        } else {
            let k = j - n;
            assert(class_entry_ok(mid[n + k], acc[k]));
            let ms = mid[j].methods@;
            lemma_method_table_distinct(acc[k].methods@);
            assert(func_names(ms) =~= sig_names(ms.map_values(|f: FuncInfo| sig_view(f))));
        }
    }
}

} // verus!

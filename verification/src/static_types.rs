//! What the code generator knows of an expression before it emits it: the
//! class of an object, from its variable, its construction or the method
//! that returns it, and the declared type of a call's result.

use vstd::prelude::*;
use crate::ast::{Atom, Expression};
use crate::semantic::symbol_table::{ClassInfo, FuncInfo, SymbolTable, VarInfo, find_func, spec_lookup, spec_resolve_method};
use crate::semantic::types::{HulkType, TypeV};
use crate::text::str_eq;

verus! {

/// The class an expression is known to hold, inside the class `cur` (if
/// any), with the scopes `scopes` and the classes `classes`: `self` holds
/// the current class, a variable the class it was declared with, `new C`
/// holds `C`, and a method call the class its method returns.
pub open spec fn spec_class_of(classes: Seq<ClassInfo>, scopes: Seq<Seq<VarInfo>>, cur: Option<Seq<char>>, e: Expression) -> Option<Seq<char>>
    decreases e,
{
    match e {
        Expression::Atom(a) => match *a {
            Atom::Variable(id) => if id.name@ == "self"@ {
                cur
            } else {
                match spec_lookup(scopes, id.name@) {
                    Some(v) => match v.hulk_type@ {
                        TypeV::Class(n) => Some(n),
                        _ => None,
                    },
                    None => None,
                }
            },
            _ => None,
        },
        Expression::NewInstance(inst) => Some(inst.type_ident@),
        Expression::MethodCall(call) => match spec_class_of(classes, scopes, cur, call.object) {
            Some(cn) => match spec_resolve_method(classes, cn, call.method@) {
                Some((_, f)) => match f.return_type@ {
                    TypeV::Class(n) => Some(n),
                    _ => None,
                },
                None => None,
            },
            None => None,
        },
        _ => None,
    }
}

/// The type an expression is known to have from the tree and the symbols
/// alone: `new C` has type `C`, and a call the declared result type of the
/// method or function it calls.
pub open spec fn spec_static_type(
    classes: Seq<ClassInfo>,
    functions: Seq<FuncInfo>,
    scopes: Seq<Seq<VarInfo>>,
    cur: Option<Seq<char>>,
    e: Expression,
) -> Option<TypeV> {
    match e {
        Expression::NewInstance(inst) => Some(TypeV::Class(inst.type_ident@)),
        Expression::MethodCall(call) => match spec_class_of(classes, scopes, cur, call.object) {
            Some(cn) => match spec_resolve_method(classes, cn, call.method@) {
                Some((_, f)) => Some(f.return_type@),
                None => None,
            },
            None => None,
        },
        Expression::FunctionCall(call) => match find_func(functions, call.name@) {
            Some(f) => Some(f.return_type@),
            None => None,
        },
        _ => None,
    }
}

/// The view of an optional class name.
pub open spec fn opt_view(o: Option<String>) -> Option<Seq<char>> {
    match o {
        Some(s) => Some(s@),
        None => None,
    }
}

/// The class an expression is known to hold inside the class
/// `current_class`, if any.
pub fn class_of(symbols: &SymbolTable, current_class: &Option<String>, expr: &Expression) -> (r: Option<String>)
    ensures
        opt_view(r) == spec_class_of(symbols.classes@, symbols.scope_stack(), opt_view(*current_class), *expr),
    decreases expr,
{
    match expr {
        Expression::Atom(atom) => match &**atom {
            Atom::Variable(id) => {
                if str_eq(id.name.as_str(), "self") {
                    return match current_class {
                        Some(c) => Some(c.clone()),
                        None => None,
                    };
                }
                match symbols.var_type(id.name.as_str()) {
                    Some(HulkType::Class(name)) => Some(name),
                    _ => None,
                }
            },
            _ => None,
        },
        Expression::NewInstance(inst) => Some(inst.type_ident.clone()),
        Expression::MethodCall(call) => match class_of(symbols, current_class, &call.object) {
            Some(class_name) => match symbols.resolve_method(class_name.as_str(), call.method.as_str()) {
                Some((_owner, info)) => match info.return_type {
                    HulkType::Class(name) => Some(name),
                    _ => None,
                },
                None => None,
            },
            None => None,
        },
        _ => None,
    }
}

/// The type an expression is known to have before it is emitted, if the
/// tree and the symbols tell it.
pub fn static_type(symbols: &SymbolTable, current_class: &Option<String>, expr: &Expression) -> (r: Option<HulkType>)
    ensures
        match r {
            Some(t) => spec_static_type(symbols.classes@, symbols.functions@, symbols.scope_stack(), opt_view(
                *current_class,
            ), *expr) == Some(t@),
            None => spec_static_type(symbols.classes@, symbols.functions@, symbols.scope_stack(), opt_view(
                *current_class,
            ), *expr) is None,
        },
{
    match expr {
        Expression::NewInstance(inst) => Some(HulkType::Class(inst.type_ident.clone())),
        Expression::MethodCall(call) => match class_of(symbols, current_class, &call.object) {
            Some(class_name) => match symbols.resolve_method(class_name.as_str(), call.method.as_str()) {
                Some((_owner, info)) => Some(info.return_type),
                None => None,
            },
            None => None,
        },
        Expression::FunctionCall(call) => match symbols.get_function(call.name.as_str()) {
            Some(info) => Some(info.return_type.duplicate()),
            None => None,
        },
        _ => None,
    }
}

} // verus!

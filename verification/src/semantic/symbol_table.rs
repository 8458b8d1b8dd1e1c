//! The symbol table: global functions, classes (with attributes and
//! methods) and a stack of lexical scopes for local variables.

use vstd::prelude::*;
use crate::tokens::{Position, Span};
use crate::text::str_eq;
use super::types::{HulkType, TypeV};

verus! {

// ───────────────────────── Function & class metadata ─────────────────────────

/// Metadata for a declared function (global or method).
#[derive(Debug)]
pub struct FuncInfo {
    pub name: String,
    pub params: Vec<(String, HulkType)>,
    pub return_type: HulkType,
    pub span: Span,
}

/// Metadata for a declared class attribute.
#[derive(Debug)]
pub struct AttrInfo {
    pub name: String,
    pub hulk_type: HulkType,
    pub span: Span,
}

/// Metadata for a declared class.
#[derive(Debug)]
pub struct ClassInfo {
    pub name: String,
    /// Constructor parameters.
    pub params: Vec<(String, HulkType)>,
    /// Parent class name (None for the root `Object`).
    pub parent: Option<String>,
    /// Declared attributes (own, not inherited).
    pub attributes: Vec<AttrInfo>,
    /// Declared methods (own, not inherited), in declaration order.
    pub methods: Vec<FuncInfo>,
    pub span: Span,
}

/// A single variable binding.
#[derive(Debug)]
pub struct VarInfo {
    pub name: String,
    pub hulk_type: HulkType,
    pub span: Span,
    /// Whether this variable has been read at least once.
    pub used: bool,
}

// ───────────────────────── Name search ─────────────────────────

/// The index of the first entry of `names`, at `i` or later, equal to `name`.
pub open spec fn find_name(names: Seq<Seq<char>>, name: Seq<char>, i: int) -> Option<int>
    decreases names.len() - i,
{
    if i < 0 || i >= names.len() {
        None
    } else if names[i] == name {
        Some(i)
    } else {
        find_name(names, name, i + 1)
    }
}

pub proof fn lemma_find_name(names: Seq<Seq<char>>, name: Seq<char>, i: int)
    requires
        0 <= i,
    ensures
        find_name(names, name, i) matches Some(k) ==> i <= k < names.len() && names[k] == name
            && forall|j: int| i <= j < k ==> names[j] != name,
        find_name(names, name, i) is None ==> forall|j: int| i <= j < names.len() ==> names[j]
            != name,
    decreases names.len() - i,
{
    if i < names.len() && names[i] != name {
        lemma_find_name(names, name, i + 1);
    }
}

pub open spec fn class_names(s: Seq<ClassInfo>) -> Seq<Seq<char>> {
    s.map_values(|c: ClassInfo| c.name@)
}

pub open spec fn func_names(s: Seq<FuncInfo>) -> Seq<Seq<char>> {
    s.map_values(|f: FuncInfo| f.name@)
}

pub open spec fn attr_names(s: Seq<AttrInfo>) -> Seq<Seq<char>> {
    s.map_values(|a: AttrInfo| a.name@)
}

pub open spec fn var_names(s: Seq<VarInfo>) -> Seq<Seq<char>> {
    s.map_values(|v: VarInfo| v.name@)
}

/// The first class of `s` named `name`.
pub open spec fn find_class(s: Seq<ClassInfo>, name: Seq<char>) -> Option<ClassInfo> {
    match find_name(class_names(s), name, 0) {
        Some(i) => Some(s[i]),
        None => None,
    }
}

/// The first function of `s` named `name`.
pub open spec fn find_func(s: Seq<FuncInfo>, name: Seq<char>) -> Option<FuncInfo> {
    match find_name(func_names(s), name, 0) {
        Some(i) => Some(s[i]),
        None => None,
    }
}

/// The first attribute of `s` named `name`.
pub open spec fn find_attr(s: Seq<AttrInfo>, name: Seq<char>) -> Option<AttrInfo> {
    match find_name(attr_names(s), name, 0) {
        Some(i) => Some(s[i]),
        None => None,
    }
}

pub(crate) fn index_of_class(s: &Vec<ClassInfo>, name: &str) -> (r: Option<usize>)
    ensures
        r matches Some(i) ==> find_name(class_names(s@), name@, 0) == Some(i as int) && i < s@.len()
            && s@[i as int].name@ == name@,
        r is None ==> find_name(class_names(s@), name@, 0) is None,
{
    let mut i: usize = 0;
    while i < s.len()
        invariant
            i <= s.len(),
            find_name(class_names(s@), name@, 0) == find_name(class_names(s@), name@, i as int),
        decreases s.len() - i,
    {
        if str_eq(s[i].name.as_str(), name) {
            return Some(i);
        }
        i = i + 1;
    }
    None
}

pub(crate) fn index_of_func(s: &Vec<FuncInfo>, name: &str) -> (r: Option<usize>)
    ensures
        r matches Some(i) ==> find_name(func_names(s@), name@, 0) == Some(i as int) && i < s@.len()
            && s@[i as int].name@ == name@,
        r is None ==> find_name(func_names(s@), name@, 0) is None,
{
    let mut i: usize = 0;
    while i < s.len()
        invariant
            i <= s.len(),
            find_name(func_names(s@), name@, 0) == find_name(func_names(s@), name@, i as int),
        decreases s.len() - i,
    {
        if str_eq(s[i].name.as_str(), name) {
            return Some(i);
        }
        i = i + 1;
    }
    None
}

pub(crate) fn index_of_attr(s: &Vec<AttrInfo>, name: &str) -> (r: Option<usize>)
    ensures
        r matches Some(i) ==> find_name(attr_names(s@), name@, 0) == Some(i as int) && i < s@.len()
            && s@[i as int].name@ == name@,
        r is None ==> find_name(attr_names(s@), name@, 0) is None,
{
    let mut i: usize = 0;
    while i < s.len()
        invariant
            i <= s.len(),
            find_name(attr_names(s@), name@, 0) == find_name(attr_names(s@), name@, i as int),
        decreases s.len() - i,
    {
        if str_eq(s[i].name.as_str(), name) {
            return Some(i);
        }
        i = i + 1;
    }
    None
}

fn index_of_var(s: &Vec<VarInfo>, name: &str) -> (r: Option<usize>)
    ensures
        r matches Some(i) ==> find_name(var_names(s@), name@, 0) == Some(i as int) && i < s@.len()
            && s@[i as int].name@ == name@,
        r is None ==> find_name(var_names(s@), name@, 0) is None,
{
    let mut i: usize = 0;
    while i < s.len()
        invariant
            i <= s.len(),
            find_name(var_names(s@), name@, 0) == find_name(var_names(s@), name@, i as int),
        decreases s.len() - i,
    {
        if str_eq(s[i].name.as_str(), name) {
            return Some(i);
        }
        i = i + 1;
    }
    None
}

impl ClassInfo {
    /// Looks up an attribute by name in this class only (not inherited).
    pub fn get_attribute(&self, name: &str) -> (r: Option<&AttrInfo>)
        ensures
            r is Some == find_attr(self.attributes@, name@) is Some,
            r matches Some(a) ==> *a == find_attr(self.attributes@, name@).unwrap(),
    {
        match index_of_attr(&self.attributes, name) {
            Some(i) => Some(&self.attributes[i]),
            None => None,
        }
    }

    /// Looks up a method by name in this class only (not inherited).
    pub fn get_method(&self, name: &str) -> (r: Option<&FuncInfo>)
        ensures
            r is Some == find_func(self.methods@, name@) is Some,
            r matches Some(f) ==> *f == find_func(self.methods@, name@).unwrap(),
    {
        match index_of_func(&self.methods, name) {
            Some(i) => Some(&self.methods[i]),
            None => None,
        }
    }
}


/// Copies a parameter list.
pub fn copy_params(v: &Vec<(String, HulkType)>) -> (r: Vec<(String, HulkType)>)
    ensures
        r@ == v@,
{
    let mut r: Vec<(String, HulkType)> = Vec::new();
    let mut i: usize = 0;
    while i < v.len()
        invariant
            i <= v.len(),
            r@ == v@.subrange(0, i as int),
        decreases v.len() - i,
    {
        let (n, t) = &v[i];
        r.push((n.clone(), t.duplicate()));
        i = i + 1;
        assert(r@ =~= v@.subrange(0, i as int));
    }
    assert(v@.subrange(0, v@.len() as int) =~= v@);
    r
}

impl AttrInfo {
    /// A copy of this attribute.
    pub fn duplicate(&self) -> (r: AttrInfo)
        ensures
            r == *self,
    {
        AttrInfo { name: self.name.clone(), hulk_type: self.hulk_type.duplicate(), span: self.span }
    }
}

impl FuncInfo {
    /// A copy of this function signature.
    pub fn duplicate(&self) -> (r: FuncInfo)
        ensures
            r.name == self.name,
            r.params@ == self.params@,
            r.return_type == self.return_type,
            r.span == self.span,
    {
        FuncInfo {
            name: self.name.clone(),
            params: copy_params(&self.params),
            return_type: self.return_type.duplicate(),
            span: self.span,
        }
    }
}

// ───────────────────────── Variable scopes ─────────────────────────

/// A single lexical scope containing variable bindings.
#[derive(Debug)]
pub struct Scope {
    pub vars: Vec<VarInfo>,
}

impl Scope {
    pub fn new() -> (s: Self)
        ensures
            s.vars@.len() == 0,
    {
        Scope { vars: Vec::new() }
    }
}

/// Looks a variable up in a stack of scopes, innermost (last) first.
pub open spec fn spec_lookup(stack: Seq<Seq<VarInfo>>, name: Seq<char>) -> Option<VarInfo>
    decreases stack.len(),
{
    if stack.len() == 0 {
        None
    } else {
        match find_name(var_names(stack.last()), name, 0) {
            Some(i) => Some(stack.last()[i]),
            None => spec_lookup(stack.drop_last(), name),
        }
    }
}

/// The stack after marking the innermost binding of `name` as used.
pub open spec fn spec_mark_used(stack: Seq<Seq<VarInfo>>, name: Seq<char>) -> Seq<Seq<VarInfo>>
    decreases stack.len(),
{
    if stack.len() == 0 {
        stack
    } else {
        match find_name(var_names(stack.last()), name, 0) {
            Some(i) => stack.update(
                stack.len() - 1,
                stack.last().update(i, VarInfo { used: true, ..stack.last()[i] }),
            ),
            None => spec_mark_used(stack.drop_last(), name).push(stack.last()),
        }
    }
}

/// Central symbol table.
///
/// Stores the global function declarations, the class declarations (with
/// attributes and methods) and a stack of lexical scopes for local
/// variable resolution.
#[derive(Debug)]
pub struct SymbolTable {
    /// Global functions, in declaration order.
    pub functions: Vec<FuncInfo>,
    /// Class/type declarations, in declaration order.
    pub classes: Vec<ClassInfo>,
    /// Stack of lexical scopes for variable lookup.
    pub scopes: Vec<Scope>,
    /// The class currently being analyzed (for `self` resolution).
    pub current_class: Option<String>,
}

impl SymbolTable {
    /// Creates a new symbol table pre-populated with the built-in types
    /// and functions, with one (global) scope and no current class.
    pub fn new() -> (st: Self)
        ensures
            spec_builtin_classes(st.classes@),
            spec_builtin_functions(st.functions@),
            st.scope_stack() == seq![Seq::<VarInfo>::empty()],
            st.current_class is None,
    {
        let mut st = SymbolTable {
            functions: Vec::new(),
            classes: Vec::new(),
            scopes: Vec::new(),
            current_class: None,
        };
        let global = Scope::new();
        assert(global.vars@ =~= Seq::<VarInfo>::empty());
        st.scopes.push(global);
        st.register_builtins();
        assert(st.scope_stack() =~= seq![Seq::<VarInfo>::empty()]);
        st
    }

    fn register_builtins(&mut self)
        requires
            old(self).classes@.len() == 0,
            old(self).functions@.len() == 0,
        ensures
            spec_builtin_classes(final(self).classes@),
            spec_builtin_functions(final(self).functions@),
            final(self).scopes == old(self).scopes,
            final(self).current_class == old(self).current_class,
    {
        let builtin_span = Position::new(0, 0);
        // Built-in types.
        self.classes.push(builtin_class("Object", None));
        self.classes.push(builtin_class("Number", Some(String::from_str("Object"))));
        self.classes.push(builtin_class("String", Some(String::from_str("Object"))));
        self.classes.push(builtin_class("Boolean", Some(String::from_str("Object"))));
        // Built-in functions.
        let mut p: Vec<(String, HulkType)> = Vec::new();
        p.push((String::from_str("value"), HulkType::Object));
        self.functions.push(FuncInfo { name: String::from_str("print"), params: p, return_type: HulkType::Void, span: builtin_span });
        let mut p: Vec<(String, HulkType)> = Vec::new();
        p.push((String::from_str("x"), HulkType::Number));
        self.functions.push(FuncInfo { name: String::from_str("sin"), params: p, return_type: HulkType::Number, span: builtin_span });
        let mut p: Vec<(String, HulkType)> = Vec::new();
        p.push((String::from_str("x"), HulkType::Number));
        self.functions.push(FuncInfo { name: String::from_str("cos"), params: p, return_type: HulkType::Number, span: builtin_span });
        let mut p: Vec<(String, HulkType)> = Vec::new();
        p.push((String::from_str("x"), HulkType::Number));
        self.functions.push(FuncInfo { name: String::from_str("sqrt"), params: p, return_type: HulkType::Number, span: builtin_span });
        let mut p: Vec<(String, HulkType)> = Vec::new();
        p.push((String::from_str("x"), HulkType::Number));
        self.functions.push(FuncInfo { name: String::from_str("exp"), params: p, return_type: HulkType::Number, span: builtin_span });
        let mut p: Vec<(String, HulkType)> = Vec::new();
        p.push((String::from_str("base"), HulkType::Number));
        p.push((String::from_str("x"), HulkType::Number));
        self.functions.push(FuncInfo { name: String::from_str("log"), params: p, return_type: HulkType::Number, span: builtin_span });
        let p: Vec<(String, HulkType)> = Vec::new();
        self.functions.push(FuncInfo { name: String::from_str("rand"), params: p, return_type: HulkType::Number, span: builtin_span });
        let ghost f = self.functions@;
        assert(param_views(f[0].params@) =~= seq![("value"@, TypeV::Object)]);
        assert(param_views(f[1].params@) =~= seq![("x"@, TypeV::Number)]);
        assert(param_views(f[2].params@) =~= seq![("x"@, TypeV::Number)]);
        assert(param_views(f[3].params@) =~= seq![("x"@, TypeV::Number)]);
        assert(param_views(f[4].params@) =~= seq![("x"@, TypeV::Number)]);
        assert(param_views(f[5].params@) =~= seq![("base"@, TypeV::Number), ("x"@, TypeV::Number)]);
        assert(param_views(f[6].params@) =~= Seq::<(Seq<char>, TypeV)>::empty());
    }

    /// The stack of scopes, outermost first.
    pub open spec fn scope_stack(&self) -> Seq<Seq<VarInfo>> {
        self.scopes@.map_values(|s: Scope| s.vars@)
    }

    /// Pushes a new lexical scope.
    pub fn push_scope(&mut self)
        ensures
            final(self).scope_stack() == old(self).scope_stack().push(Seq::empty()),
            final(self).functions == old(self).functions,
            final(self).classes == old(self).classes,
            final(self).current_class == old(self).current_class,
    {
        let sc = Scope::new();
        assert(sc.vars@ =~= Seq::<VarInfo>::empty());
        self.scopes.push(sc);
        assert(self.scope_stack() =~= old(self).scope_stack().push(Seq::empty()));
    }

    /// Pops the innermost scope, returning all its variable bindings.
    pub fn pop_scope(&mut self) -> (vars: Vec<VarInfo>)
        requires
            old(self).scope_stack().len() >= 1,
        ensures
            vars@ == old(self).scope_stack().last(),
            final(self).scope_stack() == old(self).scope_stack().drop_last(),
            final(self).functions == old(self).functions,
            final(self).classes == old(self).classes,
            final(self).current_class == old(self).current_class,
    {
        let scope = self.scopes.pop().unwrap();
        assert(self.scope_stack() =~= old(self).scope_stack().drop_last());
        scope.vars
    }

    /// Defines a variable in the current (innermost) scope.
    /// Returns `false` if the variable already exists in this scope.
    pub fn define_var(&mut self, name: &str, hulk_type: HulkType, span: Span) -> (r: bool)
        requires
            old(self).scope_stack().len() >= 1,
        ensures
            r == find_name(var_names(old(self).scope_stack().last()), name@, 0) is None,
            !r ==> final(self).scope_stack() == old(self).scope_stack(),
            r ==> final(self).scope_stack().len() == old(self).scope_stack().len(),
            r ==> final(self).scope_stack().drop_last() == old(self).scope_stack().drop_last(),
            r ==> final(self).scope_stack().last().drop_last() == old(self).scope_stack().last(),
            r ==> final(self).scope_stack().last() == old(self).scope_stack().last().push(
                final(self).scope_stack().last().last()),
            r ==> final(self).scope_stack().last().last().name@ == name@,
            r ==> final(self).scope_stack().last().last().hulk_type == hulk_type,
            r ==> final(self).scope_stack().last().last().span == span,
            r ==> !final(self).scope_stack().last().last().used,
            final(self).functions == old(self).functions,
            final(self).classes == old(self).classes,
            final(self).current_class == old(self).current_class,
    {
        let mut scope = self.scopes.pop().unwrap();
        if index_of_var(&scope.vars, name).is_some() {
            self.scopes.push(scope);
            assert(self.scope_stack() =~= old(self).scope_stack());
            return false;
        }
        scope.vars.push(VarInfo { name: name.to_owned(), hulk_type, span, used: false });
        self.scopes.push(scope);
        assert(self.scope_stack().drop_last() =~= old(self).scope_stack().drop_last());
        assert(self.scope_stack().last().drop_last() =~= old(self).scope_stack().last());
        assert(self.scope_stack().last() =~= old(self).scope_stack().last().push(self.scope_stack().last().last()));
        true
    }

    /// Looks up a variable by name, searching from the innermost to the
    /// outermost scope.
    pub fn lookup_var(&self, name: &str) -> (r: Option<&VarInfo>)
        ensures
            r is Some == spec_lookup(self.scope_stack(), name@) is Some,
            r matches Some(v) ==> *v == spec_lookup(self.scope_stack(), name@).unwrap(),
    {
        let mut k: usize = self.scopes.len();
        assert(self.scope_stack().subrange(0, k as int) =~= self.scope_stack());
        while k > 0
            invariant
                k <= self.scopes@.len(),
                spec_lookup(self.scope_stack(), name@) == spec_lookup(
                    self.scope_stack().subrange(0, k as int),
                    name@,
                ),
            decreases k,
        {
            let ghost sub = self.scope_stack().subrange(0, k as int);
            assert(sub.drop_last() =~= self.scope_stack().subrange(0, k - 1));
            assert(sub.last() == self.scopes@[k - 1].vars@);
            match index_of_var(&self.scopes[k - 1].vars, name) {
                Some(i) => {
                    return Some(&self.scopes[k - 1].vars[i]);
                },
                None => {},
            }
            k = k - 1;
        }
        None
    }

    /// Marks the innermost binding of a variable as used.
    /// Returns `true` if it was found.
    pub fn mark_var_used(&mut self, name: &str) -> (r: bool)
        ensures
            r == spec_lookup(old(self).scope_stack(), name@) is Some,
            final(self).scope_stack() == spec_mark_used(old(self).scope_stack(), name@),
            final(self).functions == old(self).functions,
            final(self).classes == old(self).classes,
            final(self).current_class == old(self).current_class,
    {
        let mut k: usize = self.scopes.len();
        assert(self.scope_stack().subrange(0, k as int) =~= self.scope_stack());
        assert(self.scope_stack().subrange(k as int, k as int) =~= Seq::<Seq<VarInfo>>::empty());
        assert(spec_mark_used(self.scope_stack(), name@) + Seq::<Seq<VarInfo>>::empty() =~= spec_mark_used(self.scope_stack(), name@));
        while k > 0
            invariant
                k <= self.scopes@.len(),
                self.scopes@ == old(self).scopes@,
                self.functions == old(self).functions,
                self.classes == old(self).classes,
                self.current_class == old(self).current_class,
                spec_lookup(self.scope_stack(), name@) == spec_lookup(
                    self.scope_stack().subrange(0, k as int),
                    name@,
                ),
                spec_mark_used(self.scope_stack(), name@) == spec_mark_used(
                    self.scope_stack().subrange(0, k as int),
                    name@,
                ) + self.scope_stack().subrange(k as int, self.scope_stack().len() as int),
            decreases k,
        {
            let ghost stack = self.scope_stack();
            let ghost sub = stack.subrange(0, k as int);
            assert(sub.drop_last() =~= stack.subrange(0, k - 1));
            assert(sub.last() == self.scopes@[k - 1].vars@);
            match index_of_var(&self.scopes[k - 1].vars, name) {
                Some(i) => {
                    let ghost oldvars = sub.last();
                    let ghost old_scopes = self.scopes@;
                    let mut scope = self.scopes.remove(k - 1);
                    let mut var = scope.vars.remove(i);
                    var.used = true;
                    scope.vars.insert(i, var);
                    assert(scope.vars@ =~= oldvars.update(
                        i as int,
                        VarInfo { used: true, ..oldvars[i as int] },
                    ));
                    self.scopes.insert(k - 1, scope);
                    assert(self.scopes@ =~= old_scopes.update(k - 1, scope));
                    assert(spec_mark_used(sub, name@) == sub.update(
                        k - 1,
                        oldvars.update(i as int, VarInfo { used: true, ..oldvars[i as int] }),
                    ));
                    assert(self.scope_stack() =~= spec_mark_used(sub, name@) + stack.subrange(
                        k as int,
                        stack.len() as int,
                    ));
                    return true;
                },
                None => {},
            }
            assert(spec_mark_used(sub, name@) == spec_mark_used(stack.subrange(0, k - 1), name@).push(
                sub.last(),
            ));
            assert(stack.subrange(0, k - 1).push(sub.last()) + stack.subrange(
                k as int,
                stack.len() as int,
            ) =~= stack.subrange(0, k - 1) + stack.subrange(k - 1, stack.len() as int));
            k = k - 1;
            assert(spec_mark_used(stack, name@) == spec_mark_used(stack.subrange(0, k as int), name@)
                + stack.subrange(k as int, stack.len() as int));
        }
        assert(self.scope_stack().subrange(0, 0) =~= Seq::<Seq<VarInfo>>::empty());
        assert(self.scope_stack().subrange(0, self.scope_stack().len() as int) =~= self.scope_stack());
        false
    }

    /// Looks up the type of a variable.
    pub fn var_type(&self, name: &str) -> (r: Option<HulkType>)
        ensures
            r is Some == spec_lookup(self.scope_stack(), name@) is Some,
            r matches Some(t) ==> t == spec_lookup(self.scope_stack(), name@).unwrap().hulk_type,
    {
        match self.lookup_var(name) {
            Some(v) => Some(v.hulk_type.duplicate()),
            None => None,
        }
    }

    // ── Type queries ────────────────────────────────────────────

    /// Checks if a type name is defined (built-in or declared class).
    pub fn type_exists(&self, name: &str) -> (r: bool)
        ensures
            r == (spec_builtin_type_name(name@) || find_class(self.classes@, name@) is Some),
    {
        if str_eq(name, "Number") || str_eq(name, "String") || str_eq(name, "Boolean") || str_eq(
            name,
            "Void",
        ) || str_eq(name, "Object") {
            return true;
        }
        index_of_class(&self.classes, name).is_some()
    }

    /// Returns the `ClassInfo` for a given type name.
    pub fn get_class(&self, name: &str) -> (r: Option<&ClassInfo>)
        ensures
            r is Some == find_class(self.classes@, name@) is Some,
            r matches Some(c) ==> *c == find_class(self.classes@, name@).unwrap(),
    {
        match index_of_class(&self.classes, name) {
            Some(i) => Some(&self.classes[i]),
            None => None,
        }
    }

    /// Returns the `FuncInfo` for a global function.
    pub fn get_function(&self, name: &str) -> (r: Option<&FuncInfo>)
        ensures
            r is Some == find_func(self.functions@, name@) is Some,
            r matches Some(f) ==> *f == find_func(self.functions@, name@).unwrap(),
    {
        match index_of_func(&self.functions, name) {
            Some(i) => Some(&self.functions[i]),
            None => None,
        }
    }

    /// Returns the chain of ancestors: [self, parent, grandparent, ..., Object].
    /// The walk stops at the first repeated name (cyclic inheritance), at a
    /// name that is not a declared class, or at a class without parent.
    pub fn ancestors(&self, class_name: &str) -> (chain: Vec<String>)
        ensures
            string_views(chain@) == spec_ancestors(self.classes@, class_name@),
    {
        let mut chain: Vec<String> = Vec::new();
        let mut current: String = class_name.to_owned();
        let mut fuel: u128 = (self.classes.len() as u128) + 1;
        assert(string_views(chain@) =~= Seq::<Seq<char>>::empty());
        loop
            invariant
                walk(self.classes@, current@, string_views(chain@), fuel as nat)
                    == spec_ancestors(self.classes@, class_name@),
            ensures
                string_views(chain@) == spec_ancestors(self.classes@, class_name@),
            decreases fuel,
        {
            if fuel == 0 || contains_string(&chain, current.as_str()) {
                return chain;
            }
            let ghost visited = string_views(chain@);
            match index_of_class(&self.classes, current.as_str()) {
                None => {
                    chain.push(current);
                    assert(string_views(chain@) =~= visited.push(current@));
                    return chain;
                },
                Some(i) => {
                    match &self.classes[i].parent {
                        None => {
                            chain.push(current);
                            assert(string_views(chain@) =~= visited.push(current@));
                            return chain;
                        },
                        Some(p) => {
                            let next = p.clone();
                            chain.push(current);
                            assert(string_views(chain@) =~= visited.push(current@));
                            current = next;
                            fuel = fuel - 1;
                        },
                    }
                },
            }
        }
    }

    /// Checks if `child_class` is a (transitive) subclass of `parent_class`.
    pub fn is_subclass(&self, child_class: &str, parent_class: &str) -> (r: bool)
        ensures
            r == spec_ancestors(self.classes@, child_class@).contains(parent_class@),
    {
        let chain = self.ancestors(child_class);
        contains_string(&chain, parent_class)
    }

    /// Tests whether `child` conforms to (is a subtype of) `parent`.
    pub fn conforms_to(&self, child: &HulkType, parent: &HulkType) -> (r: bool)
        ensures
            r == spec_conforms(self.classes@, child@, parent@),
    {
        // Error types conform to everything (for recovery).
        if child.is_error() || parent.is_error() {
            return true;
        }
        // Same type.
        if child.same_as(parent) {
            return true;
        }
        // Everything conforms to Object.
        if matches!(parent, HulkType::Object) {
            return true;
        }
        // Check the class hierarchy.
        match (child, parent) {
            (HulkType::Class(c), HulkType::Class(p)) => self.is_subclass(c.as_str(), p.as_str()),
            _ => false,
        }
    }

    /// Computes the lowest common ancestor of two types in the inheritance
    /// hierarchy. Falls back to `Object` if there is no better match.
    pub fn lca(&self, a: &HulkType, b: &HulkType) -> (r: HulkType)
        ensures
            r@ == spec_lca(self.classes@, a@, b@),
    {
        if a.same_as(b) {
            return a.duplicate();
        }
        if a.is_error() {
            return b.duplicate();
        }
        if b.is_error() {
            return a.duplicate();
        }
        if matches!(a, HulkType::Object) || matches!(b, HulkType::Object) {
            return HulkType::Object;
        }
        if !matches!(b, HulkType::Class(_)) {
            return HulkType::Object;
        }
        match a {
            HulkType::Class(ca) => {
                let ancestors = self.ancestors(ca.as_str());
                let ghost anc = string_views(ancestors@);
                assert(spec_lca(self.classes@, a@, b@) == lca_scan(self.classes@, anc, b@, 0));
                let mut i: usize = 0;
                while i < ancestors.len()
                    invariant
                        i <= ancestors@.len(),
                        anc == string_views(ancestors@),
                        anc == spec_ancestors(self.classes@, ca@),
                        spec_lca(self.classes@, a@, b@) == lca_scan(self.classes@, anc, b@, 0),
                        lca_scan(self.classes@, anc, b@, 0) == lca_scan(
                            self.classes@,
                            anc,
                            b@,
                            i as int,
                        ),
                    decreases ancestors.len() - i,
                {
                    let candidate = HulkType::Class(ancestors[i].clone());
                    assert(anc[i as int] == ancestors@[i as int]@);
                    assert(candidate@ == TypeV::Class(anc[i as int]));
                    if self.conforms_to(b, &candidate) {
                        return candidate;
                    }
                    i = i + 1;
                }
                HulkType::Object
            },
            _ => HulkType::Object,
        }
    }

    /// Looks up an attribute in a class or its ancestors, returning the
    /// class that declares it together with the attribute.
    pub fn resolve_attribute(&self, class_name: &str, attr_name: &str) -> (r: Option<(String, AttrInfo)>)
        ensures
            r is Some == spec_resolve_attribute(self.classes@, class_name@, attr_name@) is Some,
            r matches Some((owner, attr)) ==> spec_resolve_attribute(self.classes@, class_name@, attr_name@)
                == Some((owner@, attr)),
    {
        let ancestors = self.ancestors(class_name);
        let ghost anc = string_views(ancestors@);
        let mut i: usize = 0;
        while i < ancestors.len()
            invariant
                i <= ancestors@.len(),
                anc == string_views(ancestors@),
                anc == spec_ancestors(self.classes@, class_name@),
                resolve_attr_scan(self.classes@, anc, attr_name@, 0) == resolve_attr_scan(
                    self.classes@,
                    anc,
                    attr_name@,
                    i as int,
                ),
            decreases ancestors.len() - i,
        {
            match self.get_class(ancestors[i].as_str()) {
                Some(class) => {
                    match class.get_attribute(attr_name) {
                        Some(attr) => {
                            return Some((ancestors[i].clone(), attr.duplicate()));
                        },
                        None => {},
                    }
                },
                None => {
                    return None;
                },
            }
            i = i + 1;
        }
        None
    }

    /// Looks up a method in a class or its ancestors, returning the class
    /// that declares it together with its signature.
    pub fn resolve_method(&self, class_name: &str, method_name: &str) -> (r: Option<(String, FuncInfo)>)
        ensures
            r is Some == spec_resolve_method(self.classes@, class_name@, method_name@) is Some,
            r matches Some((owner, m)) ==> spec_resolve_method(self.classes@, class_name@, method_name@)
                matches Some((o, f)) && o == owner@ && same_signature(m, f),
    {
        let ancestors = self.ancestors(class_name);
        let ghost anc = string_views(ancestors@);
        let mut i: usize = 0;
        while i < ancestors.len()
            invariant
                i <= ancestors@.len(),
                anc == string_views(ancestors@),
                anc == spec_ancestors(self.classes@, class_name@),
                resolve_method_scan(self.classes@, anc, method_name@, 0) == resolve_method_scan(
                    self.classes@,
                    anc,
                    method_name@,
                    i as int,
                ),
            decreases ancestors.len() - i,
        {
            match self.get_class(ancestors[i].as_str()) {
                Some(class) => {
                    match class.get_method(method_name) {
                        Some(m) => {
                            return Some((ancestors[i].clone(), m.duplicate()));
                        },
                        None => {},
                    }
                },
                None => {
                    return None;
                },
            }
            i = i + 1;
        }
        None
    }

    /// Looks up a method starting at the parent of `class_name`: the
    /// method that an override in `class_name` replaces.
    pub fn resolve_parent_method(&self, class_name: &str, method_name: &str) -> (r: Option<(String, FuncInfo)>)
        ensures
            r is Some == spec_resolve_parent_method(self.classes@, class_name@, method_name@) is Some,
            r matches Some((owner, m)) ==> spec_resolve_parent_method(self.classes@, class_name@, method_name@)
                matches Some((o, f)) && o == owner@ && same_signature(m, f),
    {
        match self.get_class(class_name) {
            Some(class) => match &class.parent {
                Some(p) => self.resolve_method(p.as_str(), method_name),
                None => None,
            },
            None => None,
        }
    }
}

fn builtin_class(name: &str, parent: Option<String>) -> (c: ClassInfo)
    ensures
        c.name@ == name@,
        c.parent == parent,
        c.params@.len() == 0,
        c.attributes@.len() == 0,
        c.methods@.len() == 0,
        c.span == Position::new_spec(0, 0),
{
    ClassInfo {
        name: name.to_owned(),
        params: Vec::new(),
        parent,
        attributes: Vec::new(),
        methods: Vec::new(),
        span: Position::new(0, 0),
    }
}

/// The names and types of a parameter list.
pub open spec fn param_views(ps: Seq<(String, HulkType)>) -> Seq<(Seq<char>, TypeV)> {
    ps.map_values(|p: (String, HulkType)| (p.0@, p.1@))
}

/// Whether two parameter lists have the same names and types, in order.
pub fn params_equal(a: &Vec<(String, HulkType)>, b: &Vec<(String, HulkType)>) -> (r: bool)
    ensures
        r == (param_views(a@) == param_views(b@)),
{
    if a.len() != b.len() {
        assert(param_views(a@).len() != param_views(b@).len());
        return false;
    }
    let mut i: usize = 0;
    while i < a.len()
        invariant
            i <= a.len(),
            a.len() == b.len(),
            forall|k: int| 0 <= k < i ==> param_views(a@)[k] == param_views(b@)[k],
        decreases a.len() - i,
    {
        let (an, at) = &a[i];
        let (bn, bt) = &b[i];
        if !str_eq(an.as_str(), bn.as_str()) || !at.same_as(bt) {
            assert(param_views(a@)[i as int] != param_views(b@)[i as int]);
            return false;
        }
        i = i + 1;
    }
    assert(param_views(a@) =~= param_views(b@));
    true
}

/// A built-in class: given name and parent, no parameters, attributes or
/// methods, and the empty span at offset 0.
pub open spec fn builtin_class_ok(c: ClassInfo, name: Seq<char>, parent: Option<Seq<char>>) -> bool {
    &&& c.name@ == name
    &&& match c.parent {
        Some(p) => parent == Some(p@),
        None => parent is None,
    }
    &&& c.params@.len() == 0
    &&& c.attributes@.len() == 0
    &&& c.methods@.len() == 0
    &&& c.span == Position::new_spec(0, 0)
}

/// The built-in types, in registration order.
pub open spec fn spec_builtin_classes(cs: Seq<ClassInfo>) -> bool {
    &&& cs.len() == 4
    &&& builtin_class_ok(cs[0], "Object"@, None)
    &&& builtin_class_ok(cs[1], "Number"@, Some("Object"@))
    &&& builtin_class_ok(cs[2], "String"@, Some("Object"@))
    &&& builtin_class_ok(cs[3], "Boolean"@, Some("Object"@))
}

/// A built-in function with the given name, parameters and return type,
/// and the empty span at offset 0.
pub open spec fn builtin_fn_ok(f: FuncInfo, name: Seq<char>, params: Seq<(Seq<char>, TypeV)>, ret: TypeV) -> bool {
    &&& f.name@ == name
    &&& param_views(f.params@) == params
    &&& f.return_type@ == ret
    &&& f.span == Position::new_spec(0, 0)
}

/// The built-in functions, in registration order.
pub open spec fn spec_builtin_functions(fs: Seq<FuncInfo>) -> bool {
    &&& fs.len() == 7
    &&& builtin_fn_ok(fs[0], "print"@, seq![("value"@, TypeV::Object)], TypeV::Void)
    &&& builtin_fn_ok(fs[1], "sin"@, seq![("x"@, TypeV::Number)], TypeV::Number)
    &&& builtin_fn_ok(fs[2], "cos"@, seq![("x"@, TypeV::Number)], TypeV::Number)
    &&& builtin_fn_ok(fs[3], "sqrt"@, seq![("x"@, TypeV::Number)], TypeV::Number)
    &&& builtin_fn_ok(fs[4], "exp"@, seq![("x"@, TypeV::Number)], TypeV::Number)
    &&& builtin_fn_ok(fs[5], "log"@, seq![("base"@, TypeV::Number), ("x"@, TypeV::Number)], TypeV::Number)
    &&& builtin_fn_ok(fs[6], "rand"@, Seq::empty(), TypeV::Number)
}

/// The views of a sequence of strings.
pub open spec fn string_views(s: Seq<String>) -> Seq<Seq<char>> {
    s.map_values(|x: String| x@)
}

/// Tests whether a vector of strings holds a given string.
pub fn contains_string(v: &Vec<String>, s: &str) -> (r: bool)
    ensures
        r == string_views(v@).contains(s@),
{
    let mut i: usize = 0;
    while i < v.len()
        invariant
            i <= v.len(),
            forall|j: int| 0 <= j < i ==> v@[j]@ != s@,
        decreases v.len() - i,
    {
        if str_eq(v[i].as_str(), s) {
            assert(string_views(v@)[i as int] == s@);
            return true;
        }
        i = i + 1;
    }
    assert forall|j: int| 0 <= j < string_views(v@).len() implies string_views(v@)[j] != s@ by {}
    false
}

/// Names that are built-in types.
pub open spec fn spec_builtin_type_name(name: Seq<char>) -> bool {
    name == "Number"@ || name == "String"@ || name == "Boolean"@ || name == "Void"@ || name
        == "Object"@
}

/// Walks the parent chain from `cur`, appending each visited name, and
/// stops at a repeated name, at a name that is not a declared class, or at
/// a class without parent.
pub open spec fn walk(classes: Seq<ClassInfo>, cur: Seq<char>, visited: Seq<Seq<char>>, fuel: nat) -> Seq<Seq<char>>
    decreases fuel,
{
    if fuel == 0 || visited.contains(cur) {
        visited
    } else {
        match find_class(classes, cur) {
            Some(c) => match c.parent {
                Some(p) => walk(classes, p@, visited.push(cur), (fuel - 1) as nat),
                None => visited.push(cur),
            },
            None => visited.push(cur),
        }
    }
}

/// The ancestors of a class, itself first.
pub open spec fn spec_ancestors(classes: Seq<ClassInfo>, name: Seq<char>) -> Seq<Seq<char>> {
    walk(classes, name, Seq::empty(), (classes.len() + 1) as nat)
}

/// Subtyping between types.
pub open spec fn spec_conforms(classes: Seq<ClassInfo>, child: TypeV, parent: TypeV) -> bool {
    if child is Error || parent is Error {
        true
    } else if child == parent {
        true
    } else if parent is Object {
        true
    } else {
        match (child, parent) {
            (TypeV::Class(c), TypeV::Class(p)) => spec_ancestors(classes, c).contains(p),
            _ => false,
        }
    }
}

/// The first ancestor, at index `i` or later, to which `b` conforms.
pub open spec fn lca_scan(classes: Seq<ClassInfo>, anc: Seq<Seq<char>>, b: TypeV, i: int) -> TypeV
    decreases anc.len() - i,
{
    if i < 0 || i >= anc.len() {
        TypeV::Object
    } else if spec_conforms(classes, b, TypeV::Class(anc[i])) {
        TypeV::Class(anc[i])
    } else {
        lca_scan(classes, anc, b, i + 1)
    }
}

/// Lowest common ancestor of two types.
pub open spec fn spec_lca(classes: Seq<ClassInfo>, a: TypeV, b: TypeV) -> TypeV {
    if a == b {
        a
    } else if a is Error {
        b
    } else if b is Error {
        a
    } else if a is Object || b is Object {
        TypeV::Object
    } else {
        match (a, b) {
            (TypeV::Class(ca), TypeV::Class(_)) => lca_scan(
                classes,
                spec_ancestors(classes, ca),
                b,
                0,
            ),
            _ => TypeV::Object,
        }
    }
}

pub open spec fn resolve_attr_scan(classes: Seq<ClassInfo>, anc: Seq<Seq<char>>, attr: Seq<char>, i: int) -> Option<(Seq<char>, AttrInfo)>
    decreases anc.len() - i,
{
    if i < 0 || i >= anc.len() {
        None
    } else {
        match find_class(classes, anc[i]) {
            Some(c) => match find_attr(c.attributes@, attr) {
                Some(a) => Some((anc[i], a)),
                None => resolve_attr_scan(classes, anc, attr, i + 1),
            },
            None => None,
        }
    }
}

/// The attribute `attr` as seen from class `name`: the first ancestor
/// that declares it, with its declaration.
pub open spec fn spec_resolve_attribute(classes: Seq<ClassInfo>, name: Seq<char>, attr: Seq<char>) -> Option<(Seq<char>, AttrInfo)> {
    resolve_attr_scan(classes, spec_ancestors(classes, name), attr, 0)
}

pub open spec fn resolve_method_scan(classes: Seq<ClassInfo>, anc: Seq<Seq<char>>, m: Seq<char>, i: int) -> Option<(Seq<char>, FuncInfo)>
    decreases anc.len() - i,
{
    if i < 0 || i >= anc.len() {
        None
    } else {
        match find_class(classes, anc[i]) {
            Some(c) => match find_func(c.methods@, m) {
                Some(f) => Some((anc[i], f)),
                None => resolve_method_scan(classes, anc, m, i + 1),
            },
            None => None,
        }
    }
}

/// The method `m` as seen from class `name`: the first ancestor that
/// declares it, with its signature.
pub open spec fn spec_resolve_method(classes: Seq<ClassInfo>, name: Seq<char>, m: Seq<char>) -> Option<(Seq<char>, FuncInfo)> {
    resolve_method_scan(classes, spec_ancestors(classes, name), m, 0)
}

/// The method that an override of `m` in class `name` replaces.
pub open spec fn spec_resolve_parent_method(classes: Seq<ClassInfo>, name: Seq<char>, m: Seq<char>) -> Option<(Seq<char>, FuncInfo)> {
    match find_class(classes, name) {
        Some(c) => match c.parent {
            Some(p) => spec_resolve_method(classes, p@, m),
            None => None,
        },
        None => None,
    }
}

/// Two function records describe the same function.
pub open spec fn same_signature(a: FuncInfo, b: FuncInfo) -> bool {
    a.name == b.name && a.params@ == b.params@ && a.return_type == b.return_type && a.span == b.span
}

// ───────────────────────── Laws ─────────────────────────

proof fn lemma_find_name_push(names: Seq<Seq<char>>, x: Seq<char>, name: Seq<char>, i: int)
    requires
        0 <= i <= names.len(),
        find_name(names, name, i) is None,
    ensures
        find_name(names.push(x), name, i) == (if x == name {
            Some(names.len() as int)
        } else {
            None::<int>
        }),
    decreases names.len() - i,
{
    let np = names.push(x);
    if i < names.len() {
        assert(np[i] == names[i]);
        lemma_find_name_push(names, x, name, i + 1);
    } else {
        assert(np[i] == x);
        assert(find_name(np, name, i + 1) is None);
    }
}

/// A variable defined in the innermost scope (where its name was not yet
/// bound) is what a lookup of that name then finds.
pub proof fn law_define_then_lookup(stack: Seq<Seq<VarInfo>>, v: VarInfo)
    requires
        stack.len() >= 1,
        find_name(var_names(stack.last()), v.name@, 0) is None,
    ensures
        spec_lookup(stack.drop_last().push(stack.last().push(v)), v.name@) == Some(v),
{
    let st2 = stack.drop_last().push(stack.last().push(v));
    assert(st2.last() == stack.last().push(v));
    assert(var_names(stack.last().push(v)) =~= var_names(stack.last()).push(v.name@));
    lemma_find_name_push(var_names(stack.last()), v.name@, v.name@, 0);
}

/// Opening a new, empty scope changes no lookup.
pub proof fn law_empty_scope_hides_nothing(stack: Seq<Seq<VarInfo>>, name: Seq<char>)
    ensures
        spec_lookup(stack.push(Seq::empty()), name) == spec_lookup(stack, name),
{
    let st2 = stack.push(Seq::<VarInfo>::empty());
    assert(st2.drop_last() =~= stack);
    assert(var_names(st2.last()) =~= Seq::<Seq<char>>::empty());
}

/// Conformance is reflexive.
pub proof fn law_conforms_reflexive(classes: Seq<ClassInfo>, t: TypeV)
    ensures
        spec_conforms(classes, t, t),
{
}

/// Every type conforms to `Object`, and the error type conforms to every
/// type and every type to it.
pub proof fn law_conforms_object_and_error(classes: Seq<ClassInfo>, t: TypeV)
    ensures
        spec_conforms(classes, t, TypeV::Object),
        spec_conforms(classes, TypeV::Error, t),
        spec_conforms(classes, t, TypeV::Error),
{
}

proof fn lemma_lca_scan(classes: Seq<ClassInfo>, anc: Seq<Seq<char>>, b: TypeV, i: int)
    requires
        0 <= i,
    ensures
        lca_scan(classes, anc, b, i) is Object || (exists|k: int|
            i <= k < anc.len() && lca_scan(classes, anc, b, i) == TypeV::Class(anc[k])),
        spec_conforms(classes, b, lca_scan(classes, anc, b, i)),
    decreases anc.len() - i,
{
    if i < anc.len() {
        lemma_lca_scan(classes, anc, b, i + 1);
    }
}

/// The lowest common ancestor of two types is a common supertype of both.
pub proof fn law_lca_is_common_supertype(classes: Seq<ClassInfo>, a: TypeV, b: TypeV)
    ensures
        spec_conforms(classes, a, spec_lca(classes, a, b)),
        spec_conforms(classes, b, spec_lca(classes, a, b)),
{
    if a != b && !(a is Error) && !(b is Error) && !(a is Object) && !(b is Object) {
        match (a, b) {
            (TypeV::Class(ca), TypeV::Class(_)) => {
                let anc = spec_ancestors(classes, ca);
                lemma_lca_scan(classes, anc, b, 0);
                let r = lca_scan(classes, anc, b, 0);
                if !(r is Object) {
                    let k = choose|k: int| 0 <= k < anc.len() && r == TypeV::Class(anc[k]);
                    assert(anc.contains(anc[k]));
                }
            },
            _ => {},
        }
    }
}

/// The lowest common ancestor of a type with itself is that type.
pub proof fn law_lca_idempotent(classes: Seq<ClassInfo>, a: TypeV)
    ensures
        spec_lca(classes, a, a) == a,
{
}

/// One change of the innermost scope of a stack, as `define_var` or
/// `mark_var_used` makes it, beside the bindings defined so far: a new
/// binding of a name the scope does not bind yet (which joins them), or
/// the marking of a name the scope binds.
pub open spec fn scope_step(a: (Seq<Seq<VarInfo>>, Seq<VarInfo>), b: (Seq<Seq<VarInfo>>, Seq<VarInfo>)) -> bool {
    a.0.len() >= 1 && ((exists|v: VarInfo|
        find_name(var_names(a.0.last()), v.name@, 0) is None && b.0 == a.0.drop_last().push(a.0.last().push(v))
            && #[trigger] a.1.push(v) == b.1) || (exists|n: Seq<char>|
        find_name(var_names(a.0.last()), n, 0) is Some && b.0 == #[trigger] spec_mark_used(a.0, n) && b.1 == a.1))
}

/// The binding `x` records what `d` defined: the same name, type and span.
pub open spec fn same_definition(x: VarInfo, d: VarInfo) -> bool {
    x.name == d.name && x.hulk_type == d.hulk_type && x.span == d.span
}

proof fn lemma_mark_inner(a: Seq<Seq<VarInfo>>, n: Seq<char>)
    requires
        a.len() >= 1,
        find_name(var_names(a.last()), n, 0) is Some,
    ensures
        spec_mark_used(a, n).len() == a.len(),
        spec_mark_used(a, n).drop_last() == a.drop_last(),
        spec_mark_used(a, n).last().len() == a.last().len(),
        forall|j: int|
            0 <= j < a.last().len() ==> same_definition(#[trigger] spec_mark_used(a, n).last()[j], a.last()[j]),
        var_names(spec_mark_used(a, n).last()) == var_names(a.last()),
{
    let i = find_name(var_names(a.last()), n, 0).unwrap();
    lemma_find_name(var_names(a.last()), n, 0);
    let t = a.last().update(i, VarInfo { used: true, ..a.last()[i] });
    assert(spec_mark_used(a, n) == a.update(a.len() - 1, t));
    assert(a.update(a.len() - 1, t).drop_last() =~= a.drop_last());
    assert(var_names(t) =~= var_names(a.last()));
}

/// Scopes nest: after a new scope is pushed onto `s0` and then changed
/// only by new bindings (of names it did not bind) and by marking names
/// it binds, the stack under it is still `s0`, and the scope holds
/// exactly the bindings defined, in the order they were defined, each
/// with its name, type and span, under distinct names; so popping it
/// gives them back and leaves `s0` with every binding it had.
pub proof fn law_scope_round_trip(s0: Seq<Seq<VarInfo>>, trace: Seq<(Seq<Seq<VarInfo>>, Seq<VarInfo>)>)
    requires
        trace.len() >= 1,
        trace[0] == (s0.push(Seq::<VarInfo>::empty()), Seq::<VarInfo>::empty()),
        forall|i: int| 0 <= i < trace.len() - 1 ==> scope_step(#[trigger] trace[i], trace[i + 1]),
    ensures
        trace.last().0.len() == s0.len() + 1,
        trace.last().0.drop_last() == s0,
        trace.last().0.last().len() == trace.last().1.len(),
        forall|j: int|
            0 <= j < trace.last().1.len() ==> same_definition(#[trigger] trace.last().0.last()[j], trace.last().1[j]),
        crate::semantic::collector::distinct_names(var_names(trace.last().0.last())),
    decreases trace.len(),
{
    if trace.len() == 1 {
        assert(s0.push(Seq::<VarInfo>::empty()).drop_last() =~= s0);
        assert(var_names(Seq::<VarInfo>::empty()) =~= Seq::<Seq<char>>::empty());
    } else {
        let init = trace.drop_last();
        assert forall|i: int| 0 <= i < init.len() - 1 implies scope_step(#[trigger] init[i], init[i + 1]) by {
            assert(init[i] == trace[i] && init[i + 1] == trace[i + 1]);
            assert(scope_step(trace[i], trace[i + 1]));
        }
        law_scope_round_trip(s0, init);
        let a = trace[trace.len() - 2];
        let b = trace.last();
        assert(a == init.last());
        assert(scope_step(trace[trace.len() - 2], trace[trace.len() - 1]));
        if exists|v: VarInfo|
            find_name(var_names(a.0.last()), v.name@, 0) is None && b.0 == a.0.drop_last().push(a.0.last().push(v))
                && #[trigger] a.1.push(v) == b.1 {
            let v = choose|v: VarInfo|
                find_name(var_names(a.0.last()), v.name@, 0) is None && b.0 == a.0.drop_last().push(
                    a.0.last().push(v),
                ) && #[trigger] a.1.push(v) == b.1;
            lemma_find_name(var_names(a.0.last()), v.name@, 0);
            assert(b.0.drop_last() =~= a.0.drop_last());
            assert(b.0.last() == a.0.last().push(v));
            let na = var_names(a.0.last());
            assert(var_names(b.0.last()) =~= na.push(v.name@));
            assert(!na.contains(v.name@)) by {
                if na.contains(v.name@) {
                    let k = choose|k: int| 0 <= k < na.len() && na[k] == v.name@;
                }
            }
            let nb = na.push(v.name@);
            assert forall|i: int, j: int| 0 <= i < j < nb.len() implies nb[i] != nb[j] by {
                if j == na.len() {
                    assert(nb[i] == na[i]);
                } else {
                    assert(nb[i] == na[i] && nb[j] == na[j]);
                }
            }
            assert forall|j: int| 0 <= j < b.1.len() implies same_definition(#[trigger] b.0.last()[j], b.1[j]) by {
                if j < a.1.len() {
                    assert(b.0.last()[j] == a.0.last()[j]);
                    assert(b.1[j] == a.1[j]);
                    assert(same_definition(a.0.last()[j], a.1[j]));
                }
            }
        } else {
            let n = choose|n: Seq<char>|
                find_name(var_names(a.0.last()), n, 0) is Some && b.0 == #[trigger] spec_mark_used(a.0, n) && b.1
                    == a.1;
            lemma_mark_inner(a.0, n);
            assert forall|j: int| 0 <= j < b.1.len() implies same_definition(#[trigger] b.0.last()[j], b.1[j]) by {
                assert(same_definition(spec_mark_used(a.0, n).last()[j], a.0.last()[j]));
                assert(same_definition(a.0.last()[j], a.1[j]));
            }
        }
    }
}

/// `y` is the declared parent of class `x`.
pub open spec fn parent_link(classes: Seq<ClassInfo>, x: Seq<char>, y: Seq<char>) -> bool {
    match find_class(classes, x) {
        Some(c) => match c.parent {
            Some(p) => p@ == y,
            None => false,
        },
        None => false,
    }
}

/// No two distinct classes inherit, each directly or not, from the other.
pub open spec fn no_inheritance_cycle(classes: Seq<ClassInfo>) -> bool {
    forall|x: Seq<char>, y: Seq<char>|
        x != y && #[trigger] spec_ancestors(classes, x).contains(y) ==> !#[trigger] spec_ancestors(
            classes,
            y,
        ).contains(x)
}

proof fn lemma_walk_shape(classes: Seq<ClassInfo>, cur: Seq<char>, vis: Seq<Seq<char>>, fuel: nat)
    ensures
        ({
            let r = walk(classes, cur, vis, fuel);
            &&& vis.len() <= r.len() <= vis.len() + fuel
            &&& r.subrange(0, vis.len() as int) == vis
            &&& (fuel == 0 || vis.contains(cur)) ==> r == vis
            &&& (fuel > 0 && !vis.contains(cur)) ==> r.len() > vis.len() && r[vis.len() as int] == cur
            &&& forall|j: int|
                vis.len() <= j < r.len() - 1 ==> parent_link(classes, #[trigger] r[j], r[j + 1])
            &&& crate::semantic::collector::distinct_names(vis)
                ==> crate::semantic::collector::distinct_names(r)
        }),
    decreases fuel,
{
    let r = walk(classes, cur, vis, fuel);
    if fuel == 0 || vis.contains(cur) {
        assert(vis.subrange(0, vis.len() as int) =~= vis);
    } else {
        let v2 = vis.push(cur);
        assert(crate::semantic::collector::distinct_names(vis)
            ==> crate::semantic::collector::distinct_names(v2)) by {
            if crate::semantic::collector::distinct_names(vis) {
                assert forall|i: int, j: int| 0 <= i < j < v2.len() implies v2[i] != v2[j] by {
                    if j == vis.len() {
                        assert(v2[i] == vis[i]);
                        assert(vis.contains(vis[i]));
                    } else {
                        assert(v2[i] == vis[i] && v2[j] == vis[j]);
                    }
                }
            }
        }
        match find_class(classes, cur) {
            Some(c) => match c.parent {
                Some(p) => {
                    lemma_walk_shape(classes, p@, v2, (fuel - 1) as nat);
                    assert(r == walk(classes, p@, v2, (fuel - 1) as nat));
                    assert(r.subrange(0, v2.len() as int) == v2);
                    assert(r[vis.len() as int] == r.subrange(0, v2.len() as int)[vis.len() as int]);
                    assert(r.subrange(0, vis.len() as int) =~= v2.subrange(0, vis.len() as int));
                    assert(v2.subrange(0, vis.len() as int) =~= vis);
                    assert forall|j: int| vis.len() <= j < r.len() - 1 implies parent_link(
                        classes,
                        #[trigger] r[j],
                        r[j + 1],
                    ) by {
                        if j == vis.len() {
                            assert(r[j] == cur);
                            if (fuel - 1) as nat == 0 || v2.contains(p@) {
                                assert(r == v2);
                            } else {
                                assert(r[j + 1] == p@);
                            }
                        }
                    }
                },
                None => {
                    assert(r == v2);
                    assert(v2.subrange(0, vis.len() as int) =~= vis);
                },
            },
            None => {
                assert(r == v2);
                assert(v2.subrange(0, vis.len() as int) =~= vis);
            },
        }
    }
}

proof fn lemma_walk_contains_prefix(classes: Seq<ClassInfo>, cur: Seq<char>, vis: Seq<Seq<char>>, fuel: nat, x: Seq<char>)
    requires
        vis.contains(x),
    ensures
        walk(classes, cur, vis, fuel).contains(x),
{
    lemma_walk_shape(classes, cur, vis, fuel);
    let r = walk(classes, cur, vis, fuel);
    let i = choose|i: int| 0 <= i < vis.len() && vis[i] == x;
    assert(r.subrange(0, vis.len() as int)[i] == r[i]);
}

proof fn lemma_walk_follows(classes: Seq<ClassInfo>, path: Seq<Seq<char>>, vis: Seq<Seq<char>>, fuel: nat)
    requires
        1 <= path.len() <= fuel,
        crate::semantic::collector::distinct_names(path),
        forall|j: int| 0 <= j < path.len() ==> !vis.contains(#[trigger] path[j]),
        forall|j: int| 0 <= j < path.len() - 1 ==> parent_link(classes, #[trigger] path[j], path[j + 1]),
    ensures
        forall|j: int| 0 <= j < path.len() ==> walk(classes, path[0], vis, fuel).contains(#[trigger] path[j]),
    decreases path.len(),
{
    let cur = path[0];
    assert(!vis.contains(path[0]));
    let v2 = vis.push(cur);
    if path.len() == 1 {
        assert(v2.contains(cur)) by { assert(v2[vis.len() as int] == cur); }
        match find_class(classes, cur) {
            Some(c) => match c.parent {
                Some(p) => { lemma_walk_contains_prefix(classes, p@, v2, (fuel - 1) as nat, cur); },
                None => {},
            },
            None => {},
        }
    } else {
        assert(parent_link(classes, path[0], path[1]));
        let c = find_class(classes, cur).unwrap();
        let p = c.parent.unwrap();
        assert(p@ == path[1]);
        let rest = path.drop_first();
        assert forall|j: int| 0 <= j < rest.len() implies !v2.contains(#[trigger] rest[j]) by {
            assert(rest[j] == path[j + 1]);
            assert(!vis.contains(path[j + 1]));
            assert(path[j + 1] != path[0]);
            if v2.contains(rest[j]) {
                let k = choose|k: int| 0 <= k < v2.len() && v2[k] == rest[j];
                if k < vis.len() {
                    assert(vis.contains(vis[k]));
                }
            }
        }
        assert forall|j: int| 0 <= j < rest.len() - 1 implies parent_link(classes, #[trigger] rest[j], rest[j + 1]) by {
            assert(rest[j] == path[j + 1] && rest[j + 1] == path[j + 2]);
        }
        assert(crate::semantic::collector::distinct_names(rest)) by {
            assert forall|i: int, j: int| 0 <= i < j < rest.len() implies rest[i] != rest[j] by {
                assert(rest[i] == path[i + 1] && rest[j] == path[j + 1]);
            }
        }
        lemma_walk_follows(classes, rest, v2, (fuel - 1) as nat);
        assert(rest[0] == p@);
        assert(walk(classes, cur, vis, fuel) == walk(classes, p@, v2, (fuel - 1) as nat));
        assert forall|j: int| 0 <= j < path.len() implies walk(classes, path[0], vis, fuel).contains(#[trigger] path[j]) by {
            if j == 0 {
                assert(v2.contains(cur)) by { assert(v2[vis.len() as int] == cur); }
                lemma_walk_contains_prefix(classes, p@, v2, (fuel - 1) as nat, cur);
            } else {
                assert(path[j] == rest[j - 1]);
            }
        }
    }
}

/// Every class on the ancestor chain of `name` has, among its own
/// ancestors, every class that comes after it on that chain.
proof fn lemma_ancestors_suffix(classes: Seq<ClassInfo>, name: Seq<char>, k: int, m: int)
    requires
        0 <= k <= m < spec_ancestors(classes, name).len(),
    ensures
        spec_ancestors(classes, spec_ancestors(classes, name)[k]).contains(spec_ancestors(classes, name)[m]),
{
    let anc = spec_ancestors(classes, name);
    let fuel = (classes.len() + 1) as nat;
    lemma_walk_shape(classes, name, Seq::empty(), fuel);
    assert(crate::semantic::collector::distinct_names(Seq::<Seq<char>>::empty()));
    let path = anc.subrange(k, m + 1);
    assert(crate::semantic::collector::distinct_names(path)) by {
        assert forall|i: int, j: int| 0 <= i < j < path.len() implies path[i] != path[j] by {
            assert(path[i] == anc[k + i] && path[j] == anc[k + j]);
        }
    }
    assert forall|j: int| 0 <= j < path.len() - 1 implies parent_link(classes, #[trigger] path[j], path[j + 1]) by {
        assert(path[j] == anc[k + j] && path[j + 1] == anc[k + j + 1]);
    }
    assert forall|j: int| 0 <= j < path.len() implies !Seq::<Seq<char>>::empty().contains(#[trigger] path[j]) by {}
    lemma_walk_follows(classes, path, Seq::empty(), fuel);
    assert(path[0] == anc[k]);
    assert(path[m - k] == anc[m]);
}

proof fn lemma_ancestors_start(classes: Seq<ClassInfo>, name: Seq<char>)
    ensures
        spec_ancestors(classes, name).len() >= 1,
        spec_ancestors(classes, name)[0] == name,
{
    lemma_walk_shape(classes, name, Seq::empty(), (classes.len() + 1) as nat);
}

proof fn lemma_lca_scan_reaches(classes: Seq<ClassInfo>, anc: Seq<Seq<char>>, b: TypeV, i: int, m: int)
    requires
        0 <= i <= m < anc.len(),
        spec_conforms(classes, b, TypeV::Class(anc[m])),
    ensures
        exists|k: int| i <= k <= m && lca_scan(classes, anc, b, i) == TypeV::Class(anc[k]),
    decreases m - i,
{
    if !spec_conforms(classes, b, TypeV::Class(anc[i])) {
        lemma_lca_scan_reaches(classes, anc, b, i + 1, m);
    } else {
        assert(lca_scan(classes, anc, b, i) == TypeV::Class(anc[i]));
    }
}

/// The lowest common ancestor of two types lies below every class that
/// both types conform to.
pub proof fn law_lca_is_least(classes: Seq<ClassInfo>, a: TypeV, b: TypeV, c: Seq<char>)
    requires
        spec_conforms(classes, a, TypeV::Class(c)),
        spec_conforms(classes, b, TypeV::Class(c)),
    ensures
        spec_conforms(classes, spec_lca(classes, a, b), TypeV::Class(c)),
{
    if a != b && !(a is Error) && !(b is Error) && !(a is Object) && !(b is Object) {
        match (a, b) {
            (TypeV::Class(ca), TypeV::Class(_)) => {
                let anc = spec_ancestors(classes, ca);
                lemma_ancestors_start(classes, ca);
                assert(anc.contains(c)) by {
                    if ca == c {
                        assert(anc[0] == c);
                    }
                }
                let m = choose|m: int| 0 <= m < anc.len() && anc[m] == c;
                lemma_lca_scan_reaches(classes, anc, b, 0, m);
                let k = choose|k: int| 0 <= k <= m && lca_scan(classes, anc, b, 0) == TypeV::Class(anc[k]);
                lemma_ancestors_suffix(classes, ca, k, m);
            },
            _ => {},
        }
    }
}

/// In a hierarchy without inheritance cycles, the lowest common ancestor
/// does not depend on the order of its arguments.
pub proof fn law_lca_symmetric(classes: Seq<ClassInfo>, a: TypeV, b: TypeV)
    requires
        no_inheritance_cycle(classes),
    ensures
        spec_lca(classes, a, b) == spec_lca(classes, b, a),
{
    let r1 = spec_lca(classes, a, b);
    let r2 = spec_lca(classes, b, a);
    if a != b && !(a is Error) && !(b is Error) && !(a is Object) && !(b is Object) {
        match (a, b) {
            (TypeV::Class(ca), TypeV::Class(cb)) => {
                law_lca_is_common_supertype(classes, a, b);
                law_lca_is_common_supertype(classes, b, a);
                lemma_lca_scan(classes, spec_ancestors(classes, ca), b, 0);
                lemma_lca_scan(classes, spec_ancestors(classes, cb), a, 0);
                if r2 is Class {
                    let c2 = r2->Class_0;
                    law_lca_is_least(classes, a, b, c2);
                }
                if r1 is Class {
                    let c1 = r1->Class_0;
                    law_lca_is_least(classes, b, a, c1);
                }
                if r1 is Class && r2 is Class {
                    let c1 = r1->Class_0;
                    let c2 = r2->Class_0;
                    if c1 != c2 {
                        assert(spec_ancestors(classes, c1).contains(c2));
                        assert(spec_ancestors(classes, c2).contains(c1));
                    }
                }
            },
            _ => {},
        }
    }
}

} // verus!

//! Semantic analysis of HULK programs.
//!
//! Four passes run after parsing:
//!
//! 1. The collector (`collector`) registers all top-level class and
//!    function declarations in the symbol table.
//! 2. The semantic checker (`semantic_checker`) validates scoping, name
//!    resolution, arity and structural rules.
//! 3. Type inference (`type_inferer`) fills in the types that the
//!    declarations leave unannotated.
//! 4. The type checker (`type_checker`) infers expression types and
//!    verifies type conformance across the program.

pub mod types;
pub mod symbol_table;
pub mod scopes;
pub mod errors;
pub mod collector;
pub mod semantic_checker;
pub mod check_laws;
pub mod type_checker;
pub mod type_inferer;

pub use types::HulkType;
pub use errors::{CompilerError, format_compiler_error, Severity};
pub use symbol_table::SymbolTable;

use vstd::prelude::*;
use crate::ast::Program;
use errors::diags_view;
use symbol_table::{ClassInfo, spec_builtin_classes, spec_builtin_functions, VarInfo, class_names, func_names};
use collector::{distinct_names, methods_distinct};
use collector::collected;
use type_checker::{tc_program, tview};
use type_inferer::program_infer_steps;
use semantic_checker::{sc_program, name_of};
use scopes::vstack;

verus! {

/// The result of running all semantic analysis passes.
pub struct AnalysisResult {
    /// All errors and warnings collected across the passes.
    pub diagnostics: Vec<CompilerError>,
    /// The populated symbol table (available even if there are errors).
    pub symbols: SymbolTable,
}

/// Whether some diagnostic of `ds` is an error.
pub open spec fn has_error(ds: Seq<CompilerError>) -> bool {
    exists|i: int| 0 <= i < ds.len() && (#[trigger] ds[i]).severity == Severity::Error
}

/// The diagnostics of `ds` with severity `s`, in order.
pub open spec fn with_severity(ds: Seq<CompilerError>, s: Severity) -> Seq<CompilerError>
    decreases ds.len(),
{
    if ds.len() == 0 {
        Seq::empty()
    } else if ds.last().severity == s {
        with_severity(ds.drop_last(), s).push(ds.last())
    } else {
        with_severity(ds.drop_last(), s)
    }
}

/// The diagnostics that a list of references points to.
pub open spec fn derefs(rs: Seq<&CompilerError>) -> Seq<CompilerError> {
    rs.map_values(|e: &CompilerError| *e)
}

fn select(ds: &Vec<CompilerError>, s: Severity) -> (r: Vec<&CompilerError>)
    ensures
        derefs(r@) == with_severity(ds@, s),
{
    let mut r: Vec<&CompilerError> = Vec::new();
    let mut i: usize = 0;
    while i < ds.len()
        invariant
            i <= ds.len(),
            derefs(r@) == with_severity(ds@.subrange(0, i as int), s),
        decreases ds.len() - i,
    {
        let ghost cur = ds@.subrange(0, i + 1);
        assert(cur.drop_last() =~= ds@.subrange(0, i as int));
        if ds[i].severity == s {
            let ghost before = r@;
            r.push(&ds[i]);
            assert(derefs(r@) =~= derefs(before).push(ds@[i as int]));
        }
        i = i + 1;
    }
    assert(ds@.subrange(0, ds@.len() as int) =~= ds@);
    r
}

impl AnalysisResult {
    /// Returns `true` if there are no errors (warnings are fine).
    pub fn is_ok(&self) -> (r: bool)
        ensures
            r == !has_error(self.diagnostics@),
    {
        let mut i: usize = 0;
        while i < self.diagnostics.len()
            invariant
                i <= self.diagnostics.len(),
                forall|k: int| 0 <= k < i ==> (#[trigger] self.diagnostics@[k]).severity != Severity::Error,
            decreases self.diagnostics.len() - i,
        {
            if self.diagnostics[i].severity == Severity::Error {
                return false;
            }
            i = i + 1;
        }
        true
    }

    /// Returns only the errors (not the warnings), in order.
    pub fn errors(&self) -> (r: Vec<&CompilerError>)
        ensures
            derefs(r@) == with_severity(self.diagnostics@, Severity::Error),
    {
        select(&self.diagnostics, Severity::Error)
    }

    /// Returns only the warnings, in order.
    pub fn warnings(&self) -> (r: Vec<&CompilerError>)
        ensures
            derefs(r@) == with_severity(self.diagnostics@, Severity::Warning),
    {
        select(&self.diagnostics, Severity::Warning)
    }
}

/// A symbol table as `SymbolTable::new` makes it.
pub open spec fn fresh_table(t: SymbolTable) -> bool {
    &&& spec_builtin_classes(t.classes@)
    &&& spec_builtin_functions(t.functions@)
    &&& t.scope_stack() == seq![Seq::<VarInfo>::empty()]
    &&& t.current_class is None
}

/// What the analysis of `program` gives: the declarations are collected
/// into a fresh table `t0`, giving `t1`; the semantic check runs over
/// `t1`, giving `t2`; type inference fills in the unknown types of `t2`,
/// giving `t3`; and the type check runs over `t3`.  All passes run, also
/// after errors, and the diagnostics are those of the collection, of the
/// semantic check and of the type check, in this order.  `symbols` is the
/// table that the passes leave.
pub open spec fn analysis_of(program: Program, t0: SymbolTable, t1: SymbolTable, mid: Seq<ClassInfo>,
    coll: Seq<CompilerError>, t2: SymbolTable, t3: SymbolTable, result: Seq<CompilerError>, symbols: SymbolTable) -> bool {
    let sc = sc_program(t1.classes@, t1.functions@, name_of(t1.current_class), vstack(t1.scope_stack()), program);
    &&& fresh_table(t0)
    &&& collected(t0, program, mid, t1, coll)
    &&& t2.classes == t1.classes
    &&& t2.functions == t1.functions
    &&& t2.current_class is None
    &&& semantic_checker::bindings_kept(t1.scope_stack(), t2.scope_stack())
    &&& vstack(t2.scope_stack()) == sc.0
    &&& program_infer_steps(t2, t3, program)
    &&& diags_view(result) == diags_view(coll) + sc.1 + tc_program((t3.classes@, t3.functions@, None), tview(
        t3.scope_stack()), program)
    &&& symbols.classes == t3.classes
    &&& symbols.functions == t3.functions
    &&& symbols.scope_stack() == t3.scope_stack()
    &&& symbols.current_class is None
}

/// Runs the semantic analysis pipeline on a parsed program: collection
/// of declarations, the semantic check, type inference and the type
/// check.  Every pass runs, also after errors of an earlier one, and all
/// diagnostics are kept, in that order.
pub fn analyze(program: &Program) -> (r: AnalysisResult)
    ensures
        exists|t0: SymbolTable, t1: SymbolTable, mid: Seq<ClassInfo>, coll: Seq<CompilerError>, t2: SymbolTable,
            t3: SymbolTable|
            analysis_of(*program, t0, t1, mid, coll, t2, t3, r.diagnostics@, r.symbols),
        distinct_names(class_names(r.symbols.classes@)),
        distinct_names(func_names(r.symbols.functions@)),
        methods_distinct(r.symbols.classes@),
{
    let mut symbols = SymbolTable::new();
    let ghost t0 = symbols;
    let mut diagnostics: Vec<CompilerError> = Vec::new();
    let mut collect_errors = collector::collect_declarations(program, &mut symbols);
    let ghost t1 = symbols;
    let ghost coll = collect_errors@;
    let ghost mid = choose|mid: Seq<ClassInfo>| collected(t0, *program, mid, t1, coll);
    proof {
        lemma_fresh_names_distinct(t0);
        collector::law_collected_names_distinct(t0, *program, mid, t1, coll);
    }
    diagnostics.append(&mut collect_errors);
    assert(diagnostics@ == coll);
    let mut sem_errors = semantic_checker::check_semantics(program, &mut symbols);
    let ghost sem = sem_errors@;
    let ghost t2 = symbols;
    diagnostics.append(&mut sem_errors);
    let inferred = type_inferer::infer_types(program, &mut symbols);
    let ghost t3 = symbols;
    proof {
        assert(inferred@.len() == 0);
        assert(t3.scope_stack() == t2.scope_stack());
        lemma_refined_names_distinct(t2, t3);
    }
    let mut type_errors = type_checker::check_types(program, &mut symbols);
    let ghost tyd = type_errors@;
    diagnostics.append(&mut type_errors);
    let r = AnalysisResult { diagnostics, symbols };
    proof {
        assert(diags_view(r.diagnostics@) =~= diags_view(coll) + diags_view(sem) + diags_view(tyd));
        assert(analysis_of(*program, t0, t1, mid, coll, t2, t3, r.diagnostics@, r.symbols));
    }
    r
}

/// A fresh table's classes, functions and methods have distinct names.
proof fn lemma_fresh_names_distinct(t: SymbolTable)
    requires
        fresh_table(t),
    ensures
        distinct_names(class_names(t.classes@)),
        distinct_names(func_names(t.functions@)),
        methods_distinct(t.classes@),
{
    reveal_strlit("Object");
    reveal_strlit("Number");
    reveal_strlit("String");
    reveal_strlit("Boolean");
    reveal_strlit("print");
    reveal_strlit("sin");
    reveal_strlit("cos");
    reveal_strlit("sqrt");
    reveal_strlit("exp");
    reveal_strlit("log");
    reveal_strlit("rand");
    let cn = class_names(t.classes@);
    assert forall|i: int, j: int| 0 <= i < j < cn.len() implies cn[i] != cn[j] by {
        assert(cn[i] == t.classes@[i].name@ && cn[j] == t.classes@[j].name@);
        assert(cn[i].len() != cn[j].len() || cn[i][0] != cn[j][0]);
    }
    let fnm = func_names(t.functions@);
    assert forall|i: int, j: int| 0 <= i < j < fnm.len() implies fnm[i] != fnm[j] by {
        assert(fnm[i] == t.functions@[i].name@ && fnm[j] == t.functions@[j].name@);
        assert(fnm[i].len() != fnm[j].len() || fnm[i][0] != fnm[j][0] || fnm[i][1] != fnm[j][1]);
    }
    assert forall|j: int| 0 <= j < t.classes@.len() implies distinct_names(func_names((#[trigger] t.classes@[j]).methods@)) by {
        assert(t.classes@[j].methods@.len() == 0);
    }
}

/// Refining types keeps the names of classes, functions and methods.
proof fn lemma_refined_names_distinct(a: SymbolTable, b: SymbolTable)
    requires
        type_inferer::table_refined(a, b),
        distinct_names(class_names(a.classes@)),
        distinct_names(func_names(a.functions@)),
        methods_distinct(a.classes@),
    ensures
        distinct_names(class_names(b.classes@)),
        distinct_names(func_names(b.functions@)),
        methods_distinct(b.classes@),
{
    assert(class_names(b.classes@) =~= class_names(a.classes@)) by {
        assert forall|j: int| 0 <= j < b.classes@.len() implies class_names(b.classes@)[j] == class_names(a.classes@)[j] by {
            assert(type_inferer::class_refined(a.classes@[j], b.classes@[j]));
        }
    }
    assert(func_names(b.functions@) =~= func_names(a.functions@)) by {
        assert forall|j: int| 0 <= j < b.functions@.len() implies func_names(b.functions@)[j] == func_names(a.functions@)[j] by {
            assert(type_inferer::func_refined(a.functions@[j], b.functions@[j]));
        }
    }
    assert forall|j: int| 0 <= j < b.classes@.len() implies distinct_names(func_names((#[trigger] b.classes@[j]).methods@)) by {
        let ca = a.classes@[j];
        let cb = b.classes@[j];
        assert(type_inferer::class_refined(ca, cb));
        assert(func_names(cb.methods@) =~= func_names(ca.methods@)) by {
            assert forall|k: int| 0 <= k < cb.methods@.len() implies func_names(cb.methods@)[k] == func_names(ca.methods@)[k] by {
                assert(type_inferer::func_refined(ca.methods@[k], cb.methods@[k]));
            }
        }
        assert(distinct_names(func_names(ca.methods@)));
    }
}

/// A result is ok exactly when its list of errors is empty.
pub proof fn law_ok_iff_no_errors(ds: Seq<CompilerError>)
    ensures
        !has_error(ds) <==> with_severity(ds, Severity::Error).len() == 0,
    decreases ds.len(),
{
    if ds.len() > 0 {
        law_ok_iff_no_errors(ds.drop_last());
        if has_error(ds.drop_last()) {
            let i = choose|i: int| 0 <= i < ds.drop_last().len() && (#[trigger] ds.drop_last()[i]).severity
                == Severity::Error;
            assert(ds[i] == ds.drop_last()[i]);
        }
        if has_error(ds) && ds.last().severity != Severity::Error {
            let i = choose|i: int| 0 <= i < ds.len() && (#[trigger] ds[i]).severity == Severity::Error;
            assert(ds.drop_last()[i] == ds[i]);
        }
        if ds.last().severity == Severity::Error {
            assert(ds[ds.len() - 1].severity == Severity::Error);
        }
    }
}

/// Every diagnostic is either an error or a warning: the two lists split
/// the diagnostics.
pub proof fn law_errors_and_warnings_partition(ds: Seq<CompilerError>)
    ensures
        with_severity(ds, Severity::Error).len() + with_severity(ds, Severity::Warning).len() == ds.len(),
    decreases ds.len(),
{
    if ds.len() > 0 {
        law_errors_and_warnings_partition(ds.drop_last());
    }
}

} // verus!

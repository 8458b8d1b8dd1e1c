//! A visitor that renders a syntax tree as an indented outline, one node
//! per line, two spaces per level.

use vstd::prelude::*;
use vstd::string::*;
use crate::ast::{
    AsExpr, AssignExpr, Atom, Attribute, Body, CaseBranch, CaseExpr, ClassDecl, CondBranch, ExprBody, Expression,
    ForExpr, FunctionCall, FunctionDecl, IfExpr, IndexAccess, IsExpr, LetDecl, LetExpr, MemberAccess, Method,
    MethodCall, NewArray, NewInstance, Param, Program, UnaryOp, BinaryOp, Visitor, WhileExpr,
};
use crate::tokens::{Identifier, Literal, spec_binop_text, spec_unop_text, spec_literal_text};
use crate::text::{repeat_str, spec_repeat};

verus! {

/// The next indentation level.
pub open spec fn deeper(n: usize) -> usize {
    if n < usize::MAX { (n + 1) as usize } else { n }
}

fn next_level(n: usize) -> (r: usize)
    ensures
        r == deeper(n),
{
    if n < usize::MAX { n + 1 } else { n }
}

/// A line of the outline at indentation `n`.
pub open spec fn line(n: usize, s: Seq<char>) -> Seq<char> {
    spec_repeat("  "@, n as nat) + s + "\n"@
}

/// How a literal is labelled in the outline.
pub open spec fn literal_line(l: Literal) -> Seq<char> {
    match l {
        Literal::Number(_, _) => "NumberLiteral: "@ + spec_literal_text(l),
        Literal::Str(_, _) => "StringLiteral: "@ + spec_literal_text(l),
        Literal::Bool(_, _) => "BoolLiteral: "@ + spec_literal_text(l),
    }
}

/// `name` followed by `: T` if annotated.
pub open spec fn annotated(name: Seq<char>, ann: Option<String>) -> Seq<char> {
    match ann {
        Some(t) => name + ": "@ + t@,
        None => name,
    }
}

/// The parameters, each followed by `, `.
pub open spec fn pt_params(ps: Seq<Param>) -> Seq<char>
    decreases ps.len(),
{
    if ps.len() == 0 {
        Seq::empty()
    } else {
        pt_params(ps.drop_last()) + annotated(ps.last().name@, ps.last().type_ann) + ", "@
    }
}

pub open spec fn pt_atom(a: Atom, n: usize) -> Seq<char>
    decreases a,
{
    match a {
        Atom::NumberLiteral(l) => line(n, literal_line(l)),
        Atom::BooleanLiteral(l) => line(n, literal_line(l)),
        Atom::StringLiteral(l) => line(n, literal_line(l)),
        Atom::Group(g) => line(n, "Group:"@) + pt_expr(g.expression, deeper(n)),
        Atom::Variable(id) => line(n, "Variable: "@ + id.name@),
    }
}

pub open spec fn pt_list(es: Seq<Expression>, n: usize) -> Seq<char>
    decreases es,
{
    if es.len() == 0 {
        Seq::empty()
    } else {
        pt_list(es.drop_last(), n) + pt_expr(es.last(), n)
    }
}

pub open spec fn pt_body(b: ExprBody, n: usize) -> Seq<char>
    decreases b,
{
    match b {
        ExprBody::Single(e) => pt_expr(*e, n),
        ExprBody::Block(es) => line(n, "Block:"@) + pt_list(es@, deeper(n)),
    }
}

pub open spec fn pt_decls(ds: Seq<LetDecl>, n: usize) -> Seq<char>
    decreases ds,
{
    if ds.len() == 0 {
        Seq::empty()
    } else {
        let d = ds.last();
        pt_decls(ds.drop_last(), n) + line(n, "Decl: "@ + annotated(d.name@, d.type_ann) + " ="@) + pt_expr(d.value,
            deeper(n))
    }
}

pub open spec fn pt_elifs(bs: Seq<CondBranch>, n: usize) -> Seq<char>
    decreases bs,
{
    if bs.len() == 0 {
        Seq::empty()
    } else {
        let b = bs.last();
        let n1 = deeper(n);
        pt_elifs(bs.drop_last(), n) + line(n, "Elif:"@) + line(n1, "Condition:"@) + pt_expr(b.condition, deeper(n1))
            + line(n1, "Then:"@) + pt_body(b.body, deeper(n1))
    }
}

pub open spec fn pt_branches(bs: Seq<CaseBranch>, n: usize) -> Seq<char>
    decreases bs,
{
    if bs.len() == 0 {
        Seq::empty()
    } else {
        let b = bs.last();
        pt_branches(bs.drop_last(), n) + line(n, b.name@ + ": "@ + b.type_ident@ + " ->"@) + pt_body(b.body, deeper(n))
    }
}

/// The outline of arguments (`listed`, at the next level): an `Args:`
/// line and the arguments, if there are any.
pub open spec fn args_part(count: nat, listed: Seq<char>, n: usize) -> Seq<char> {
    if count == 0 {
        Seq::empty()
    } else {
        line(n, "Args:"@) + listed
    }
}

/// The outline of an expression at indentation `n`.
pub open spec fn pt_expr(e: Expression, n: usize) -> Seq<char>
    decreases e,
{
    let n1 = deeper(n);
    let n2 = deeper(n1);
    match e {
        Expression::BinaryOp(b) => line(n, "BinaryOp: "@ + spec_binop_text(b.operator)) + pt_expr(*b.left, n1) + pt_expr(
            *b.right, n1),
        Expression::UnaryOp(u) => line(n, "UnaryOp: "@ + spec_unop_text(u.op)) + pt_expr(*u.expr, n1),
        Expression::Atom(a) => pt_atom(*a, n),
        Expression::Let(l) => line(n, "LetExpr:"@) + line(n1, "Declarations:"@) + pt_decls(l.decls@, n2) + line(n1,
            "In:"@) + pt_body(l.body, n2),
        Expression::If(i) => line(n, "IfExpr:"@) + line(n1, "Condition:"@) + pt_expr(i.condition, n2) + line(n1,
            "Then:"@) + pt_body(i.then_body, n2) + pt_elifs(i.elif_branches@, n1) + match i.else_body {
            Some(eb) => line(n1, "Else:"@) + pt_body(eb, n2),
            None => Seq::empty(),
        },
        Expression::While(w) => line(n, "WhileExpr:"@) + line(n1, "Condition:"@) + pt_expr(w.condition, n2) + line(n1,
            "Body:"@) + pt_body(w.body, n2) + match w.else_body {
            Some(eb) => line(n1, "Else:"@) + pt_body(eb, n2),
            None => Seq::empty(),
        },
        Expression::For(f) => line(n, "ForExpr: "@ + f.var@ + " in"@) + line(n1, "Iterable:"@) + pt_expr(f.iterable, n2)
            + line(n1, "Body:"@) + pt_body(f.body, n2),
        Expression::IsType(x) => line(n, "IsExpr: "@ + x.type_ident@) + pt_expr(x.expr, n1),
        Expression::AsType(x) => line(n, "AsExpr: "@ + x.type_ident@) + pt_expr(x.expr, n1),
        Expression::Case(c) => line(n, "CaseExpr:"@) + line(n1, "Expr:"@) + pt_expr(c.expr, n2) + pt_branches(
            c.branches@, n1),
        Expression::Assign(a) => line(n, "AssignExpr: :="@) + pt_expr(a.target, n1) + pt_expr(a.value, n1),
        Expression::MemberAccess(m) => line(n, "MemberAccess: ."@ + m.member@) + pt_expr(m.object, n1),
        Expression::MethodCall(m) => line(n, "MethodCall: ."@ + m.method@ + "()"@) + line(n1, "Object:"@) + pt_expr(
            m.object, n2) + args_part(m.args@.len(), pt_list(m.args@, n2), n1),
        Expression::IndexAccess(x) => line(n, "IndexAccess:"@) + line(n1, "Object:"@) + pt_expr(x.object, n2) + line(
            n1, "Index:"@) + pt_expr(x.index, n2),
        Expression::FunctionCall(c) => line(n, "FunctionCall: "@ + c.name@ + "()"@) + args_part(c.args@.len(),
            pt_list(c.args@, n2), n1),
        Expression::NewInstance(x) => line(n, "NewInstance: "@ + x.type_ident@) + args_part(x.args@.len(), pt_list(
            x.args@, n2), n1),
        Expression::NewArray(a) => line(n, match a.type_ident {
            Some(t) => "NewArray: "@ + t@,
            None => "NewArray"@,
        }) + line(n1, "Size:"@) + pt_expr(a.size, n2) + match a.init {
            Some(p) => line(n1, "Init: "@ + p.0@ + " ->"@) + pt_expr(p.1, n2),
            None => Seq::empty(),
        },
    }
}

/// The outline of a function or method body.
pub open spec fn pt_fn_body(b: Body, n: usize) -> Seq<char> {
    match b {
        Body::Inline(e) => pt_expr(e, n),
        Body::Block(es) => line(n, "Block:"@) + pt_list(es@, deeper(n)),
    }
}

/// The header of a function or method: `name(params)` and `: T` if
/// annotated.
pub open spec fn signature_text(name: Seq<char>, ps: Seq<Param>, ret: Option<String>) -> Seq<char> {
    name + "("@ + pt_params(ps) + ")"@ + match ret {
        Some(t) => ": "@ + t@,
        None => Seq::empty(),
    }
}

pub open spec fn pt_method(m: Method, n: usize) -> Seq<char> {
    line(n, "Method: "@ + signature_text(m.name@, m.params@, m.return_type)) + pt_fn_body(m.body, deeper(n))
}

pub open spec fn pt_function(f: FunctionDecl, n: usize) -> Seq<char> {
    line(n, "FunctionDecl: "@ + signature_text(f.name@, f.params@, f.return_type)) + pt_fn_body(f.body, deeper(n))
}

pub open spec fn pt_attribute(a: Attribute, n: usize) -> Seq<char> {
    line(n, "Attribute: "@ + annotated(a.name@, a.type_ann) + " ="@) + pt_expr(a.init, deeper(n))
}

pub open spec fn pt_attributes(attrs: Seq<Attribute>, n: usize) -> Seq<char>
    decreases attrs.len(),
{
    if attrs.len() == 0 {
        Seq::empty()
    } else {
        pt_attributes(attrs.drop_last(), n) + pt_attribute(attrs.last(), n)
    }
}

pub open spec fn pt_methods(ms: Seq<Method>, n: usize) -> Seq<char>
    decreases ms.len(),
{
    if ms.len() == 0 {
        Seq::empty()
    } else {
        pt_methods(ms.drop_last(), n) + pt_method(ms.last(), n)
    }
}

/// The header line of a class: name, parameters if any, parent if any.
pub open spec fn class_header(c: ClassDecl) -> Seq<char> {
    "ClassDecl: "@ + c.name@ + (if c.params@.len() > 0 { "("@ + pt_params(c.params@) + ")"@ } else {
        Seq::empty()
    }) + match c.parent {
        Some(p) => " is "@ + p@,
        None => Seq::empty(),
    }
}

pub open spec fn pt_class(c: ClassDecl, n: usize) -> Seq<char> {
    line(n, class_header(c)) + pt_attributes(c.attributes@, deeper(n)) + pt_methods(c.methods@, deeper(n))
}

pub open spec fn pt_classes(cs: Seq<ClassDecl>, n: usize) -> Seq<char>
    decreases cs.len(),
{
    if cs.len() == 0 {
        Seq::empty()
    } else {
        pt_classes(cs.drop_last(), n) + pt_class(cs.last(), n)
    }
}

pub open spec fn pt_functions(fs: Seq<FunctionDecl>, n: usize) -> Seq<char>
    decreases fs.len(),
{
    if fs.len() == 0 {
        Seq::empty()
    } else {
        pt_functions(fs.drop_last(), n) + pt_function(fs.last(), n)
    }
}

/// The outline of a program at indentation `n`.
pub open spec fn pt_program(p: Program, n: usize) -> Seq<char> {
    let n1 = deeper(n);
    line(n, "Program:"@) + pt_classes(p.classes@, n1) + pt_functions(p.functions@, n1) + match p.entry {
        Some(e) => line(n1, "Entry:"@) + pt_body(e, deeper(n1)),
        None => Seq::empty(),
    }
}

/// Renders syntax trees as an indented outline, collected in `output`.
pub struct AstPrinterVisitor {
    /// The indentation level of the next line.
    pub indent: usize,
    /// The outline printed so far.
    pub output: String,
}

impl AstPrinterVisitor {
    /// A printer at indentation 0 with nothing printed.
    pub fn new() -> (p: Self)
        ensures
            p.indent == 0,
            p.output@ == Seq::<char>::empty(),
    {
        AstPrinterVisitor { indent: 0, output: String::new() }
    }

    /// Appends `s` as a line at indentation `n`.
    fn emit(&mut self, n: usize, s: &str)
        ensures
            final(self).output@ == old(self).output@ + line(n, s@),
            final(self).indent == old(self).indent,
    {
        let pad = repeat_str("  ", n);
        self.output.append(pad.as_str());
        self.output.append(s);
        self.output.append("\n");
        assert(self.output@ =~= old(self).output@ + line(n, s@));
    }

    fn print_list(&mut self, es: &Vec<Expression>, n: usize)
        ensures
            final(self).output@ == old(self).output@ + pt_list(es@, n),
            final(self).indent == old(self).indent,
        decreases es,
    {
        let mut i: usize = 0;
        assert(es@.subrange(0, 0) =~= Seq::<Expression>::empty());
        assert(self.output@ =~= old(self).output@ + pt_list(es@.subrange(0, 0), n));
        while i < es.len()
            invariant
                i <= es.len(),
                self.output@ == old(self).output@ + pt_list(es@.subrange(0, i as int), n),
                self.indent == old(self).indent,
            decreases es.len() - i,
        {
            let ghost cur = es@.subrange(0, i + 1);
            assert(cur.drop_last() =~= es@.subrange(0, i as int));
            assert(cur.last() == es@[i as int]);
            proof {
                assert(decreases_to!(es => es@[i as int]));
            }
            self.print_expr(&es[i], n);
            assert(self.output@ =~= old(self).output@ + pt_list(cur, n));
            i = i + 1;
        }
        assert(es@.subrange(0, es@.len() as int) =~= es@);
    }

    fn print_expr_body(&mut self, body: &ExprBody, n: usize)
        ensures
            final(self).output@ == old(self).output@ + pt_body(*body, n),
            final(self).indent == old(self).indent,
        decreases body,
    {
        match body {
            ExprBody::Single(e) => self.print_expr(e, n),
            ExprBody::Block(es) => {
                proof {
                    assert(decreases_to!(body => body->Block_0));
                }
                self.emit(n, "Block:");
                self.print_list(es, next_level(n));
                assert(self.output@ =~= old(self).output@ + pt_body(*body, n));
            },
        }
    }

    fn print_atom(&mut self, atom: &Atom, n: usize)
        ensures
            final(self).output@ == old(self).output@ + pt_atom(*atom, n),
            final(self).indent == old(self).indent,
        decreases atom,
    {
        match atom {
            Atom::NumberLiteral(l) | Atom::BooleanLiteral(l) | Atom::StringLiteral(l) => {
                let label = match l {
                    Literal::Number(_, _) => "NumberLiteral: ",
                    Literal::Str(_, _) => "StringLiteral: ",
                    Literal::Bool(_, _) => "BoolLiteral: ",
                };
                let mut s = String::from_str(label);
                let t = l.text();
                s.append(t.as_str());
                self.emit(n, s.as_str());
            },
            Atom::Group(g) => {
                self.emit(n, "Group:");
                self.print_expr(&g.expression, next_level(n));
                assert(self.output@ =~= old(self).output@ + pt_atom(*atom, n));
            },
            Atom::Variable(id) => {
                let mut s = String::from_str("Variable: ");
                s.append(id.name.as_str());
                self.emit(n, s.as_str());
            },
        }
    }
}

/// `a` followed by `b`.
fn cat(a: &str, b: &str) -> (r: String)
    ensures
        r@ == a@ + b@,
{
    let mut s = String::from_str(a);
    s.append(b);
    s
}

/// `name`, and `: T` if annotated.
fn annotated_text(name: &str, ann: &Option<String>) -> (r: String)
    ensures
        r@ == annotated(name@, *ann),
{
    match ann {
        Some(t) => {
            let mut s = cat(name, ": ");
            s.append(t.as_str());
            s
        },
        None => String::from_str(name),
    }
}


impl AstPrinterVisitor {
    fn print_expr(&mut self, expr: &Expression, n: usize)
        ensures
            final(self).output@ == old(self).output@ + pt_expr(*expr, n),
            final(self).indent == old(self).indent,
        decreases expr,
    {
        match expr {
            Expression::BinaryOp(b) => {
                proof {
                    assert(decreases_to!(expr => expr->BinaryOp_0));
                }
                self.print_binary(b, n);
            },
            Expression::UnaryOp(u) => {
                proof {
                    assert(decreases_to!(expr => expr->UnaryOp_0));
                }
                self.print_unary(u, n);
            },
            Expression::Atom(a) => self.print_atom(a, n),
            Expression::Let(l) => {
                proof {
                    assert(decreases_to!(expr => expr->Let_0));
                }
                self.print_let(l, n);
            },
            Expression::If(x) => {
                proof {
                    assert(decreases_to!(expr => expr->If_0));
                }
                self.print_if(x, n);
            },
            Expression::While(w) => {
                proof {
                    assert(decreases_to!(expr => expr->While_0));
                }
                self.print_while(w, n);
            },
            Expression::For(f) => {
                proof {
                    assert(decreases_to!(expr => expr->For_0));
                }
                self.print_for(f, n);
            },
            Expression::IsType(x) => {
                proof {
                    assert(decreases_to!(expr => expr->IsType_0));
                }
                self.print_is(x, n);
            },
            Expression::AsType(x) => {
                proof {
                    assert(decreases_to!(expr => expr->AsType_0));
                }
                self.print_as(x, n);
            },
            Expression::Case(c) => {
                proof {
                    assert(decreases_to!(expr => expr->Case_0));
                }
                self.print_case(c, n);
            },
            Expression::Assign(a) => {
                proof {
                    assert(decreases_to!(expr => expr->Assign_0));
                }
                self.print_assign(a, n);
            },
            Expression::MemberAccess(m) => {
                proof {
                    assert(decreases_to!(expr => expr->MemberAccess_0));
                }
                self.print_member_access(m, n);
            },
            Expression::MethodCall(m) => {
                proof {
                    assert(decreases_to!(expr => expr->MethodCall_0));
                }
                self.print_method_call(m, n);
            },
            Expression::IndexAccess(x) => {
                proof {
                    assert(decreases_to!(expr => expr->IndexAccess_0));
                }
                self.print_index_access(x, n);
            },
            Expression::FunctionCall(c) => {
                proof {
                    assert(decreases_to!(expr => expr->FunctionCall_0));
                }
                self.print_function_call(c, n);
            },
            Expression::NewInstance(x) => {
                proof {
                    assert(decreases_to!(expr => expr->NewInstance_0));
                }
                self.print_new_instance(x, n);
            },
            Expression::NewArray(a) => {
                proof {
                    assert(decreases_to!(expr => expr->NewArray_0));
                }
                self.print_new_array(a, n);
            },
        }
    }

    fn print_binary(&mut self, b: &BinaryOp, n: usize)
        ensures
            final(self).output@ == old(self).output@ + pt_expr(Expression::BinaryOp(*b), n),
            final(self).indent == old(self).indent,
        decreases b,
    {
        let n1 = next_level(n);
        let s = cat("BinaryOp: ", b.operator.symbol());
        self.emit(n, s.as_str());
        self.print_expr(&b.left, n1);
        self.print_expr(&b.right, n1);
        assert(self.output@ =~= old(self).output@ + pt_expr(Expression::BinaryOp(*b), n));
    }

    fn print_unary(&mut self, u: &UnaryOp, n: usize)
        ensures
            final(self).output@ == old(self).output@ + pt_expr(Expression::UnaryOp(*u), n),
            final(self).indent == old(self).indent,
        decreases u,
    {
        let s = cat("UnaryOp: ", u.op.symbol());
        self.emit(n, s.as_str());
        self.print_expr(&u.expr, next_level(n));
        assert(self.output@ =~= old(self).output@ + pt_expr(Expression::UnaryOp(*u), n));
    }

    fn print_for(&mut self, f: &ForExpr, n: usize)
        ensures
            final(self).output@ == old(self).output@ + pt_expr(Expression::For(Box::new(*f)), n),
            final(self).indent == old(self).indent,
        decreases f,
    {
        let n1 = next_level(n);
        let n2 = next_level(n1);
        let mut s = cat("ForExpr: ", f.var.as_str());
        s.append(" in");
        self.emit(n, s.as_str());
        self.emit(n1, "Iterable:");
        self.print_expr(&f.iterable, n2);
        self.emit(n1, "Body:");
        self.print_expr_body(&f.body, n2);
        assert(self.output@ =~= old(self).output@ + pt_expr(Expression::For(Box::new(*f)), n));
    }

    fn print_is(&mut self, x: &IsExpr, n: usize)
        ensures
            final(self).output@ == old(self).output@ + pt_expr(Expression::IsType(Box::new(*x)), n),
            final(self).indent == old(self).indent,
        decreases x,
    {
        let s = cat("IsExpr: ", x.type_ident.as_str());
        self.emit(n, s.as_str());
        self.print_expr(&x.expr, next_level(n));
        assert(self.output@ =~= old(self).output@ + pt_expr(Expression::IsType(Box::new(*x)), n));
    }

    fn print_as(&mut self, x: &AsExpr, n: usize)
        ensures
            final(self).output@ == old(self).output@ + pt_expr(Expression::AsType(Box::new(*x)), n),
            final(self).indent == old(self).indent,
        decreases x,
    {
        let s = cat("AsExpr: ", x.type_ident.as_str());
        self.emit(n, s.as_str());
        self.print_expr(&x.expr, next_level(n));
        assert(self.output@ =~= old(self).output@ + pt_expr(Expression::AsType(Box::new(*x)), n));
    }

    fn print_assign(&mut self, a: &AssignExpr, n: usize)
        ensures
            final(self).output@ == old(self).output@ + pt_expr(Expression::Assign(Box::new(*a)), n),
            final(self).indent == old(self).indent,
        decreases a,
    {
        let n1 = next_level(n);
        self.emit(n, "AssignExpr: :=");
        self.print_expr(&a.target, n1);
        self.print_expr(&a.value, n1);
        assert(self.output@ =~= old(self).output@ + pt_expr(Expression::Assign(Box::new(*a)), n));
    }

    fn print_member_access(&mut self, m: &MemberAccess, n: usize)
        ensures
            final(self).output@ == old(self).output@ + pt_expr(Expression::MemberAccess(Box::new(*m)), n),
            final(self).indent == old(self).indent,
        decreases m,
    {
        let s = cat("MemberAccess: .", m.member.as_str());
        self.emit(n, s.as_str());
        self.print_expr(&m.object, next_level(n));
        assert(self.output@ =~= old(self).output@ + pt_expr(Expression::MemberAccess(Box::new(*m)), n));
    }

    fn print_index_access(&mut self, x: &IndexAccess, n: usize)
        ensures
            final(self).output@ == old(self).output@ + pt_expr(Expression::IndexAccess(Box::new(*x)), n),
            final(self).indent == old(self).indent,
        decreases x,
    {
        let n1 = next_level(n);
        let n2 = next_level(n1);
        self.emit(n, "IndexAccess:");
        self.emit(n1, "Object:");
        self.print_expr(&x.object, n2);
        self.emit(n1, "Index:");
        self.print_expr(&x.index, n2);
        assert(self.output@ =~= old(self).output@ + pt_expr(Expression::IndexAccess(Box::new(*x)), n));
    }

    fn print_let(&mut self, l: &LetExpr, n: usize)
        ensures
            final(self).output@ == old(self).output@ + pt_expr(Expression::Let(Box::new(*l)), n),
            final(self).indent == old(self).indent,
        decreases l,
    {
        let n1 = next_level(n);
        let n2 = next_level(n1);
        let ghost o = old(self).output@;
        self.emit(n, "LetExpr:");
        self.emit(n1, "Declarations:");
        let ghost o1 = self.output@;
        let mut i: usize = 0;
        assert(l.decls@.subrange(0, 0) =~= Seq::<LetDecl>::empty());
        assert(self.output@ =~= o1 + pt_decls(l.decls@.subrange(0, 0), n2));
        while i < l.decls.len()
            invariant
                i <= l.decls.len(),
                n2 == deeper(n1),
                self.output@ == o1 + pt_decls(l.decls@.subrange(0, i as int), n2),
                self.indent == old(self).indent,
            decreases l.decls.len() - i,
        {
            let d = &l.decls[i];
            let ghost cur = l.decls@.subrange(0, i + 1);
            assert(cur.drop_last() =~= l.decls@.subrange(0, i as int));
            assert(cur.last() == *d);
            let head = annotated_text(d.name.as_str(), &d.type_ann);
            let mut s = cat("Decl: ", head.as_str());
            s.append(" =");
            self.emit(n2, s.as_str());
            proof {
                assert(decreases_to!(l => l.decls@[i as int].value));
            }
            self.print_expr(&d.value, next_level(n2));
            assert(self.output@ =~= o1 + pt_decls(cur, n2));
            i = i + 1;
        }
        assert(l.decls@.subrange(0, l.decls@.len() as int) =~= l.decls@);
        self.emit(n1, "In:");
        self.print_expr_body(&l.body, n2);
        assert(self.output@ =~= o + pt_expr(Expression::Let(Box::new(*l)), n));
    }

    #[verifier::spinoff_prover]
    #[verifier::rlimit(40)]
    fn print_if(&mut self, x: &IfExpr, n: usize)
        ensures
            final(self).output@ == old(self).output@ + pt_expr(Expression::If(Box::new(*x)), n),
            final(self).indent == old(self).indent,
        decreases x,
    {
        let n1 = next_level(n);
        let n2 = next_level(n1);
        let ghost o = old(self).output@;
        self.emit(n, "IfExpr:");
        self.emit(n1, "Condition:");
        self.print_expr(&x.condition, n2);
        self.emit(n1, "Then:");
        self.print_expr_body(&x.then_body, n2);
        proof {
            assert(decreases_to!(x => x.elif_branches));
        }
        self.print_elifs(&x.elif_branches, n1);
        match &x.else_body {
            Some(eb) => {
                proof {
                    assert(decreases_to!(x => x.else_body->Some_0));
                }
                self.emit(n1, "Else:");
                self.print_expr_body(eb, n2);
            },
            None => {},
        }
        assert(self.output@ =~= o + pt_expr(Expression::If(Box::new(*x)), n));
    }

    fn print_elifs(&mut self, bs: &Vec<CondBranch>, n: usize)
        ensures
            final(self).output@ == old(self).output@ + pt_elifs(bs@, n),
            final(self).indent == old(self).indent,
        decreases bs,
    {
        let n1 = next_level(n);
        let ghost o1 = self.output@;
        let mut i: usize = 0;
        assert(bs@.subrange(0, 0) =~= Seq::<CondBranch>::empty());
        assert(self.output@ =~= o1 + pt_elifs(bs@.subrange(0, 0), n));
        while i < bs.len()
            invariant
                i <= bs.len(),
                n1 == deeper(n),
                self.output@ == o1 + pt_elifs(bs@.subrange(0, i as int), n),
                self.indent == old(self).indent,
            decreases bs.len() - i,
        {
            let b = &bs[i];
            let ghost cur = bs@.subrange(0, i + 1);
            assert(cur.drop_last() =~= bs@.subrange(0, i as int));
            assert(cur.last() == *b);
            proof {
                assert(decreases_to!(bs => bs@[i as int].condition));
                assert(decreases_to!(bs => bs@[i as int].body));
            }
            self.emit(n, "Elif:");
            self.emit(n1, "Condition:");
            self.print_expr(&b.condition, next_level(n1));
            self.emit(n1, "Then:");
            self.print_expr_body(&b.body, next_level(n1));
            assert(self.output@ =~= o1 + pt_elifs(cur, n));
            i = i + 1;
        }
        assert(bs@.subrange(0, bs@.len() as int) =~= bs@);
    }

    fn print_while(&mut self, w: &WhileExpr, n: usize)
        ensures
            final(self).output@ == old(self).output@ + pt_expr(Expression::While(Box::new(*w)), n),
            final(self).indent == old(self).indent,
        decreases w,
    {
        let n1 = next_level(n);
        let n2 = next_level(n1);
        let ghost o = old(self).output@;
        self.emit(n, "WhileExpr:");
        self.emit(n1, "Condition:");
        self.print_expr(&w.condition, n2);
        self.emit(n1, "Body:");
        self.print_expr_body(&w.body, n2);
        match &w.else_body {
            Some(eb) => {
                proof {
                    assert(decreases_to!(w => w.else_body->Some_0));
                }
                self.emit(n1, "Else:");
                self.print_expr_body(eb, n2);
            },
            None => {},
        }
        assert(self.output@ =~= o + pt_expr(Expression::While(Box::new(*w)), n));
    }

    fn print_case(&mut self, c: &CaseExpr, n: usize)
        ensures
            final(self).output@ == old(self).output@ + pt_expr(Expression::Case(Box::new(*c)), n),
            final(self).indent == old(self).indent,
        decreases c,
    {
        let n1 = next_level(n);
        let n2 = next_level(n1);
        let ghost o = old(self).output@;
        self.emit(n, "CaseExpr:");
        self.emit(n1, "Expr:");
        self.print_expr(&c.expr, n2);
        let ghost o1 = self.output@;
        let mut i: usize = 0;
        assert(c.branches@.subrange(0, 0) =~= Seq::<CaseBranch>::empty());
        assert(self.output@ =~= o1 + pt_branches(c.branches@.subrange(0, 0), n1));
        while i < c.branches.len()
            invariant
                i <= c.branches.len(),
                n2 == deeper(n1),
                self.output@ == o1 + pt_branches(c.branches@.subrange(0, i as int), n1),
                self.indent == old(self).indent,
            decreases c.branches.len() - i,
        {
            let b = &c.branches[i];
            let ghost cur = c.branches@.subrange(0, i + 1);
            assert(cur.drop_last() =~= c.branches@.subrange(0, i as int));
            assert(cur.last() == *b);
            proof {
                assert(decreases_to!(c => c.branches@[i as int].body));
            }
            let mut s = cat(b.name.as_str(), ": ");
            s.append(b.type_ident.as_str());
            s.append(" ->");
            self.emit(n1, s.as_str());
            self.print_expr_body(&b.body, n2);
            assert(self.output@ =~= o1 + pt_branches(cur, n1));
            i = i + 1;
        }
        assert(c.branches@.subrange(0, c.branches@.len() as int) =~= c.branches@);
        assert(self.output@ =~= o + pt_expr(Expression::Case(Box::new(*c)), n));
    }

    fn print_method_call(&mut self, m: &MethodCall, n: usize)
        ensures
            final(self).output@ == old(self).output@ + pt_expr(Expression::MethodCall(Box::new(*m)), n),
            final(self).indent == old(self).indent,
        decreases m,
    {
        let n1 = next_level(n);
        let n2 = next_level(n1);
        let ghost o = old(self).output@;
        let mut s = cat("MethodCall: .", m.method.as_str());
        s.append("()");
        self.emit(n, s.as_str());
        self.emit(n1, "Object:");
        self.print_expr(&m.object, n2);
        if m.args.len() > 0 {
            self.emit(n1, "Args:");
            self.print_list(&m.args, n2);
        }
        assert(self.output@ =~= o + pt_expr(Expression::MethodCall(Box::new(*m)), n));
    }

    fn print_function_call(&mut self, c: &FunctionCall, n: usize)
        ensures
            final(self).output@ == old(self).output@ + pt_expr(Expression::FunctionCall(Box::new(*c)), n),
            final(self).indent == old(self).indent,
        decreases c,
    {
        let n1 = next_level(n);
        let n2 = next_level(n1);
        let ghost o = old(self).output@;
        let mut s = cat("FunctionCall: ", c.name.as_str());
        s.append("()");
        self.emit(n, s.as_str());
        if c.args.len() > 0 {
            self.emit(n1, "Args:");
            self.print_list(&c.args, n2);
        }
        assert(self.output@ =~= o + pt_expr(Expression::FunctionCall(Box::new(*c)), n));
    }

    fn print_new_instance(&mut self, x: &NewInstance, n: usize)
        ensures
            final(self).output@ == old(self).output@ + pt_expr(Expression::NewInstance(Box::new(*x)), n),
            final(self).indent == old(self).indent,
        decreases x,
    {
        let n1 = next_level(n);
        let n2 = next_level(n1);
        let ghost o = old(self).output@;
        let s = cat("NewInstance: ", x.type_ident.as_str());
        self.emit(n, s.as_str());
        if x.args.len() > 0 {
            self.emit(n1, "Args:");
            self.print_list(&x.args, n2);
        }
        assert(self.output@ =~= o + pt_expr(Expression::NewInstance(Box::new(*x)), n));
    }

    fn print_new_array(&mut self, a: &NewArray, n: usize)
        ensures
            final(self).output@ == old(self).output@ + pt_expr(Expression::NewArray(Box::new(*a)), n),
            final(self).indent == old(self).indent,
        decreases a,
    {
        let n1 = next_level(n);
        let n2 = next_level(n1);
        let ghost o = old(self).output@;
        match &a.type_ident {
            Some(t) => {
                let s = cat("NewArray: ", t.as_str());
                self.emit(n, s.as_str());
            },
            None => self.emit(n, "NewArray"),
        }
        self.emit(n1, "Size:");
        self.print_expr(&a.size, n2);
        match &a.init {
            Some((var, init)) => {
                proof {
                    assert(decreases_to!(a => a.init->Some_0));
                    assert(decreases_to!(a => (a.init->Some_0).1));
                }
                let mut s = cat("Init: ", var.as_str());
                s.append(" ->");
                self.emit(n1, s.as_str());
                self.print_expr(init, n2);
            },
            None => {},
        }
        assert(self.output@ =~= o + pt_expr(Expression::NewArray(Box::new(*a)), n));
    }
}

/// The parameters, each followed by `, `.
fn params_text(ps: &Vec<Param>) -> (r: String)
    ensures
        r@ == pt_params(ps@),
{
    let mut s = String::new();
    let mut i: usize = 0;
    assert(ps@.subrange(0, 0) =~= Seq::<Param>::empty());
    while i < ps.len()
        invariant
            i <= ps.len(),
            s@ == pt_params(ps@.subrange(0, i as int)),
        decreases ps.len() - i,
    {
        let p = &ps[i];
        let a = annotated_text(p.name.as_str(), &p.type_ann);
        s.append(a.as_str());
        s.append(", ");
        let ghost cur = ps@.subrange(0, i + 1);
        assert(cur.drop_last() =~= ps@.subrange(0, i as int));
        assert(s@ =~= pt_params(cur));
        i = i + 1;
    }
    assert(ps@.subrange(0, ps@.len() as int) =~= ps@);
    s
}

/// `name(params)`, and `: T` if a return type is annotated.
fn signature(name: &str, ps: &Vec<Param>, ret: &Option<String>) -> (r: String)
    ensures
        r@ == signature_text(name@, ps@, *ret),
{
    let mut s = cat(name, "(");
    let p = params_text(ps);
    s.append(p.as_str());
    s.append(")");
    match ret {
        Some(t) => {
            s.append(": ");
            s.append(t.as_str());
        },
        None => {},
    }
    assert(s@ =~= signature_text(name@, ps@, *ret));
    s
}

impl AstPrinterVisitor {
    fn print_literal(&mut self, l: &Literal, n: usize)
        ensures
            final(self).output@ == old(self).output@ + line(n, literal_line(*l)),
            final(self).indent == old(self).indent,
    {
        let label = match l {
            Literal::Number(_, _) => "NumberLiteral: ",
            Literal::Str(_, _) => "StringLiteral: ",
            Literal::Bool(_, _) => "BoolLiteral: ",
        };
        let t = l.text();
        let s = cat(label, t.as_str());
        self.emit(n, s.as_str());
    }

    fn print_fn_body(&mut self, b: &Body, n: usize)
        ensures
            final(self).output@ == old(self).output@ + pt_fn_body(*b, n),
            final(self).indent == old(self).indent,
    {
        match b {
            Body::Inline(e) => self.print_expr(e, n),
            Body::Block(es) => {
                self.emit(n, "Block:");
                self.print_list(es, next_level(n));
                assert(self.output@ =~= old(self).output@ + pt_fn_body(*b, n));
            },
        }
    }

    fn print_method(&mut self, m: &Method, n: usize)
        ensures
            final(self).output@ == old(self).output@ + pt_method(*m, n),
            final(self).indent == old(self).indent,
    {
        let head = signature(m.name.as_str(), &m.params, &m.return_type);
        let s = cat("Method: ", head.as_str());
        self.emit(n, s.as_str());
        self.print_fn_body(&m.body, next_level(n));
        assert(self.output@ =~= old(self).output@ + pt_method(*m, n));
    }

    fn print_function(&mut self, f: &FunctionDecl, n: usize)
        ensures
            final(self).output@ == old(self).output@ + pt_function(*f, n),
            final(self).indent == old(self).indent,
    {
        let head = signature(f.name.as_str(), &f.params, &f.return_type);
        let s = cat("FunctionDecl: ", head.as_str());
        self.emit(n, s.as_str());
        self.print_fn_body(&f.body, next_level(n));
        assert(self.output@ =~= old(self).output@ + pt_function(*f, n));
    }

    fn print_attribute(&mut self, a: &Attribute, n: usize)
        ensures
            final(self).output@ == old(self).output@ + pt_attribute(*a, n),
            final(self).indent == old(self).indent,
    {
        let head = annotated_text(a.name.as_str(), &a.type_ann);
        let mut s = cat("Attribute: ", head.as_str());
        s.append(" =");
        self.emit(n, s.as_str());
        self.print_expr(&a.init, next_level(n));
        assert(self.output@ =~= old(self).output@ + pt_attribute(*a, n));
    }

    fn print_class(&mut self, c: &ClassDecl, n: usize)
        ensures
            final(self).output@ == old(self).output@ + pt_class(*c, n),
            final(self).indent == old(self).indent,
    {
        let n1 = next_level(n);
        let mut s = cat("ClassDecl: ", c.name.as_str());
        if c.params.len() > 0 {
            let p = params_text(&c.params);
            s.append("(");
            s.append(p.as_str());
            s.append(")");
        }
        match &c.parent {
            Some(parent) => {
                s.append(" is ");
                s.append(parent.as_str());
            },
            None => {},
        }
        assert(s@ =~= class_header(*c));
        self.emit(n, s.as_str());
        let ghost o1 = self.output@;
        let mut i: usize = 0;
        assert(c.attributes@.subrange(0, 0) =~= Seq::<Attribute>::empty());
        assert(self.output@ =~= o1 + pt_attributes(c.attributes@.subrange(0, 0), n1));
        while i < c.attributes.len()
            invariant
                i <= c.attributes.len(),
                self.output@ == o1 + pt_attributes(c.attributes@.subrange(0, i as int), n1),
                self.indent == old(self).indent,
            decreases c.attributes.len() - i,
        {
            self.print_attribute(&c.attributes[i], n1);
            let ghost cur = c.attributes@.subrange(0, i + 1);
            assert(cur.drop_last() =~= c.attributes@.subrange(0, i as int));
            assert(self.output@ =~= o1 + pt_attributes(cur, n1));
            i = i + 1;
        }
        assert(c.attributes@.subrange(0, c.attributes@.len() as int) =~= c.attributes@);
        let ghost o2 = self.output@;
        let mut j: usize = 0;
        assert(c.methods@.subrange(0, 0) =~= Seq::<Method>::empty());
        assert(self.output@ =~= o2 + pt_methods(c.methods@.subrange(0, 0), n1));
        while j < c.methods.len()
            invariant
                j <= c.methods.len(),
                self.output@ == o2 + pt_methods(c.methods@.subrange(0, j as int), n1),
                self.indent == old(self).indent,
            decreases c.methods.len() - j,
        {
            self.print_method(&c.methods[j], n1);
            let ghost cur = c.methods@.subrange(0, j + 1);
            assert(cur.drop_last() =~= c.methods@.subrange(0, j as int));
            assert(self.output@ =~= o2 + pt_methods(cur, n1));
            j = j + 1;
        }
        assert(c.methods@.subrange(0, c.methods@.len() as int) =~= c.methods@);
        assert(self.output@ =~= old(self).output@ + pt_class(*c, n));
    }

    fn print_program(&mut self, p: &Program, n: usize)
        ensures
            final(self).output@ == old(self).output@ + pt_program(*p, n),
            final(self).indent == old(self).indent,
    {
        let n1 = next_level(n);
        self.emit(n, "Program:");
        let ghost o1 = self.output@;
        let mut i: usize = 0;
        assert(p.classes@.subrange(0, 0) =~= Seq::<ClassDecl>::empty());
        assert(self.output@ =~= o1 + pt_classes(p.classes@.subrange(0, 0), n1));
        while i < p.classes.len()
            invariant
                i <= p.classes.len(),
                self.output@ == o1 + pt_classes(p.classes@.subrange(0, i as int), n1),
                self.indent == old(self).indent,
            decreases p.classes.len() - i,
        {
            self.print_class(&p.classes[i], n1);
            let ghost cur = p.classes@.subrange(0, i + 1);
            assert(cur.drop_last() =~= p.classes@.subrange(0, i as int));
            assert(self.output@ =~= o1 + pt_classes(cur, n1));
            i = i + 1;
        }
        assert(p.classes@.subrange(0, p.classes@.len() as int) =~= p.classes@);
        let ghost o2 = self.output@;
        let mut j: usize = 0;
        assert(p.functions@.subrange(0, 0) =~= Seq::<FunctionDecl>::empty());
        assert(self.output@ =~= o2 + pt_functions(p.functions@.subrange(0, 0), n1));
        while j < p.functions.len()
            invariant
                j <= p.functions.len(),
                self.output@ == o2 + pt_functions(p.functions@.subrange(0, j as int), n1),
                self.indent == old(self).indent,
            decreases p.functions.len() - j,
        {
            self.print_function(&p.functions[j], n1);
            let ghost cur = p.functions@.subrange(0, j + 1);
            assert(cur.drop_last() =~= p.functions@.subrange(0, j as int));
            assert(self.output@ =~= o2 + pt_functions(cur, n1));
            j = j + 1;
        }
        assert(p.functions@.subrange(0, p.functions@.len() as int) =~= p.functions@);
        match &p.entry {
            Some(e) => {
                self.emit(n1, "Entry:");
                self.print_expr_body(e, next_level(n1));
            },
            None => {},
        }
        assert(self.output@ =~= old(self).output@ + pt_program(*p, n));
    }
}


/// Each visit appends the outline of the node at the current indentation.
impl Visitor for AstPrinterVisitor {
    open spec fn program_visited(before: Self, after: Self, program: Program) -> bool {
        after.output@ == before.output@ + pt_program(program, before.indent) && after.indent == before.indent
    }

    open spec fn class_decl_visited(before: Self, after: Self, class: ClassDecl) -> bool {
        after.output@ == before.output@ + pt_class(class, before.indent) && after.indent == before.indent
    }

    open spec fn function_decl_visited(before: Self, after: Self, func: FunctionDecl) -> bool {
        after.output@ == before.output@ + pt_function(func, before.indent) && after.indent == before.indent
    }

    open spec fn method_visited(before: Self, after: Self, method: Method) -> bool {
        after.output@ == before.output@ + pt_method(method, before.indent) && after.indent == before.indent
    }

    open spec fn attribute_visited(before: Self, after: Self, attr: Attribute) -> bool {
        after.output@ == before.output@ + pt_attribute(attr, before.indent) && after.indent == before.indent
    }

    open spec fn expression_visited(before: Self, after: Self, expr: Expression) -> bool {
        after.output@ == before.output@ + pt_expr(expr, before.indent) && after.indent == before.indent
    }

    open spec fn atom_visited(before: Self, after: Self, atom: Atom) -> bool {
        after.output@ == before.output@ + pt_atom(atom, before.indent) && after.indent == before.indent
    }

    open spec fn binary_op_visited(before: Self, after: Self, binop: BinaryOp) -> bool {
        after.output@ == before.output@ + pt_expr(Expression::BinaryOp(binop), before.indent) && after.indent == before.indent
    }

    open spec fn unary_op_visited(before: Self, after: Self, unary_op: UnaryOp) -> bool {
        after.output@ == before.output@ + pt_expr(Expression::UnaryOp(unary_op), before.indent) && after.indent == before.indent
    }

    open spec fn let_expr_visited(before: Self, after: Self, let_expr: LetExpr) -> bool {
        after.output@ == before.output@ + pt_expr(Expression::Let(Box::new(let_expr)), before.indent) && after.indent == before.indent
    }

    open spec fn if_expr_visited(before: Self, after: Self, if_expr: IfExpr) -> bool {
        after.output@ == before.output@ + pt_expr(Expression::If(Box::new(if_expr)), before.indent) && after.indent == before.indent
    }

    open spec fn while_expr_visited(before: Self, after: Self, while_expr: WhileExpr) -> bool {
        after.output@ == before.output@ + pt_expr(Expression::While(Box::new(while_expr)), before.indent) && after.indent == before.indent
    }

    open spec fn for_expr_visited(before: Self, after: Self, for_expr: ForExpr) -> bool {
        after.output@ == before.output@ + pt_expr(Expression::For(Box::new(for_expr)), before.indent) && after.indent == before.indent
    }

    open spec fn is_expr_visited(before: Self, after: Self, is_expr: IsExpr) -> bool {
        after.output@ == before.output@ + pt_expr(Expression::IsType(Box::new(is_expr)), before.indent) && after.indent == before.indent
    }

    open spec fn as_expr_visited(before: Self, after: Self, as_expr: AsExpr) -> bool {
        after.output@ == before.output@ + pt_expr(Expression::AsType(Box::new(as_expr)), before.indent) && after.indent == before.indent
    }

    open spec fn case_expr_visited(before: Self, after: Self, case_expr: CaseExpr) -> bool {
        after.output@ == before.output@ + pt_expr(Expression::Case(Box::new(case_expr)), before.indent) && after.indent == before.indent
    }

    open spec fn assign_expr_visited(before: Self, after: Self, assign: AssignExpr) -> bool {
        after.output@ == before.output@ + pt_expr(Expression::Assign(Box::new(assign)), before.indent) && after.indent == before.indent
    }

    open spec fn member_access_visited(before: Self, after: Self, access: MemberAccess) -> bool {
        after.output@ == before.output@ + pt_expr(Expression::MemberAccess(Box::new(access)), before.indent) && after.indent == before.indent
    }

    open spec fn method_call_visited(before: Self, after: Self, call: MethodCall) -> bool {
        after.output@ == before.output@ + pt_expr(Expression::MethodCall(Box::new(call)), before.indent) && after.indent == before.indent
    }

    open spec fn index_access_visited(before: Self, after: Self, access: IndexAccess) -> bool {
        after.output@ == before.output@ + pt_expr(Expression::IndexAccess(Box::new(access)), before.indent) && after.indent == before.indent
    }

    open spec fn function_call_visited(before: Self, after: Self, call: FunctionCall) -> bool {
        after.output@ == before.output@ + pt_expr(Expression::FunctionCall(Box::new(call)), before.indent) && after.indent == before.indent
    }

    open spec fn new_instance_visited(before: Self, after: Self, inst: NewInstance) -> bool {
        after.output@ == before.output@ + pt_expr(Expression::NewInstance(Box::new(inst)), before.indent) && after.indent == before.indent
    }

    open spec fn new_array_visited(before: Self, after: Self, arr: NewArray) -> bool {
        after.output@ == before.output@ + pt_expr(Expression::NewArray(Box::new(arr)), before.indent) && after.indent == before.indent
    }

    open spec fn literal_visited(before: Self, after: Self, literal: Literal) -> bool {
        after.output@ == before.output@ + line(before.indent, literal_line(literal)) && after.indent == before.indent
    }

    open spec fn identifier_visited(before: Self, after: Self, identifier: Identifier) -> bool {
        after.output@ == before.output@ + line(before.indent, "Identifier: "@ + identifier.name@) && after.indent == before.indent
    }

    fn visit_program(&mut self, program: &Program)
        ensures
            final(self).output@ == old(self).output@ + pt_program(*program, old(self).indent),
            final(self).indent == old(self).indent,
    {
        let n = self.indent;
        self.print_program(program, n);
    }

    fn visit_class_decl(&mut self, class: &ClassDecl)
        ensures
            final(self).output@ == old(self).output@ + pt_class(*class, old(self).indent),
            final(self).indent == old(self).indent,
    {
        let n = self.indent;
        self.print_class(class, n);
    }

    fn visit_function_decl(&mut self, func: &FunctionDecl)
        ensures
            final(self).output@ == old(self).output@ + pt_function(*func, old(self).indent),
            final(self).indent == old(self).indent,
    {
        let n = self.indent;
        self.print_function(func, n);
    }

    fn visit_method(&mut self, method: &Method)
        ensures
            final(self).output@ == old(self).output@ + pt_method(*method, old(self).indent),
            final(self).indent == old(self).indent,
    {
        let n = self.indent;
        self.print_method(method, n);
    }

    fn visit_attribute(&mut self, attr: &Attribute)
        ensures
            final(self).output@ == old(self).output@ + pt_attribute(*attr, old(self).indent),
            final(self).indent == old(self).indent,
    {
        let n = self.indent;
        self.print_attribute(attr, n);
    }

    fn visit_expression(&mut self, expr: &Expression)
        ensures
            final(self).output@ == old(self).output@ + pt_expr(*expr, old(self).indent),
            final(self).indent == old(self).indent,
    {
        let n = self.indent;
        self.print_expr(expr, n);
    }

    fn visit_atom(&mut self, atom: &Atom)
        ensures
            final(self).output@ == old(self).output@ + pt_atom(*atom, old(self).indent),
            final(self).indent == old(self).indent,
    {
        let n = self.indent;
        self.print_atom(atom, n);
    }

    fn visit_binary_op(&mut self, binop: &BinaryOp)
        ensures
            final(self).output@ == old(self).output@ + pt_expr(Expression::BinaryOp(*binop), old(self).indent),
            final(self).indent == old(self).indent,
    {
        let n = self.indent;
        self.print_binary(binop, n);
    }

    fn visit_unary_op(&mut self, unary_op: &UnaryOp)
        ensures
            final(self).output@ == old(self).output@ + pt_expr(Expression::UnaryOp(*unary_op), old(self).indent),
            final(self).indent == old(self).indent,
    {
        let n = self.indent;
        self.print_unary(unary_op, n);
    }

    fn visit_let_expr(&mut self, let_expr: &LetExpr)
        ensures
            final(self).output@ == old(self).output@ + pt_expr(Expression::Let(Box::new(*let_expr)), old(self).indent),
            final(self).indent == old(self).indent,
    {
        let n = self.indent;
        self.print_let(let_expr, n);
    }

    fn visit_if_expr(&mut self, if_expr: &IfExpr)
        ensures
            final(self).output@ == old(self).output@ + pt_expr(Expression::If(Box::new(*if_expr)), old(self).indent),
            final(self).indent == old(self).indent,
    {
        let n = self.indent;
        self.print_if(if_expr, n);
    }

    fn visit_while_expr(&mut self, while_expr: &WhileExpr)
        ensures
            final(self).output@ == old(self).output@ + pt_expr(Expression::While(Box::new(*while_expr)), old(self).indent),
            final(self).indent == old(self).indent,
    {
        let n = self.indent;
        self.print_while(while_expr, n);
    }

    fn visit_for_expr(&mut self, for_expr: &ForExpr)
        ensures
            final(self).output@ == old(self).output@ + pt_expr(Expression::For(Box::new(*for_expr)), old(self).indent),
            final(self).indent == old(self).indent,
    {
        let n = self.indent;
        self.print_for(for_expr, n);
    }

    fn visit_is_expr(&mut self, is_expr: &IsExpr)
        ensures
            final(self).output@ == old(self).output@ + pt_expr(Expression::IsType(Box::new(*is_expr)), old(self).indent),
            final(self).indent == old(self).indent,
    {
        let n = self.indent;
        self.print_is(is_expr, n);
    }

    fn visit_as_expr(&mut self, as_expr: &AsExpr)
        ensures
            final(self).output@ == old(self).output@ + pt_expr(Expression::AsType(Box::new(*as_expr)), old(self).indent),
            final(self).indent == old(self).indent,
    {
        let n = self.indent;
        self.print_as(as_expr, n);
    }

    fn visit_case_expr(&mut self, case_expr: &CaseExpr)
        ensures
            final(self).output@ == old(self).output@ + pt_expr(Expression::Case(Box::new(*case_expr)), old(self).indent),
            final(self).indent == old(self).indent,
    {
        let n = self.indent;
        self.print_case(case_expr, n);
    }

    fn visit_assign_expr(&mut self, assign: &AssignExpr)
        ensures
            final(self).output@ == old(self).output@ + pt_expr(Expression::Assign(Box::new(*assign)), old(self).indent),
            final(self).indent == old(self).indent,
    {
        let n = self.indent;
        self.print_assign(assign, n);
    }

    fn visit_member_access(&mut self, access: &MemberAccess)
        ensures
            final(self).output@ == old(self).output@ + pt_expr(Expression::MemberAccess(Box::new(*access)), old(self).indent),
            final(self).indent == old(self).indent,
    {
        let n = self.indent;
        self.print_member_access(access, n);
    }

    fn visit_method_call(&mut self, call: &MethodCall)
        ensures
            final(self).output@ == old(self).output@ + pt_expr(Expression::MethodCall(Box::new(*call)), old(self).indent),
            final(self).indent == old(self).indent,
    {
        let n = self.indent;
        self.print_method_call(call, n);
    }

    fn visit_index_access(&mut self, access: &IndexAccess)
        ensures
            final(self).output@ == old(self).output@ + pt_expr(Expression::IndexAccess(Box::new(*access)), old(self).indent),
            final(self).indent == old(self).indent,
    {
        let n = self.indent;
        self.print_index_access(access, n);
    }

    fn visit_function_call(&mut self, call: &FunctionCall)
        ensures
            final(self).output@ == old(self).output@ + pt_expr(Expression::FunctionCall(Box::new(*call)), old(self).indent),
            final(self).indent == old(self).indent,
    {
        let n = self.indent;
        self.print_function_call(call, n);
    }

    fn visit_new_instance(&mut self, inst: &NewInstance)
        ensures
            final(self).output@ == old(self).output@ + pt_expr(Expression::NewInstance(Box::new(*inst)), old(self).indent),
            final(self).indent == old(self).indent,
    {
        let n = self.indent;
        self.print_new_instance(inst, n);
    }

    fn visit_new_array(&mut self, arr: &NewArray)
        ensures
            final(self).output@ == old(self).output@ + pt_expr(Expression::NewArray(Box::new(*arr)), old(self).indent),
            final(self).indent == old(self).indent,
    {
        let n = self.indent;
        self.print_new_array(arr, n);
    }

    fn visit_literal(&mut self, literal: &Literal)
        ensures
            final(self).output@ == old(self).output@ + line(old(self).indent, literal_line(*literal)),
            final(self).indent == old(self).indent,
    {
        let n = self.indent;
        self.print_literal(literal, n);
    }

    fn visit_identifier(&mut self, identifier: &Identifier)
        ensures
            final(self).output@ == old(self).output@ + line(old(self).indent, "Identifier: "@ + identifier.name@),
            final(self).indent == old(self).indent,
    {
        let n = self.indent;
        let s = cat("Identifier: ", identifier.name.as_str());
        self.emit(n, s.as_str());
    }
}

} // verus!

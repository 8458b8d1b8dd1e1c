//! The abstract syntax tree of HULK programs.

use vstd::prelude::*;
use crate::tokens::{BinOp, GroupingOperator, Identifier, Literal, Position, Span, spec_literal_position};
use crate::tokens;

verus! {

// ───────────────────────── Program and declarations ─────────────────────────

/// Root node: `classes* functions* [expr ; | { expr; ... }]`
#[derive(Debug)]
pub struct Program {
    pub classes: Vec<ClassDecl>,
    pub functions: Vec<FunctionDecl>,
    pub entry: Option<ExprBody>,
    pub span: Span,
}

/// A parameter with optional type annotation: `name [: Type]`
#[derive(Debug)]
pub struct Param {
    pub name: String,
    pub type_ann: Option<String>,
    pub span: Span,
}

/// Class attribute: `name [: Type] = init_expr`
#[derive(Debug)]
pub struct Attribute {
    pub name: String,
    pub type_ann: Option<String>,
    pub init: Expression,
    pub span: Span,
}

/// `class Name[(params)] [is Parent[(args)]] { attrs methods }`
#[derive(Debug)]
pub struct ClassDecl {
    pub name: String,
    pub params: Vec<Param>,
    pub parent: Option<String>,
    pub parent_args: Vec<Expression>,
    pub attributes: Vec<Attribute>,
    pub methods: Vec<Method>,
    pub span: Span,
}

/// `function name(params) [: ReturnType] body`
#[derive(Debug)]
pub struct FunctionDecl {
    pub name: String,
    pub params: Vec<Param>,
    pub return_type: Option<String>,
    pub body: Body,
    pub span: Span,
}

/// Method: `name(params) [: ReturnType] body`
#[derive(Debug)]
pub struct Method {
    pub name: String,
    pub params: Vec<Param>,
    pub return_type: Option<String>,
    pub body: Body,
    pub span: Span,
}

/// Function/method body: `-> expr ;` (inline) or `{ expr; expr; ... }` (block).
#[derive(Debug)]
pub enum Body {
    Inline(Expression),
    Block(Vec<Expression>),
}

/// The body of `let`, `if`, `while`, ...: a single expression or a block
/// `{ expr1; expr2; ... }`.
#[derive(Debug)]
pub enum ExprBody {
    Single(Box<Expression>),
    Block(Vec<Expression>),
}

// ───────────────────────── Expressions ─────────────────────────

#[derive(Debug)]
pub enum Expression {
    BinaryOp(BinaryOp),
    UnaryOp(UnaryOp),
    Atom(Box<Atom>),
    Let(Box<LetExpr>),
    If(Box<IfExpr>),
    While(Box<WhileExpr>),
    For(Box<ForExpr>),
    IsType(Box<IsExpr>),
    AsType(Box<AsExpr>),
    Case(Box<CaseExpr>),
    Assign(Box<AssignExpr>),
    MemberAccess(Box<MemberAccess>),
    MethodCall(Box<MethodCall>),
    IndexAccess(Box<IndexAccess>),
    FunctionCall(Box<FunctionCall>),
    NewInstance(Box<NewInstance>),
    NewArray(Box<NewArray>),
}

/// Literals, variables and parenthesized expressions.
#[derive(Debug)]
pub enum Atom {
    NumberLiteral(Literal),
    BooleanLiteral(Literal),
    StringLiteral(Literal),
    Variable(Identifier),
    Group(Box<Group>),
}

/// `( expression )`
#[derive(Debug)]
pub struct Group {
    pub open_paren: GroupingOperator,
    pub close_paren: GroupingOperator,
    pub expression: Expression,
}

/// `left op right`
#[derive(Debug)]
pub struct BinaryOp {
    pub left: Box<Expression>,
    pub right: Box<Expression>,
    pub operator: BinOp,
    pub span: Span,
}

/// `op expr`
#[derive(Debug)]
pub struct UnaryOp {
    pub op: tokens::UnaryOp,
    pub expr: Box<Expression>,
    pub span: Span,
}

/// `let x: Type = val, y = val2 in body`
#[derive(Debug)]
pub struct LetExpr {
    pub decls: Vec<LetDecl>,
    pub body: ExprBody,
    pub span: Span,
}

/// A single declaration inside a let: `ID [: Type] = expr`
#[derive(Debug)]
pub struct LetDecl {
    pub name: String,
    pub type_ann: Option<String>,
    pub value: Expression,
    pub span: Span,
}

/// `if (cond) body elif (cond2) body2 else body3`
#[derive(Debug)]
pub struct IfExpr {
    pub condition: Expression,
    pub then_body: ExprBody,
    pub elif_branches: Vec<CondBranch>,
    pub else_body: Option<ExprBody>,
    pub span: Span,
}

/// A single elif branch: `elif (condition) body`
#[derive(Debug)]
pub struct CondBranch {
    pub condition: Expression,
    pub body: ExprBody,
    pub span: Span,
}

/// `while (condition) body [else body]`
#[derive(Debug)]
pub struct WhileExpr {
    pub condition: Expression,
    pub body: ExprBody,
    pub else_body: Option<ExprBody>,
    pub span: Span,
}

/// `for (x in iterable) body`
#[derive(Debug)]
pub struct ForExpr {
    pub var: String,
    pub iterable: Expression,
    pub body: ExprBody,
    pub span: Span,
}

/// `expr is TypeName`
#[derive(Debug)]
pub struct IsExpr {
    pub expr: Expression,
    pub type_ident: String,
    pub span: Span,
}

/// `expr as TypeName`
#[derive(Debug)]
pub struct AsExpr {
    pub expr: Expression,
    pub type_ident: String,
    pub span: Span,
}

/// `case expr of { branches }`
#[derive(Debug)]
pub struct CaseExpr {
    pub expr: Expression,
    pub branches: Vec<CaseBranch>,
    pub span: Span,
}

/// A single branch: `ID : Type -> body`
#[derive(Debug)]
pub struct CaseBranch {
    pub name: String,
    pub type_ident: String,
    pub body: ExprBody,
    pub span: Span,
}

/// `location := value`
#[derive(Debug)]
pub struct AssignExpr {
    pub target: Expression,
    pub value: Expression,
    pub span: Span,
}

/// `expr.member`
#[derive(Debug)]
pub struct MemberAccess {
    pub object: Expression,
    pub member: String,
    pub span: Span,
}

/// `expr.method(args)`
#[derive(Debug)]
pub struct MethodCall {
    pub object: Expression,
    pub method: String,
    pub args: Vec<Expression>,
    pub span: Span,
}

/// `expr[index]`
#[derive(Debug)]
pub struct IndexAccess {
    pub object: Expression,
    pub index: Expression,
    pub span: Span,
}

/// `func_name(args)`
#[derive(Debug)]
pub struct FunctionCall {
    pub name: String,
    pub args: Vec<Expression>,
    pub span: Span,
}

/// `new TypeName(args)`
#[derive(Debug)]
pub struct NewInstance {
    pub type_ident: String,
    pub args: Vec<Expression>,
    pub span: Span,
}

/// `new Type?[size] { id -> init_expr }?`
#[derive(Debug)]
pub struct NewArray {
    pub type_ident: Option<String>,
    pub size: Expression,
    pub init: Option<(String, Expression)>,
    pub span: Span,
}

// ───────────────────────── Constructors and spans ─────────────────────────

impl Atom {
    pub fn new_identifier(start: usize, end: usize, id: &str) -> (a: Self)
        ensures
            a matches Atom::Variable(v) && v.name@ == id@ && v.position == Position::new_spec(start, end),
    {
        Atom::Variable(Identifier { name: id.to_owned(), position: Position::new(start, end) })
    }

    pub fn new_grouped_expression(group: Group) -> (a: Self)
        ensures
            a == Atom::Group(Box::new(group)),
    {
        Atom::Group(Box::new(group))
    }

    /// Returns the source span of this atom.
    pub fn span(&self) -> (s: Span)
        ensures
            s == spec_atom_span(*self),
    {
        match self {
            Atom::NumberLiteral(lit) | Atom::BooleanLiteral(lit) | Atom::StringLiteral(lit) => {
                lit.position()
            },
            Atom::Variable(id) => id.position,
            Atom::Group(g) => {
                let start = match &g.open_paren {
                    GroupingOperator::OpenParen(p) => p.start,
                    _ => 0,
                };
                let end = match &g.close_paren {
                    GroupingOperator::CloseParen(p) => p.end,
                    _ => 0,
                };
                Span::new(start, end)
            },
        }
    }
}

/// The span of an atom: the literal's or identifier's position, or from
/// the opening to the closing parenthesis of a group.
pub open spec fn spec_atom_span(a: Atom) -> Span {
    match a {
        Atom::NumberLiteral(l) => spec_literal_position(l),
        Atom::BooleanLiteral(l) => spec_literal_position(l),
        Atom::StringLiteral(l) => spec_literal_position(l),
        Atom::Variable(id) => id.position,
        Atom::Group(g) => Position::new_spec(
            match g.open_paren {
                GroupingOperator::OpenParen(p) => p.start,
                _ => 0,
            },
            match g.close_paren {
                GroupingOperator::CloseParen(p) => p.end,
                _ => 0,
            },
        ),
    }
}

impl Group {
    pub fn new(open_paren: GroupingOperator, expression: Expression, close_paren: GroupingOperator) -> (g: Self)
        ensures
            g == (Group { open_paren, close_paren, expression }),
    {
        Group { open_paren, close_paren, expression }
    }
}

impl BinaryOp {
    pub fn new(left: Expression, right: Expression, operator: BinOp, span: Span) -> (b: Self)
        ensures
            b == (BinaryOp { left: Box::new(left), right: Box::new(right), operator, span }),
    {
        BinaryOp { left: Box::new(left), right: Box::new(right), operator, span }
    }
}

impl UnaryOp {
    pub fn new(op: tokens::UnaryOp, expr: Expression, span: Span) -> (u: Self)
        ensures
            u == (UnaryOp { op, expr: Box::new(expr), span }),
    {
        UnaryOp { op, expr: Box::new(expr), span }
    }
}

impl Expression {
    pub fn new_binary_op(left: Expression, right: Expression, operator: BinOp, span: Span) -> (e: Self)
        ensures
            e == Expression::BinaryOp(BinaryOp { left: Box::new(left), right: Box::new(right), operator, span }),
    {
        Expression::BinaryOp(BinaryOp::new(left, right, operator, span))
    }

    pub fn new_unary_op(op: tokens::UnaryOp, expr: Expression, span: Span) -> (e: Self)
        ensures
            e == Expression::UnaryOp(UnaryOp { op, expr: Box::new(expr), span }),
    {
        Expression::UnaryOp(UnaryOp::new(op, expr, span))
    }

    pub fn new_atom(atom: Atom) -> (e: Self)
        ensures
            e == Expression::Atom(Box::new(atom)),
    {
        Expression::Atom(Box::new(atom))
    }

    /// Returns the span of this expression.
    pub fn span(&self) -> (s: Span)
        ensures
            s == spec_expr_span(*self),
    {
        match self {
            Expression::BinaryOp(e) => e.span,
            Expression::UnaryOp(e) => e.span,
            Expression::Atom(a) => a.span(),
            Expression::Let(e) => e.span,
            Expression::If(e) => e.span,
            Expression::While(e) => e.span,
            Expression::For(e) => e.span,
            Expression::IsType(e) => e.span,
            Expression::AsType(e) => e.span,
            Expression::Case(e) => e.span,
            Expression::Assign(e) => e.span,
            Expression::MemberAccess(e) => e.span,
            Expression::MethodCall(e) => e.span,
            Expression::IndexAccess(e) => e.span,
            Expression::FunctionCall(e) => e.span,
            Expression::NewInstance(e) => e.span,
            Expression::NewArray(e) => e.span,
        }
    }
}

/// The span of an expression: the span its node records.
pub open spec fn spec_expr_span(e: Expression) -> Span {
    match e {
        Expression::BinaryOp(x) => x.span,
        Expression::UnaryOp(x) => x.span,
        Expression::Atom(a) => spec_atom_span(*a),
        Expression::Let(x) => x.span,
        Expression::If(x) => x.span,
        Expression::While(x) => x.span,
        Expression::For(x) => x.span,
        Expression::IsType(x) => x.span,
        Expression::AsType(x) => x.span,
        Expression::Case(x) => x.span,
        Expression::Assign(x) => x.span,
        Expression::MemberAccess(x) => x.span,
        Expression::MethodCall(x) => x.span,
        Expression::IndexAccess(x) => x.span,
        Expression::FunctionCall(x) => x.span,
        Expression::NewInstance(x) => x.span,
        Expression::NewArray(x) => x.span,
    }
}

// ───────────────────────── Visitor ─────────────────────────

/// A walker over the tree: one method per kind of node.
pub trait Visitor: Sized {
    // What each visit does: how the visitor after it relates to the visitor
    // before it and to the node it visits.
    spec fn program_visited(before: Self, after: Self, program: Program) -> bool;
    spec fn class_decl_visited(before: Self, after: Self, class: ClassDecl) -> bool;
    spec fn function_decl_visited(before: Self, after: Self, func: FunctionDecl) -> bool;
    spec fn method_visited(before: Self, after: Self, method: Method) -> bool;
    spec fn attribute_visited(before: Self, after: Self, attr: Attribute) -> bool;
    spec fn expression_visited(before: Self, after: Self, expr: Expression) -> bool;
    spec fn atom_visited(before: Self, after: Self, atom: Atom) -> bool;
    spec fn binary_op_visited(before: Self, after: Self, binop: BinaryOp) -> bool;
    spec fn unary_op_visited(before: Self, after: Self, unary_op: UnaryOp) -> bool;
    spec fn let_expr_visited(before: Self, after: Self, let_expr: LetExpr) -> bool;
    spec fn if_expr_visited(before: Self, after: Self, if_expr: IfExpr) -> bool;
    spec fn while_expr_visited(before: Self, after: Self, while_expr: WhileExpr) -> bool;
    spec fn for_expr_visited(before: Self, after: Self, for_expr: ForExpr) -> bool;
    spec fn is_expr_visited(before: Self, after: Self, is_expr: IsExpr) -> bool;
    spec fn as_expr_visited(before: Self, after: Self, as_expr: AsExpr) -> bool;
    spec fn case_expr_visited(before: Self, after: Self, case_expr: CaseExpr) -> bool;
    spec fn assign_expr_visited(before: Self, after: Self, assign: AssignExpr) -> bool;
    spec fn member_access_visited(before: Self, after: Self, access: MemberAccess) -> bool;
    spec fn method_call_visited(before: Self, after: Self, call: MethodCall) -> bool;
    spec fn index_access_visited(before: Self, after: Self, access: IndexAccess) -> bool;
    spec fn function_call_visited(before: Self, after: Self, call: FunctionCall) -> bool;
    spec fn new_instance_visited(before: Self, after: Self, inst: NewInstance) -> bool;
    spec fn new_array_visited(before: Self, after: Self, arr: NewArray) -> bool;
    spec fn identifier_visited(before: Self, after: Self, identifier: Identifier) -> bool;
    spec fn literal_visited(before: Self, after: Self, literal: Literal) -> bool;

    // Program
    fn visit_program(&mut self, program: &Program)
        ensures
            Self::program_visited(*old(self), *final(self), *program),
    ;

    // Declarations
    fn visit_class_decl(&mut self, class: &ClassDecl)
        ensures
            Self::class_decl_visited(*old(self), *final(self), *class),
    ;
    fn visit_function_decl(&mut self, func: &FunctionDecl)
        ensures
            Self::function_decl_visited(*old(self), *final(self), *func),
    ;
    fn visit_method(&mut self, method: &Method)
        ensures
            Self::method_visited(*old(self), *final(self), *method),
    ;
    fn visit_attribute(&mut self, attr: &Attribute)
        ensures
            Self::attribute_visited(*old(self), *final(self), *attr),
    ;

    // Expressions
    fn visit_expression(&mut self, expr: &Expression)
        ensures
            Self::expression_visited(*old(self), *final(self), *expr),
    ;
    fn visit_atom(&mut self, atom: &Atom)
        ensures
            Self::atom_visited(*old(self), *final(self), *atom),
    ;
    fn visit_binary_op(&mut self, binop: &BinaryOp)
        ensures
            Self::binary_op_visited(*old(self), *final(self), *binop),
    ;
    fn visit_unary_op(&mut self, unary_op: &UnaryOp)
        ensures
            Self::unary_op_visited(*old(self), *final(self), *unary_op),
    ;
    fn visit_let_expr(&mut self, let_expr: &LetExpr)
        ensures
            Self::let_expr_visited(*old(self), *final(self), *let_expr),
    ;
    fn visit_if_expr(&mut self, if_expr: &IfExpr)
        ensures
            Self::if_expr_visited(*old(self), *final(self), *if_expr),
    ;
    fn visit_while_expr(&mut self, while_expr: &WhileExpr)
        ensures
            Self::while_expr_visited(*old(self), *final(self), *while_expr),
    ;
    fn visit_for_expr(&mut self, for_expr: &ForExpr)
        ensures
            Self::for_expr_visited(*old(self), *final(self), *for_expr),
    ;
    fn visit_is_expr(&mut self, is_expr: &IsExpr)
        ensures
            Self::is_expr_visited(*old(self), *final(self), *is_expr),
    ;
    fn visit_as_expr(&mut self, as_expr: &AsExpr)
        ensures
            Self::as_expr_visited(*old(self), *final(self), *as_expr),
    ;
    fn visit_case_expr(&mut self, case_expr: &CaseExpr)
        ensures
            Self::case_expr_visited(*old(self), *final(self), *case_expr),
    ;
    fn visit_assign_expr(&mut self, assign: &AssignExpr)
        ensures
            Self::assign_expr_visited(*old(self), *final(self), *assign),
    ;
    fn visit_member_access(&mut self, access: &MemberAccess)
        ensures
            Self::member_access_visited(*old(self), *final(self), *access),
    ;
    fn visit_method_call(&mut self, call: &MethodCall)
        ensures
            Self::method_call_visited(*old(self), *final(self), *call),
    ;
    fn visit_index_access(&mut self, access: &IndexAccess)
        ensures
            Self::index_access_visited(*old(self), *final(self), *access),
    ;
    fn visit_function_call(&mut self, call: &FunctionCall)
        ensures
            Self::function_call_visited(*old(self), *final(self), *call),
    ;
    fn visit_new_instance(&mut self, inst: &NewInstance)
        ensures
            Self::new_instance_visited(*old(self), *final(self), *inst),
    ;
    fn visit_new_array(&mut self, arr: &NewArray)
        ensures
            Self::new_array_visited(*old(self), *final(self), *arr),
    ;

    // Tokens
    fn visit_identifier(&mut self, identifier: &Identifier)
        ensures
            Self::identifier_visited(*old(self), *final(self), *identifier),
    ;
    fn visit_literal(&mut self, literal: &Literal)
        ensures
            Self::literal_visited(*old(self), *final(self), *literal),
    ;
}

/// A node that hands itself to the matching method of a visitor.
pub trait Visitable {
    fn accept<V: Visitor>(&self, visitor: &mut V);
}

impl Visitable for Program {
    fn accept<V: Visitor>(&self, visitor: &mut V)
        ensures
            V::program_visited(*old(visitor), *final(visitor), *self),
    {
        visitor.visit_program(self);
    }
}

impl Visitable for ClassDecl {
    fn accept<V: Visitor>(&self, visitor: &mut V)
        ensures
            V::class_decl_visited(*old(visitor), *final(visitor), *self),
    {
        visitor.visit_class_decl(self);
    }
}

impl Visitable for FunctionDecl {
    fn accept<V: Visitor>(&self, visitor: &mut V)
        ensures
            V::function_decl_visited(*old(visitor), *final(visitor), *self),
    {
        visitor.visit_function_decl(self);
    }
}

impl Visitable for Method {
    fn accept<V: Visitor>(&self, visitor: &mut V)
        ensures
            V::method_visited(*old(visitor), *final(visitor), *self),
    {
        visitor.visit_method(self);
    }
}

impl Visitable for Attribute {
    fn accept<V: Visitor>(&self, visitor: &mut V)
        ensures
            V::attribute_visited(*old(visitor), *final(visitor), *self),
    {
        visitor.visit_attribute(self);
    }
}

impl Visitable for Expression {
    fn accept<V: Visitor>(&self, visitor: &mut V)
        ensures
            V::expression_visited(*old(visitor), *final(visitor), *self),
    {
        visitor.visit_expression(self);
    }
}

impl Visitable for Atom {
    fn accept<V: Visitor>(&self, visitor: &mut V)
        ensures
            V::atom_visited(*old(visitor), *final(visitor), *self),
    {
        visitor.visit_atom(self);
    }
}

impl Visitable for BinaryOp {
    fn accept<V: Visitor>(&self, visitor: &mut V)
        ensures
            V::binary_op_visited(*old(visitor), *final(visitor), *self),
    {
        visitor.visit_binary_op(self);
    }
}

impl Visitable for UnaryOp {
    fn accept<V: Visitor>(&self, visitor: &mut V)
        ensures
            V::unary_op_visited(*old(visitor), *final(visitor), *self),
    {
        visitor.visit_unary_op(self);
    }
}

impl Visitable for LetExpr {
    fn accept<V: Visitor>(&self, visitor: &mut V)
        ensures
            V::let_expr_visited(*old(visitor), *final(visitor), *self),
    {
        visitor.visit_let_expr(self);
    }
}

impl Visitable for IfExpr {
    fn accept<V: Visitor>(&self, visitor: &mut V)
        ensures
            V::if_expr_visited(*old(visitor), *final(visitor), *self),
    {
        visitor.visit_if_expr(self);
    }
}

impl Visitable for WhileExpr {
    fn accept<V: Visitor>(&self, visitor: &mut V)
        ensures
            V::while_expr_visited(*old(visitor), *final(visitor), *self),
    {
        visitor.visit_while_expr(self);
    }
}

impl Visitable for ForExpr {
    fn accept<V: Visitor>(&self, visitor: &mut V)
        ensures
            V::for_expr_visited(*old(visitor), *final(visitor), *self),
    {
        visitor.visit_for_expr(self);
    }
}

impl Visitable for IsExpr {
    fn accept<V: Visitor>(&self, visitor: &mut V)
        ensures
            V::is_expr_visited(*old(visitor), *final(visitor), *self),
    {
        visitor.visit_is_expr(self);
    }
}

impl Visitable for AsExpr {
    fn accept<V: Visitor>(&self, visitor: &mut V)
        ensures
            V::as_expr_visited(*old(visitor), *final(visitor), *self),
    {
        visitor.visit_as_expr(self);
    }
}

impl Visitable for CaseExpr {
    fn accept<V: Visitor>(&self, visitor: &mut V)
        ensures
            V::case_expr_visited(*old(visitor), *final(visitor), *self),
    {
        visitor.visit_case_expr(self);
    }
}

impl Visitable for AssignExpr {
    fn accept<V: Visitor>(&self, visitor: &mut V)
        ensures
            V::assign_expr_visited(*old(visitor), *final(visitor), *self),
    {
        visitor.visit_assign_expr(self);
    }
}

impl Visitable for MemberAccess {
    fn accept<V: Visitor>(&self, visitor: &mut V)
        ensures
            V::member_access_visited(*old(visitor), *final(visitor), *self),
    {
        visitor.visit_member_access(self);
    }
}

impl Visitable for MethodCall {
    fn accept<V: Visitor>(&self, visitor: &mut V)
        ensures
            V::method_call_visited(*old(visitor), *final(visitor), *self),
    {
        visitor.visit_method_call(self);
    }
}

impl Visitable for IndexAccess {
    fn accept<V: Visitor>(&self, visitor: &mut V)
        ensures
            V::index_access_visited(*old(visitor), *final(visitor), *self),
    {
        visitor.visit_index_access(self);
    }
}

impl Visitable for FunctionCall {
    fn accept<V: Visitor>(&self, visitor: &mut V)
        ensures
            V::function_call_visited(*old(visitor), *final(visitor), *self),
    {
        visitor.visit_function_call(self);
    }
}

impl Visitable for NewInstance {
    fn accept<V: Visitor>(&self, visitor: &mut V)
        ensures
            V::new_instance_visited(*old(visitor), *final(visitor), *self),
    {
        visitor.visit_new_instance(self);
    }
}

impl Visitable for NewArray {
    fn accept<V: Visitor>(&self, visitor: &mut V)
        ensures
            V::new_array_visited(*old(visitor), *final(visitor), *self),
    {
        visitor.visit_new_array(self);
    }
}

impl Visitable for Literal {
    fn accept<V: Visitor>(&self, visitor: &mut V)
        ensures
            V::literal_visited(*old(visitor), *final(visitor), *self),
    {
        visitor.visit_literal(self);
    }
}

} // verus!

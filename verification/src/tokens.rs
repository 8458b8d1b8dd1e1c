//! Tokens of the HULK language: positions, identifiers, keywords,
//! literals and operators.

use vstd::prelude::*;
use crate::text::{signed_decimal, spec_signed_decimal};

verus! {

/// A span covering a range of positions in the input.
#[derive(Copy, Clone, Debug, PartialEq, Eq, Structural)]
pub struct Position {
    pub start: usize,
    pub end: usize,
}

/// Every AST node carries a span for error reporting.
pub type Span = Position;

impl Position {
    pub open spec fn new_spec(start: usize, end: usize) -> Position {
        Position { start, end }
    }

    #[verifier::when_used_as_spec(new_spec)]
    pub fn new(start: usize, end: usize) -> (p: Self)
        ensures
            p == Position::new_spec(start, end),
    {
        Position { start, end }
    }
}

/// A name in the source text with its position.
#[derive(Debug)]
pub struct Identifier {
    pub name: String,
    pub position: Position,
}

impl Identifier {
    /// The text of the identifier.
    pub fn text(&self) -> (r: String)
        ensures
            r@ == self.name@,
    {
        self.name.clone()
    }
}

/// Reserved words of the language, each with its position.
#[derive(Debug, Clone, Copy)]
pub enum Keyword {
    Let(Position),
    In(Position),
    If(Position),
    Else(Position),
    Elif(Position),
    Print(Position),
    While(Position),
    For(Position),
    Function(Position),
    Class(Position),
    Case(Position),
    Of(Position),
    New(Position),
    Is(Position),
}

pub open spec fn spec_keyword_text(k: Keyword) -> Seq<char> {
    match k {
        Keyword::Let(_) => "let"@,
        Keyword::If(_) => "if"@,
        Keyword::Else(_) => "else"@,
        Keyword::While(_) => "while"@,
        Keyword::Print(_) => "print"@,
        Keyword::In(_) => "in"@,
        Keyword::Elif(_) => "elif"@,
        Keyword::For(_) => "for"@,
        Keyword::Function(_) => "function"@,
        Keyword::Class(_) => "class"@,
        Keyword::Case(_) => "case"@,
        Keyword::Of(_) => "of"@,
        Keyword::New(_) => "new"@,
        Keyword::Is(_) => "is"@,
    }
}

impl Keyword {
    /// The word as written in the source.
    pub fn text(&self) -> (r: String)
        ensures
            r@ == spec_keyword_text(*self),
    {
        let s = match self {
            Keyword::Let(_) => "let",
            Keyword::If(_) => "if",
            Keyword::Else(_) => "else",
            Keyword::While(_) => "while",
            Keyword::Print(_) => "print",
            Keyword::In(_) => "in",
            Keyword::Elif(_) => "elif",
            Keyword::For(_) => "for",
            Keyword::Function(_) => "function",
            Keyword::Class(_) => "class",
            Keyword::Case(_) => "case",
            Keyword::Of(_) => "of",
            Keyword::New(_) => "new",
            Keyword::Is(_) => "is",
        };
        String::from_str(s)
    }
}

/// A literal value with its position.
#[derive(Debug)]
pub enum Literal {
    Number(i32, Position),
    Str(String, Position),
    Bool(bool, Position),
}

pub open spec fn spec_literal_text(l: Literal) -> Seq<char> {
    match l {
        Literal::Number(n, _) => spec_signed_decimal(n as int),
        Literal::Str(s, _) => s@,
        Literal::Bool(b, _) => if b { "true"@ } else { "false"@ },
    }
}

impl Literal {
    /// The literal as it is displayed: the number in decimal, the string's
    /// contents, or `true`/`false`.
    pub fn text(&self) -> (r: String)
        ensures
            r@ == spec_literal_text(*self),
    {
        match self {
            Literal::Number(n, _) => signed_decimal(*n),
            Literal::Str(s, _) => s.clone(),
            Literal::Bool(b, _) => if *b {
                String::from_str("true")
            } else {
                String::from_str("false")
            },
        }
    }

    /// The position of the literal.
    pub fn position(&self) -> (p: Position)
        ensures
            p == spec_literal_position(*self),
    {
        match self {
            Literal::Number(_, p) | Literal::Str(_, p) | Literal::Bool(_, p) => *p,
        }
    }
}

pub open spec fn spec_literal_position(l: Literal) -> Position {
    match l {
        Literal::Number(_, p) => p,
        Literal::Str(_, p) => p,
        Literal::Bool(_, p) => p,
    }
}

/// Binary operators, each with its position.
#[derive(Debug, Clone, Copy)]
pub enum BinOp {
    // Arithmetic
    Plus(Position),
    Minus(Position),
    Mul(Position),
    Div(Position),
    Mod(Position),
    Pow(Position),
    // Comparison
    EqualEqual(Position),
    NotEqual(Position),
    Less(Position),
    LessEqual(Position),
    Greater(Position),
    GreaterEqual(Position),
    // Logical
    And(Position),
    Or(Position),
    // String concatenation
    Concat(Position),
    ConcatSpaced(Position),
    // Assignment / initialization
    Equal(Position),
    Assign(Position),
}

pub open spec fn spec_binop_text(op: BinOp) -> Seq<char> {
    match op {
        BinOp::Plus(_) => "+"@,
        BinOp::Minus(_) => "-"@,
        BinOp::Mul(_) => "*"@,
        BinOp::Div(_) => "/"@,
        BinOp::Mod(_) => "%"@,
        BinOp::Pow(_) => "^"@,
        BinOp::EqualEqual(_) => "=="@,
        BinOp::NotEqual(_) => "!="@,
        BinOp::Less(_) => "<"@,
        BinOp::LessEqual(_) => "<="@,
        BinOp::Greater(_) => ">"@,
        BinOp::GreaterEqual(_) => ">="@,
        BinOp::And(_) => "&"@,
        BinOp::Or(_) => "|"@,
        BinOp::Concat(_) => "@"@,
        BinOp::ConcatSpaced(_) => "@@"@,
        BinOp::Equal(_) => "="@,
        BinOp::Assign(_) => ":="@,
    }
}

impl BinOp {
    /// The operator as written in the source.
    pub fn symbol(&self) -> (r: &'static str)
        ensures
            r@ == spec_binop_text(*self),
    {
        match self {
            BinOp::Plus(_) => "+",
            BinOp::Minus(_) => "-",
            BinOp::Mul(_) => "*",
            BinOp::Div(_) => "/",
            BinOp::Mod(_) => "%",
            BinOp::Pow(_) => "^",
            BinOp::EqualEqual(_) => "==",
            BinOp::NotEqual(_) => "!=",
            BinOp::Less(_) => "<",
            BinOp::LessEqual(_) => "<=",
            BinOp::Greater(_) => ">",
            BinOp::GreaterEqual(_) => ">=",
            BinOp::And(_) => "&",
            BinOp::Or(_) => "|",
            BinOp::Concat(_) => "@",
            BinOp::ConcatSpaced(_) => "@@",
            BinOp::Equal(_) => "=",
            BinOp::Assign(_) => ":=",
        }
    }
}

/// Each binary operator is written with its own fixed characters: `+`,
/// `-`, `*`, `/`, `%`, `^`, `==`, `!=`, `<`, `<=`, `>`, `>=`, `&`, `|`,
/// `@`, `@@`, `=` and `:=`, wherever it stands.
pub proof fn law_binary_operator_texts(p: Position)
    ensures
        spec_binop_text(BinOp::Plus(p)) == seq!['+'],
        spec_binop_text(BinOp::Minus(p)) == seq!['-'],
        spec_binop_text(BinOp::Mul(p)) == seq!['*'],
        spec_binop_text(BinOp::Div(p)) == seq!['/'],
        spec_binop_text(BinOp::Mod(p)) == seq!['%'],
        spec_binop_text(BinOp::Pow(p)) == seq!['^'],
        spec_binop_text(BinOp::EqualEqual(p)) == seq!['=', '='],
        spec_binop_text(BinOp::NotEqual(p)) == seq!['!', '='],
        spec_binop_text(BinOp::Less(p)) == seq!['<'],
        spec_binop_text(BinOp::LessEqual(p)) == seq!['<', '='],
        spec_binop_text(BinOp::Greater(p)) == seq!['>'],
        spec_binop_text(BinOp::GreaterEqual(p)) == seq!['>', '='],
        spec_binop_text(BinOp::And(p)) == seq!['&'],
        spec_binop_text(BinOp::Or(p)) == seq!['|'],
        spec_binop_text(BinOp::Concat(p)) == seq!['@'],
        spec_binop_text(BinOp::ConcatSpaced(p)) == seq!['@', '@'],
        spec_binop_text(BinOp::Equal(p)) == seq!['='],
        spec_binop_text(BinOp::Assign(p)) == seq![':', '='],
{
    reveal_strlit("+");
    reveal_strlit("-");
    reveal_strlit("*");
    reveal_strlit("/");
    reveal_strlit("%");
    reveal_strlit("^");
    reveal_strlit("==");
    reveal_strlit("!=");
    reveal_strlit("<");
    reveal_strlit("<=");
    reveal_strlit(">");
    reveal_strlit(">=");
    reveal_strlit("&");
    reveal_strlit("|");
    reveal_strlit("@");
    reveal_strlit("@@");
    reveal_strlit("=");
    reveal_strlit(":=");
    assert(spec_binop_text(BinOp::Plus(p)) =~= seq!['+']);
    assert(spec_binop_text(BinOp::Minus(p)) =~= seq!['-']);
    assert(spec_binop_text(BinOp::Mul(p)) =~= seq!['*']);
    assert(spec_binop_text(BinOp::Div(p)) =~= seq!['/']);
    assert(spec_binop_text(BinOp::Mod(p)) =~= seq!['%']);
    assert(spec_binop_text(BinOp::Pow(p)) =~= seq!['^']);
    assert(spec_binop_text(BinOp::EqualEqual(p)) =~= seq!['=', '=']);
    assert(spec_binop_text(BinOp::NotEqual(p)) =~= seq!['!', '=']);
    assert(spec_binop_text(BinOp::Less(p)) =~= seq!['<']);
    assert(spec_binop_text(BinOp::LessEqual(p)) =~= seq!['<', '=']);
    assert(spec_binop_text(BinOp::Greater(p)) =~= seq!['>']);
    assert(spec_binop_text(BinOp::GreaterEqual(p)) =~= seq!['>', '=']);
    assert(spec_binop_text(BinOp::And(p)) =~= seq!['&']);
    assert(spec_binop_text(BinOp::Or(p)) =~= seq!['|']);
    assert(spec_binop_text(BinOp::Concat(p)) =~= seq!['@']);
    assert(spec_binop_text(BinOp::ConcatSpaced(p)) =~= seq!['@', '@']);
    assert(spec_binop_text(BinOp::Equal(p)) =~= seq!['=']);
    assert(spec_binop_text(BinOp::Assign(p)) =~= seq![':', '=']);
}

/// Prefix operators, each with its position.
#[derive(Debug, Clone, Copy)]
pub enum UnaryOp {
    Minus(Position),
    Not(Position),
}

pub open spec fn spec_unop_text(op: UnaryOp) -> Seq<char> {
    match op {
        UnaryOp::Minus(_) => "-"@,
        UnaryOp::Not(_) => "!"@,
    }
}

impl UnaryOp {
    /// The operator as written in the source.
    pub fn symbol(&self) -> (r: &'static str)
        ensures
            r@ == spec_unop_text(*self),
    {
        match self {
            UnaryOp::Minus(_) => "-",
            UnaryOp::Not(_) => "!",
        }
    }
}

/// The prefix operators are written `-` and `!`.
pub proof fn law_unary_operator_texts(p: Position)
    ensures
        spec_unop_text(UnaryOp::Minus(p)) == seq!['-'],
        spec_unop_text(UnaryOp::Not(p)) == seq!['!'],
{
    reveal_strlit("-");
    reveal_strlit("!");
    assert(spec_unop_text(UnaryOp::Minus(p)) =~= seq!['-']);
    assert(spec_unop_text(UnaryOp::Not(p)) =~= seq!['!']);
}

/// Brackets, each with its position.
#[derive(Debug, Clone, Copy)]
pub enum GroupingOperator {
    OpenParen(Position),
    CloseParen(Position),
    OpenBrace(Position),
    CloseBrace(Position),
    OpenBracket(Position),
    CloseBracket(Position),
}

pub open spec fn spec_grouping_text(g: GroupingOperator) -> Seq<char> {
    match g {
        GroupingOperator::OpenParen(_) => "("@,
        GroupingOperator::CloseParen(_) => ")"@,
        GroupingOperator::OpenBrace(_) => "{"@,
        GroupingOperator::CloseBrace(_) => "}"@,
        GroupingOperator::OpenBracket(_) => "["@,
        GroupingOperator::CloseBracket(_) => "]"@,
    }
}

impl GroupingOperator {
    /// The bracket as written in the source.
    pub fn symbol(&self) -> (r: &'static str)
        ensures
            r@ == spec_grouping_text(*self),
    {
        match self {
            GroupingOperator::OpenParen(_) => "(",
            GroupingOperator::CloseParen(_) => ")",
            GroupingOperator::OpenBrace(_) => "{",
            GroupingOperator::CloseBrace(_) => "}",
            GroupingOperator::OpenBracket(_) => "[",
            GroupingOperator::CloseBracket(_) => "]",
        }
    }
}

} // verus!

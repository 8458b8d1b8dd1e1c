//! The parser of HULK programs and expressions.
//!
//! A recursive-descent parser over the tokens of the source, one function
//! per production of the grammar, with the operator precedence and
//! associativity the grammar gives (from `:=`, the loosest, to the
//! postfix `.`, `[]`, `()`, the tightest).

use vstd::prelude::*;
use vstd::string::*;
use crate::ast::{
    AsExpr, AssignExpr, Atom, Attribute, Body, CaseBranch, CaseExpr, ClassDecl, CondBranch, ExprBody, Expression,
    ForExpr, FunctionCall, FunctionDecl, Group, IfExpr, IndexAccess, IsExpr, LetDecl, LetExpr, MemberAccess, Method,
    MethodCall, NewArray, NewInstance, Param, Program, WhileExpr,
};
use crate::tokens::{BinOp, GroupingOperator, Identifier, Literal, Position, spec_binop_text};
use crate::tokens;
use crate::ast;
use crate::errors::{ParseFailure, SyntaxError, build_syntax_error, spec_build_syntax_error};
use crate::lexer::{Token, TokenKind, tokenize, spec_tokens};
use crate::text::{chars_of, str_eq, byte_offsets, byte_offset, byte_len, lemma_byte_offset_mono};
use crate::derivation::{
    Tok, tok_of, toks_of, digits_value, sym, word, annotation, opt_word, unop_text, param_toks, derives_atom,
    derives_list, derives_stmts, derives_body, derives_decls, derives_elifs, derives_branch,
    derives_branch_list, derives_expr, derives_block, derives_params,
    derives_fn_body, derives_signature, derives_function, derives_functions, derives_attribute, derives_attributes,
    derives_methods, derives_class_params, derives_parent, derives_class, derives_classes, derives_entry,
    derives_program, binding, binop_level,
};

verus! {

/// The levels of the grammar, loosest first, for the termination measure.
pub const LEVEL_LIST: u8 = 30;

/// Whether a failure points into (or at the end of) a source of `n`
/// characters.
pub open spec fn failure_located(f: ParseFailure, n: int) -> bool {
    match f {
        ParseFailure::InvalidToken { location } => location <= n,
        ParseFailure::UnrecognizedEof { location, .. } => location <= n,
        ParseFailure::UnrecognizedToken { start, end, .. } => start < end <= n,
        ParseFailure::ExtraToken { start, end, .. } => start < end <= n,
        ParseFailure::User { .. } => true,
    }
}

/// The parser state: the source, its characters, the byte offset of each
/// character, and its tokens.
struct Parser<'a> {
    input: &'a str,
    src: Vec<char>,
    bytes: Vec<usize>,
    toks: Vec<Token>,
}

/// The words that cannot be names.
pub open spec fn is_keyword(w: Seq<char>) -> bool {
    w == "let"@ || w == "in"@ || w == "if"@ || w == "elif"@ || w == "else"@ || w == "while"@ || w == "for"@
        || w == "case"@ || w == "of"@ || w == "new"@ || w == "class"@ || w == "is"@ || w == "as"@
        || w == "function"@ || w == "true"@ || w == "false"@
}

fn keyword(w: &str) -> (r: bool)
    ensures
        r == is_keyword(w@),
{
    str_eq(w, "let") || str_eq(w, "in") || str_eq(w, "if") || str_eq(w, "elif") || str_eq(w, "else") || str_eq(w,
        "while") || str_eq(w, "for") || str_eq(w, "case") || str_eq(w, "of") || str_eq(w, "new") || str_eq(w,
        "class") || str_eq(w, "is") || str_eq(w, "as") || str_eq(w, "function") || str_eq(w, "true") || str_eq(w,
        "false")
}

type Parsed<T> = Result<(T, usize), ParseFailure>;

impl<'a> Parser<'a> {
    /// Every token lies inside the source.
    spec fn wf(&self) -> bool {
        &&& self.src@.len() < usize::MAX
        &&& self.src@ == self.input@
        &&& self.toks@.len() <= self.src@.len()
        &&& forall|k: int| 0 <= k < self.toks@.len() ==> (#[trigger] self.toks@[k]).start < self.toks@[k].end
            <= self.src@.len()
        &&& byte_len(self.src@) < usize::MAX
        &&& self.bytes@.len() == self.src@.len() + 1
        &&& forall|i: int| 0 <= i <= self.src@.len() ==> #[trigger] self.bytes@[i] as int == byte_offset(self.src@, i)
    }

    /// The byte offset of character `i`.
    fn byte_at(&self, i: usize) -> (b: usize)
        requires
            self.wf(),
            i <= self.src@.len(),
        ensures
            b as int == byte_offset(self.src@, i as int),
    {
        self.bytes[i]
    }

    /// A parse from `k` that succeeded moved forward within the tokens, or
    /// failed at a place in the source.
    spec fn advanced<T>(&self, k: usize, r: Parsed<T>, strict: bool) -> bool {
        match r {
            Ok((_, k2)) => (if strict { k < k2 } else { k <= k2 }) && k2 <= self.toks@.len(),
            Err(f) => failure_located(f, byte_len(self.src@)),
        }
    }

    /// `e` is a place after `k` where the tokens end, or a full closer
    /// stands.
    spec fn ends_closed(&self, e: int, k: int) -> bool {
        k < e && full_closer(self.src@, self.toks@, e)
    }

    /// A primary operand starts at `k`.
    spec fn primary_at(&self, k: int) -> bool {
        k < primary_end(self.src@, self.toks@, k)
    }

    /// A primary operand starts at `k`, and the accesses after it are
    /// whole.
    spec fn postfix_at(&self, k: int) -> bool {
        let m = primary_end(self.src@, self.toks@, k);
        k < m && m <= suffix_end(self.src@, self.toks@, m)
    }

    /// Token `k` as the grammar sees it.
    spec fn tok(&self, k: int) -> Tok {
        tok_of(self.src@, self.toks@[k])
    }

    /// The tokens from `a` to `b` (exclusive) as the grammar sees them.
    spec fn view(&self, a: int, b: int) -> Seq<Tok> {
        toks_of(self.src@, self.toks@.subrange(a, b))
    }

    proof fn lemma_split(&self, a: int, b: int, c: int)
        requires
            0 <= a <= b <= c <= self.toks@.len(),
        ensures
            self.view(a, c) == self.view(a, b) + self.view(b, c),
    {
        assert(self.view(a, c) =~= self.view(a, b) + self.view(b, c));
    }

    proof fn lemma_one(&self, a: int)
        requires
            0 <= a < self.toks@.len(),
        ensures
            self.view(a, a + 1) == seq![self.tok(a)],
    {
        assert(self.view(a, a + 1) =~= seq![self.tok(a)]);
    }

    proof fn lemma_cons(&self, a: int, b: int)
        requires
            0 <= a < b <= self.toks@.len(),
        ensures
            self.view(a, b) == seq![self.tok(a)] + self.view(a + 1, b),
    {
        assert(self.view(a, b) =~= seq![self.tok(a)] + self.view(a + 1, b));
    }

    proof fn lemma_snoc(&self, a: int, b: int)
        requires
            0 <= a <= b < self.toks@.len(),
        ensures
            self.view(a, b + 1) == self.view(a, b) + seq![self.tok(b)],
    {
        assert(self.view(a, b + 1) =~= self.view(a, b) + seq![self.tok(b)]);
    }

    proof fn lemma_empty(&self, a: int)
        requires
            0 <= a <= self.toks@.len(),
        ensures
            self.view(a, a) == Seq::<Tok>::empty(),
    {
        assert(self.view(a, a) =~= Seq::<Tok>::empty());
    }

    proof fn lemma_view_at(&self, a: int, b: int)
        requires
            0 <= a <= b <= self.toks@.len(),
        ensures
            self.view(a, b).len() == b - a,
            forall|i: int| 0 <= i < b - a ==> #[trigger] self.view(a, b)[i] == self.tok(a + i),
    {
    }

    /// A name with its optional annotation, `ID [ ":" ID ]`, from `a` to `b`.
    proof fn lemma_annotated(&self, a: int, b: int, name: Seq<char>, ta: Option<String>)
        requires
            0 <= a < b <= self.toks@.len(),
            self.tok(a) == Tok::Word(name),
            ta matches Some(t) ==> b == a + 3 && self.tok(a + 1) == Tok::Sym(":"@) && self.tok(a + 2) == Tok::Word(t@),
            ta is None ==> b == a + 1,
        ensures
            self.view(a, b) == word(name) + annotation(ta),
    {
        self.lemma_view_at(a, b);
        assert(self.view(a, b) =~= word(name) + annotation(ta));
    }

    fn text(&self, k: usize) -> (r: String)
        requires
            self.wf(),
            k < self.toks@.len(),
        ensures
            r@ == self.src@.subrange(self.toks@[k as int].start as int, self.toks@[k as int].end as int),
    {
        let t = self.toks[k];
        self.input.substring_char(t.start, t.end).to_owned()
    }

    /// Whether token `k` is the symbol `sym`.
    fn is_sym(&self, k: usize, sym: &str) -> (r: bool)
        requires
            self.wf(),
        ensures
            r == (k < self.toks@.len() && self.tok(k as int) == Tok::Sym(sym@)),
    {
        if k >= self.toks.len() || self.toks[k].kind != TokenKind::Symbol {
            return false;
        }
        let t = self.text(k);
        str_eq(t.as_str(), sym)
    }

    /// Whether token `k` is the word `w` (a keyword).
    fn is_word(&self, k: usize, w: &str) -> (r: bool)
        requires
            self.wf(),
        ensures
            r == (k < self.toks@.len() && self.tok(k as int) == Tok::Word(w@)),
    {
        if k >= self.toks.len() || self.toks[k].kind != TokenKind::Ident {
            return false;
        }
        let t = self.text(k);
        str_eq(t.as_str(), w)
    }

    /// Whether token `k` is a name (an identifier that is no keyword).
    fn is_name(&self, k: usize) -> (r: bool)
        requires
            self.wf(),
        ensures
            r == (k < self.toks@.len() && self.toks@[k as int].kind == TokenKind::Ident && !is_keyword(
                self.src@.subrange(self.toks@[k as int].start as int, self.toks@[k as int].end as int),
            )),
    {
        if k >= self.toks.len() || self.toks[k].kind != TokenKind::Ident {
            return false;
        }
        let t = self.text(k);
        !keyword(t.as_str())
    }

    fn position(&self, k: usize) -> (p: Position)
        requires
            self.wf(),
            k < self.toks@.len(),
        ensures
            p.start as int == byte_offset(self.src@, self.toks@[k as int].start as int),
            p.end as int == byte_offset(self.src@, self.toks@[k as int].end as int),
    {
        Position::new(self.byte_at(self.toks[k].start), self.byte_at(self.toks[k].end))
    }

    /// The failure at token `k` when one of `expected` was due.
    fn fail<T>(&self, k: usize, expected: Vec<&str>) -> (r: Parsed<T>)
        requires
            self.wf(),
        ensures
            r is Err,
            self.advanced(k, r, true),
    {
        let mut names: Vec<String> = Vec::new();
        let mut i: usize = 0;
        while i < expected.len()
            decreases expected.len() - i,
        {
            let mut q = String::from_str("\"");
            q.append(expected[i]);
            q.append("\"");
            names.push(q);
            i = i + 1;
        }
        if k < self.toks.len() {
            let t = self.toks[k];
            proof {
                lemma_byte_offset_mono(self.src@, t.start as int, t.end as int);
                lemma_byte_offset_mono(self.src@, t.end as int, self.src@.len() as int);
            }
            Err(
                ParseFailure::UnrecognizedToken {
                    start: self.byte_at(t.start),
                    token: self.text(k),
                    end: self.byte_at(t.end),
                    expected: names,
                },
            )
        } else {
            proof {
                lemma_byte_offset_mono(self.src@, 0, self.src@.len() as int);
            }
            Err(ParseFailure::UnrecognizedEof { location: self.byte_at(self.src.len()), expected: names })
        }
    }

    /// Consumes the symbol `sym` at `k`.
    fn expect(&self, k: usize, sym: &str) -> (r: Result<usize, ParseFailure>)
        requires
            self.wf(),
            k <= self.toks@.len(),
        ensures
            match r {
                Ok(k2) => k2 == k + 1 && k2 <= self.toks@.len() && self.tok(k as int) == Tok::Sym(sym@),
                Err(f) => failure_located(f, byte_len(self.src@)),
            },
            (k < self.toks@.len() && self.tok(k as int) == Tok::Sym(sym@)) ==> r is Ok,
    {
        let found = self.is_sym(k, sym);
        if found {
            assert(k < self.toks@.len());
            Ok(k + 1)
        } else {
            match self.fail::<()>(k, vec![sym]) {
                Err(f) => Err(f),
                Ok(_) => Err(ParseFailure::User { error: String::new() }),
            }
        }
    }

    /// Consumes a name at `k`.
    fn expect_name(&self, k: usize) -> (r: Result<(String, Position), ParseFailure>)
        requires
            self.wf(),
            k <= self.toks@.len(),
        ensures
            match r {
                Ok((n, p)) => k < self.toks@.len() && p.start as int == byte_offset(self.src@, self.toks@[k as int].start as int)
                    && p.end as int == byte_offset(self.src@, self.toks@[k as int].end as int) && self.tok(k as int)
                    == Tok::Word(n@) && !is_keyword(n@),
                Err(f) => failure_located(f, byte_len(self.src@)),
            },
            name_tok(self.src@, self.toks@, k as int) ==> r is Ok,
    {
        if self.is_name(k) {
            Ok((self.text(k), self.position(k)))
        } else {
            match self.fail::<()>(k, vec!["ID"]) {
                Err(f) => Err(f),
                Ok(_) => Err(ParseFailure::User { error: String::new() }),
            }
        }
    }
}

/// The span from the start of `a` to the end of `b`.
fn join(a: Position, b: Position) -> (p: Position)
    ensures
        p.start == a.start,
        p.end == b.end,
{
    Position::new(a.start, b.end)
}

/// Every character of `s` is a decimal digit.
pub open spec fn all_digits(s: Seq<char>) -> bool {
    forall|j: int| 0 <= j < s.len() ==> '0' <= #[trigger] s[j] <= '9'
}

/// Among digit strings, a prefix has no greater value than the whole.
proof fn lemma_digits_prefix(s: Seq<char>, i: int)
    requires
        all_digits(s),
        0 <= i <= s.len(),
    ensures
        0 <= digits_value(s.subrange(0, i)) <= digits_value(s),
    decreases s.len(),
{
    if i == s.len() {
        assert(s.subrange(0, i) =~= s);
        lemma_digits_nonneg(s);
    } else {
        let t = s.drop_last();
        assert(all_digits(t)) by {
            assert forall|j: int| 0 <= j < t.len() implies '0' <= #[trigger] t[j] <= '9' by {
                assert(t[j] == s[j]);
            }
        }
        lemma_digits_prefix(t, i);
        assert(t.subrange(0, i) =~= s.subrange(0, i));
        assert('0' <= s[s.len() - 1] <= '9');
        lemma_digits_nonneg(t);
    }
}

proof fn lemma_digits_nonneg(s: Seq<char>)
    requires
        all_digits(s),
    ensures
        digits_value(s) >= 0,
    decreases s.len(),
{
    if s.len() > 0 {
        let t = s.drop_last();
        assert(all_digits(t)) by {
            assert forall|j: int| 0 <= j < t.len() implies '0' <= #[trigger] t[j] <= '9' by {
                assert(t[j] == s[j]);
            }
        }
        lemma_digits_nonneg(t);
        assert('0' <= s[s.len() - 1] <= '9');
    }
}

/// The binary operator of precedence `level` written `s`, at position `p`
/// (19 `|`, 18 `&`, 17 `==` `!=`, 16 `<` `<=` `>` `>=`, 15 `@` `@@`, 14 `+`
/// `-`, 13 `*` `/` `%`).
pub open spec fn binop_of_text(s: Seq<char>, level: u8, p: Position) -> Option<BinOp> {
    if level == 19 && s == "|"@ {
        Some(BinOp::Or(p))
    } else if level == 18 && s == "&"@ {
        Some(BinOp::And(p))
    } else if level == 17 && s == "=="@ {
        Some(BinOp::EqualEqual(p))
    } else if level == 17 && s == "!="@ {
        Some(BinOp::NotEqual(p))
    } else if level == 16 && s == "<"@ {
        Some(BinOp::Less(p))
    } else if level == 16 && s == "<="@ {
        Some(BinOp::LessEqual(p))
    } else if level == 16 && s == ">"@ {
        Some(BinOp::Greater(p))
    } else if level == 16 && s == ">="@ {
        Some(BinOp::GreaterEqual(p))
    } else if level == 15 && s == "@"@ {
        Some(BinOp::Concat(p))
    } else if level == 15 && s == "@@"@ {
        Some(BinOp::ConcatSpaced(p))
    } else if level == 14 && s == "+"@ {
        Some(BinOp::Plus(p))
    } else if level == 14 && s == "-"@ {
        Some(BinOp::Minus(p))
    } else if level == 13 && s == "*"@ {
        Some(BinOp::Mul(p))
    } else if level == 13 && s == "/"@ {
        Some(BinOp::Div(p))
    } else if level == 13 && s == "%"@ {
        Some(BinOp::Mod(p))
    } else {
        None
    }
}

/// The text of token `k`.
pub open spec fn tok_text(src: Seq<char>, toks: Seq<Token>, k: int) -> Seq<char> {
    src.subrange(toks[k].start as int, toks[k].end as int)
}

/// The precedence level of a binary operator written `s`: 19 `|`, 18
/// `&`, 17 `==` `!=`, 16 `<` `<=` `>` `>=`, 15 `@` `@@`, 14 `+` `-`, 13
/// `*` `/` `%`, 12 `^`; 0 for any other text.
pub open spec fn op_level(s: Seq<char>) -> int {
    if s == "|"@ {
        19
    } else if s == "&"@ {
        18
    } else if s == "=="@ || s == "!="@ {
        17
    } else if s == "<"@ || s == "<="@ || s == ">"@ || s == ">="@ {
        16
    } else if s == "@"@ || s == "@@"@ {
        15
    } else if s == "+"@ || s == "-"@ {
        14
    } else if s == "*"@ || s == "/"@ || s == "%"@ {
        13
    } else if s == "^"@ {
        12
    } else {
        0
    }
}

/// The precedence level of token `k` if it is a binary operator, else 0.
pub open spec fn tok_op_level(src: Seq<char>, toks: Seq<Token>, k: int) -> int {
    if 0 <= k < toks.len() && toks[k].kind == TokenKind::Symbol {
        op_level(tok_text(src, toks, k))
    } else {
        0
    }
}

/// Token `k` is a sign written before an operand: `-` or `!`.
pub open spec fn sign_tok(src: Seq<char>, toks: Seq<Token>, k: int) -> bool {
    &&& 0 <= k < toks.len()
    &&& toks[k].kind == TokenKind::Symbol
    &&& (tok_text(src, toks, k) == "-"@ || tok_text(src, toks, k) == "!"@)
}

/// Token `k` is the word `w`.
pub open spec fn word_tok(src: Seq<char>, toks: Seq<Token>, k: int, w: Seq<char>) -> bool {
    0 <= k < toks.len() && toks[k].kind == TokenKind::Ident && tok_text(src, toks, k) == w
}

/// Token `k` is the symbol `s`.
pub open spec fn sym_tok(src: Seq<char>, toks: Seq<Token>, k: int, s: Seq<char>) -> bool {
    0 <= k < toks.len() && toks[k].kind == TokenKind::Symbol && tok_text(src, toks, k) == s
}

/// Token `k` is a simple operand: a whole number that fits in an `i32`, a
/// string literal, or a name.
pub open spec fn atom_tok(src: Seq<char>, toks: Seq<Token>, k: int) -> bool {
    0 <= k < toks.len() && match toks[k].kind {
        TokenKind::Number => all_digits(tok_text(src, toks, k)) && digits_value(tok_text(src, toks, k))
            <= i32::MAX,
        TokenKind::Str => toks[k].end - toks[k].start >= 2,
        TokenKind::Ident => !is_keyword(tok_text(src, toks, k)),
        TokenKind::Symbol => false,
    }
}

/// Where the primary operand that starts at token `k` ends: a simple
/// operand, a call of a named function, an expression in parentheses, the
/// creation `new T(...)` of an object, or the creation `new [T] [size]
/// [{ ID -> init }]` of an array; -1 if none starts there.
pub open spec fn primary_end(src: Seq<char>, toks: Seq<Token>, k: int) -> int
    decreases toks.len() - k, 0int,
{
    if k < 0 || k >= toks.len() {
        -1
    } else if atom_tok(src, toks, k) {
        if toks[k].kind == TokenKind::Ident && sym_tok(src, toks, k + 1, "("@) {
            let q = args_end(src, toks, k + 2);
            if k + 2 <= q < toks.len() && sym_tok(src, toks, q, ")"@) {
                q + 1
            } else {
                -1
            }
        } else {
            k + 1
        }
    } else if sym_tok(src, toks, k, "("@) {
        let q = full_end(src, toks, k + 1);
        if k + 1 < q < toks.len() && sym_tok(src, toks, q, ")"@) {
            q + 1
        } else {
            -1
        }
    } else if word_tok(src, toks, k, "new"@) && name_tok(src, toks, k + 1) && sym_tok(src, toks, k + 2, "("@) {
        let q = args_end(src, toks, k + 3);
        if k + 3 <= q < toks.len() && sym_tok(src, toks, q, ")"@) {
            q + 1
        } else {
            -1
        }
    } else if word_tok(src, toks, k, "new"@) {
        let s0 = if name_tok(src, toks, k + 1) {
            k + 2
        } else {
            k + 1
        };
        if sym_tok(src, toks, s0, "["@) {
            let sz = full_end(src, toks, s0 + 1);
            if s0 + 1 < sz < toks.len() && sym_tok(src, toks, sz, "]"@) {
                let a = sz + 1;
                if sym_tok(src, toks, a, "{"@) && name_tok(src, toks, a + 1) && sym_tok(src, toks, a + 2, "->"@) {
                    let v = full_end(src, toks, a + 3);
                    if a + 3 < v < toks.len() && sym_tok(src, toks, v, "}"@) {
                        v + 1
                    } else {
                        -1
                    }
                } else {
                    a
                }
            } else {
                -1
            }
        } else {
            -1
        }
    } else {
        -1
    }
}

/// Token `k` is a name: an identifier that is no keyword.
pub open spec fn name_tok(src: Seq<char>, toks: Seq<Token>, k: int) -> bool {
    0 <= k < toks.len() && toks[k].kind == TokenKind::Ident && !is_keyword(tok_text(src, toks, k))
}

/// Where the accesses that follow an operand from token `p` on end: any
/// number of `. name`, `. name ( arguments )` and `[ operator expression ]`;
/// -1 if one of them is cut short.
pub open spec fn suffix_end(src: Seq<char>, toks: Seq<Token>, p: int) -> int
    decreases toks.len() - p, 5int,
{
    if p < 0 || p >= toks.len() {
        p
    } else if sym_tok(src, toks, p, "."@) {
        if name_tok(src, toks, p + 1) {
            if sym_tok(src, toks, p + 2, "("@) {
                let q = args_end(src, toks, p + 3);
                if p + 3 <= q < toks.len() && sym_tok(src, toks, q, ")"@) {
                    suffix_end(src, toks, q + 1)
                } else {
                    -1
                }
            } else {
                suffix_end(src, toks, p + 2)
            }
        } else {
            -1
        }
    } else if sym_tok(src, toks, p, "["@) {
        let q = full_end(src, toks, p + 1);
        if p + 1 < q < toks.len() && sym_tok(src, toks, q, "]"@) {
            suffix_end(src, toks, q + 1)
        } else {
            -1
        }
    } else {
        p
    }
}

/// Where the operand that starts at token `k` ends: signs, then a primary
/// operand and the accesses that follow it; -1 if none starts there.
pub open spec fn operand_end(src: Seq<char>, toks: Seq<Token>, k: int) -> int
    decreases toks.len() - k, 6int,
{
    if k < 0 || k >= toks.len() {
        -1
    } else if sign_tok(src, toks, k) {
        operand_end(src, toks, k + 1)
    } else {
        let m = primary_end(src, toks, k);
        if k < m <= toks.len() {
            suffix_end(src, toks, m)
        } else {
            -1
        }
    }
}

/// Token `p` begins a type test `is ID` or `as ID`.
pub open spec fn typetest(src: Seq<char>, toks: Seq<Token>, p: int) -> bool {
    0 <= p && (word_tok(src, toks, p, "is"@) || word_tok(src, toks, p, "as"@)) && name_tok(src, toks, p + 1)
}

/// Where the operator expression that starts at token `k` ends: operands
/// joined by binary operators and followed by type tests, as long as they
/// go; -1 if an operand is missing.
pub open spec fn expr_end(src: Seq<char>, toks: Seq<Token>, k: int) -> int
    decreases toks.len() - k, 7int,
{
    let m = operand_end(src, toks, k);
    if k < m <= toks.len() {
        tail_end(src, toks, m, false)
    } else {
        -1
    }
}

/// Where an operator expression goes on from `p`, after an operand: a
/// binary operator and an operator expression, or a type test and more;
/// right after a type test (`tested`) only operators of level 16 or looser
/// may follow.
pub open spec fn tail_end(src: Seq<char>, toks: Seq<Token>, p: int, tested: bool) -> int
    decreases toks.len() - p, 7int,
{
    if 0 <= p < toks.len() && tok_op_level(src, toks, p) > 0 && (!tested || tok_op_level(src, toks, p) >= 16) {
        expr_end(src, toks, p + 1)
    } else if typetest(src, toks, p) {
        tail_end(src, toks, p + 2, true)
    } else {
        p
    }
}

/// Where the assignments that start at `k` end: operator expressions
/// joined by `:=`, `e (:= e)*`; -1 if one is missing.
pub open spec fn assign_end(src: Seq<char>, toks: Seq<Token>, k: int) -> int
    decreases toks.len() - k, 8int,
{
    let e = expr_end(src, toks, k);
    if k < e < toks.len() && sym_tok(src, toks, e, ":="@) {
        assign_end(src, toks, e + 1)
    } else {
        e
    }
}

/// Where the expressions separated by commas that start at `k` end; -1 if
/// one is missing.
pub open spec fn list_end(src: Seq<char>, toks: Seq<Token>, k: int) -> int
    decreases toks.len() - k, 23int,
{
    let e = full_end(src, toks, k);
    if k < e < toks.len() && sym_tok(src, toks, e, ","@) {
        let n = list_end(src, toks, e + 1);
        if e + 1 < n <= toks.len() {
            n
        } else {
            -1
        }
    } else if k < e <= toks.len() {
        e
    } else {
        -1
    }
}

/// Where the expression that starts at `k` ends: a `let`, `if`, `while`,
/// `for` or `case` expression, or else assignments.
pub open spec fn full_end(src: Seq<char>, toks: Seq<Token>, k: int) -> int
    decreases toks.len() - k, 20int,
{
    if word_tok(src, toks, k, "let"@) {
        let_end(src, toks, k)
    } else if word_tok(src, toks, k, "if"@) {
        if_end(src, toks, k)
    } else if word_tok(src, toks, k, "while"@) {
        while_end(src, toks, k)
    } else if word_tok(src, toks, k, "for"@) {
        for_end(src, toks, k)
    } else if word_tok(src, toks, k, "case"@) {
        case_end(src, toks, k)
    } else {
        assign_end(src, toks, k)
    }
}

/// Where the value of the declaration `ID [: ID] =` that starts at `p`
/// begins; -1 if its head is not there.
pub open spec fn decl_value_start(src: Seq<char>, toks: Seq<Token>, p: int) -> int {
    if name_tok(src, toks, p) {
        if sym_tok(src, toks, p + 1, ":"@) {
            if name_tok(src, toks, p + 2) && sym_tok(src, toks, p + 3, "="@) {
                p + 4
            } else {
                -1
            }
        } else if sym_tok(src, toks, p + 1, "="@) {
            p + 2
        } else {
            -1
        }
    } else {
        -1
    }
}

/// Where the declarations of a `let`, separated by commas, that start at
/// `p` end; -1 if one is cut short.
pub open spec fn decls_end(src: Seq<char>, toks: Seq<Token>, p: int) -> int
    decreases toks.len() - p, 15int,
{
    let q1 = decl_value_start(src, toks, p);
    if p < q1 <= toks.len() {
        let v = full_end(src, toks, q1);
        if q1 < v < toks.len() && sym_tok(src, toks, v, ","@) {
            let n = decls_end(src, toks, v + 1);
            if v + 1 < n <= toks.len() {
                n
            } else {
                -1
            }
        } else if q1 < v <= toks.len() {
            v
        } else {
            -1
        }
    } else {
        -1
    }
}

/// Where `let decls in body`, starting at `k`, ends.
pub open spec fn let_end(src: Seq<char>, toks: Seq<Token>, k: int) -> int
    decreases toks.len() - k, 9int,
{
    if 0 <= k < toks.len() {
        let d = decls_end(src, toks, k + 1);
        if k + 1 < d < toks.len() && word_tok(src, toks, d, "in"@) {
            let b = body_end(src, toks, d + 1);
            if d + 1 < b <= toks.len() {
                b
            } else {
                -1
            }
        } else {
            -1
        }
    } else {
        -1
    }
}

/// Where the body that starts at `p` ends: a block in braces, or an
/// expression.
pub open spec fn body_end(src: Seq<char>, toks: Seq<Token>, p: int) -> int
    decreases toks.len() - p, 21int,
{
    if sym_tok(src, toks, p, "{"@) {
        let b = block_end(src, toks, p + 1);
        if p + 1 < b <= toks.len() {
            b
        } else {
            -1
        }
    } else if 0 <= p <= toks.len() {
        full_end(src, toks, p)
    } else {
        -1
    }
}

/// Where the statements of a block, each an expression followed by `;`,
/// that start at `p` end with the closing brace; -1 if one is cut short.
pub open spec fn block_end(src: Seq<char>, toks: Seq<Token>, p: int) -> int
    decreases toks.len() - p, 22int,
{
    if 0 <= p <= toks.len() {
        let e = full_end(src, toks, p);
        if p < e < toks.len() && sym_tok(src, toks, e, ";"@) {
            if sym_tok(src, toks, e + 1, "}"@) {
                e + 2
            } else {
                let b = block_end(src, toks, e + 1);
                if e + 1 < b <= toks.len() {
                    b
                } else {
                    -1
                }
            }
        } else {
            -1
        }
    } else {
        -1
    }
}

/// Where the condition `( expr )` that starts at `p` ends.
pub open spec fn cond_end(src: Seq<char>, toks: Seq<Token>, p: int) -> int
    decreases toks.len() - p, 14int,
{
    if sym_tok(src, toks, p, "("@) {
        let c = full_end(src, toks, p + 1);
        if p + 1 < c < toks.len() && sym_tok(src, toks, c, ")"@) {
            c + 1
        } else {
            -1
        }
    } else {
        -1
    }
}

/// Where `if cond body` and what follows it start at `k` end.
pub open spec fn if_end(src: Seq<char>, toks: Seq<Token>, k: int) -> int
    decreases toks.len() - k, 10int,
{
    if 0 <= k < toks.len() {
        let c = cond_end(src, toks, k + 1);
        if k + 1 < c <= toks.len() {
            let t = body_end(src, toks, c);
            if c < t <= toks.len() {
                elifs_end(src, toks, t)
            } else {
                -1
            }
        } else {
            -1
        }
    } else {
        -1
    }
}

/// Where the `elif cond body` branches and the optional `else body` that
/// start at `t` end.
pub open spec fn elifs_end(src: Seq<char>, toks: Seq<Token>, t: int) -> int
    decreases toks.len() - t, 16int,
{
    if word_tok(src, toks, t, "elif"@) {
        let c = cond_end(src, toks, t + 1);
        if t + 1 < c <= toks.len() {
            let b = body_end(src, toks, c);
            if c < b <= toks.len() {
                elifs_end(src, toks, b)
            } else {
                -1
            }
        } else {
            -1
        }
    } else if word_tok(src, toks, t, "else"@) {
        let b = body_end(src, toks, t + 1);
        if t + 1 < b <= toks.len() {
            b
        } else {
            -1
        }
    } else {
        t
    }
}

/// Where `while cond body [else body]` that starts at `k` ends.
pub open spec fn while_end(src: Seq<char>, toks: Seq<Token>, k: int) -> int
    decreases toks.len() - k, 11int,
{
    if 0 <= k < toks.len() {
        let c = cond_end(src, toks, k + 1);
        if k + 1 < c <= toks.len() {
            let b = body_end(src, toks, c);
            if c < b < toks.len() && word_tok(src, toks, b, "else"@) {
                let e = body_end(src, toks, b + 1);
                if b + 1 < e <= toks.len() {
                    e
                } else {
                    -1
                }
            } else if c < b <= toks.len() {
                b
            } else {
                -1
            }
        } else {
            -1
        }
    } else {
        -1
    }
}

/// Where `for ( ID in expr ) body` that starts at `k` ends.
pub open spec fn for_end(src: Seq<char>, toks: Seq<Token>, k: int) -> int
    decreases toks.len() - k, 12int,
{
    if 0 <= k && sym_tok(src, toks, k + 1, "("@) && name_tok(src, toks, k + 2) && word_tok(src, toks, k + 3, "in"@) {
        let x = full_end(src, toks, k + 4);
        if k + 4 < x < toks.len() && sym_tok(src, toks, x, ")"@) {
            let b = body_end(src, toks, x + 1);
            if x + 1 < b <= toks.len() {
                b
            } else {
                -1
            }
        } else {
            -1
        }
    } else {
        -1
    }
}

/// Where the branch `ID : ID -> body` that starts at `p` ends.
pub open spec fn branch_end(src: Seq<char>, toks: Seq<Token>, p: int) -> int
    decreases toks.len() - p, 17int,
{
    if name_tok(src, toks, p) && sym_tok(src, toks, p + 1, ":"@) && name_tok(src, toks, p + 2) && sym_tok(
        src,
        toks,
        p + 3,
        "->"@,
    ) {
        let b = body_end(src, toks, p + 4);
        if p + 4 < b <= toks.len() {
            b
        } else {
            -1
        }
    } else {
        -1
    }
}

/// Where the branches of a `case` in braces, each followed by `;`, that
/// start at `p` end with the closing brace.
pub open spec fn branches_end(src: Seq<char>, toks: Seq<Token>, p: int) -> int
    decreases toks.len() - p, 18int,
{
    if sym_tok(src, toks, p, "}"@) {
        p + 1
    } else {
        let b = branch_end(src, toks, p);
        if p < b < toks.len() && sym_tok(src, toks, b, ";"@) {
            let r = branches_end(src, toks, b + 1);
            if b + 1 < r <= toks.len() {
                r
            } else {
                -1
            }
        } else {
            -1
        }
    }
}

/// Where `case expr of branches` that starts at `k` ends.
pub open spec fn case_end(src: Seq<char>, toks: Seq<Token>, k: int) -> int
    decreases toks.len() - k, 13int,
{
    if 0 <= k < toks.len() {
        let x = full_end(src, toks, k + 1);
        if k + 1 < x < toks.len() && word_tok(src, toks, x, "of"@) {
            if sym_tok(src, toks, x + 1, "{"@) {
                let r = branches_end(src, toks, x + 2);
                if x + 2 < r <= toks.len() {
                    r
                } else {
                    -1
                }
            } else {
                let r = branch_end(src, toks, x + 1);
                if x + 1 < r <= toks.len() {
                    r
                } else {
                    -1
                }
            }
        } else {
            -1
        }
    } else {
        -1
    }
}

/// Where the arguments of a call that start at `k` end: at once before a
/// closing parenthesis, else where the list of them ends.
pub open spec fn args_end(src: Seq<char>, toks: Seq<Token>, k: int) -> int
    decreases toks.len() - k, 24int,
{
    if k >= toks.len() || sym_tok(src, toks, k, ")"@) {
        k
    } else {
        list_end(src, toks, k)
    }
}

/// The tokens end at `p`, or a closing parenthesis, a comma, a semicolon,
/// a closing bracket, a closing brace or one of the words `in`, `elif`,
/// `else` and `of` stands there.
pub open spec fn full_closer(src: Seq<char>, toks: Seq<Token>, p: int) -> bool {
    p == toks.len() || sym_tok(src, toks, p, ")"@) || sym_tok(src, toks, p, ","@) || sym_tok(src, toks, p, ";"@)
        || sym_tok(src, toks, p, "]"@) || word_tok(src, toks, p, "in"@) || word_tok(src, toks, p, "elif"@)
        || word_tok(src, toks, p, "else"@) || word_tok(src, toks, p, "of"@) || sym_tok(src, toks, p, "}"@)
}

/// An operator expression may end at `p`: a full closer or `:=` stands
/// there.
pub open spec fn closer(src: Seq<char>, toks: Seq<Token>, p: int) -> bool {
    full_closer(src, toks, p) || sym_tok(src, toks, p, ":="@)
}

/// An operator expression starts at `k` and is followed by a closer.
pub open spec fn closed_expr(src: Seq<char>, toks: Seq<Token>, k: int) -> bool {
    k < expr_end(src, toks, k) && closer(src, toks, expr_end(src, toks, k))
}

/// An expression starts at `k` and is followed by a full closer.
pub open spec fn closed_full(src: Seq<char>, toks: Seq<Token>, k: int) -> bool {
    k < full_end(src, toks, k) && full_closer(src, toks, full_end(src, toks, k))
}

/// Assignments start at `k` and are followed by a full closer.
pub open spec fn closed_assign(src: Seq<char>, toks: Seq<Token>, k: int) -> bool {
    k < assign_end(src, toks, k) && full_closer(src, toks, assign_end(src, toks, k))
}

/// The tokens, all of them, are one expression in the forms that the
/// functions above describe: a `let`, `if`, `while`, `for` or `case`
/// expression, or assignments of operator expressions, whose operands are
/// literals, names, calls, groups, object and array creations, with
/// accesses, signs and type tests.
pub open spec fn expression_tokens(src: Seq<char>, toks: Seq<Token>) -> bool {
    full_end(src, toks, 0) == toks.len()
}


/// Where the parameter `ID [: ID]` that starts at `p` ends.
pub open spec fn param_end(src: Seq<char>, toks: Seq<Token>, p: int) -> int {
    if name_tok(src, toks, p) {
        if sym_tok(src, toks, p + 1, ":"@) {
            if name_tok(src, toks, p + 2) {
                p + 3
            } else {
                -1
            }
        } else {
            p + 1
        }
    } else {
        -1
    }
}

/// Where the parameters separated by commas that start at `p` end.
pub open spec fn param_list_end(src: Seq<char>, toks: Seq<Token>, p: int) -> int
    decreases toks.len() - p,
{
    let q = param_end(src, toks, p);
    if p < q < toks.len() && sym_tok(src, toks, q, ","@) {
        let n = param_list_end(src, toks, q + 1);
        if q + 1 < n <= toks.len() {
            n
        } else {
            -1
        }
    } else if p < q <= toks.len() {
        q
    } else {
        -1
    }
}

/// Where the parameters that start at `p` end: none unless a name stands
/// there.
pub open spec fn params_end(src: Seq<char>, toks: Seq<Token>, p: int) -> int {
    if name_tok(src, toks, p) {
        param_list_end(src, toks, p)
    } else {
        p
    }
}

/// Where the optional return type `: ID` that starts at `p` ends.
pub open spec fn ret_end(src: Seq<char>, toks: Seq<Token>, p: int) -> int {
    if sym_tok(src, toks, p, ":"@) {
        if name_tok(src, toks, p + 1) {
            p + 2
        } else {
            -1
        }
    } else {
        p
    }
}

/// Where the body `-> expr ;` or `{ block }` of a function that starts at
/// `p` ends.
pub open spec fn fn_body_end(src: Seq<char>, toks: Seq<Token>, p: int) -> int {
    if sym_tok(src, toks, p, "->"@) {
        let e = full_end(src, toks, p + 1);
        if p + 1 < e < toks.len() && sym_tok(src, toks, e, ";"@) {
            e + 1
        } else {
            -1
        }
    } else if sym_tok(src, toks, p, "{"@) {
        let b = block_end(src, toks, p + 1);
        if p + 1 < b <= toks.len() {
            b
        } else {
            -1
        }
    } else {
        -1
    }
}

/// Where the signature and body `ID ( params ) [: ID] body` that start at
/// `p` end.
pub open spec fn sig_end(src: Seq<char>, toks: Seq<Token>, p: int) -> int {
    if name_tok(src, toks, p) && sym_tok(src, toks, p + 1, "("@) {
        let pe = params_end(src, toks, p + 2);
        if p + 2 <= pe < toks.len() && sym_tok(src, toks, pe, ")"@) {
            let r = ret_end(src, toks, pe + 1);
            if pe + 1 <= r <= toks.len() {
                let b = fn_body_end(src, toks, r);
                if r < b <= toks.len() {
                    b
                } else {
                    -1
                }
            } else {
                -1
            }
        } else {
            -1
        }
    } else {
        -1
    }
}

/// Where the function declaration that starts at `p` ends.
pub open spec fn function_end(src: Seq<char>, toks: Seq<Token>, p: int) -> int {
    if word_tok(src, toks, p, "function"@) {
        let e = sig_end(src, toks, p + 1);
        if p + 1 < e <= toks.len() {
            e
        } else {
            -1
        }
    } else {
        -1
    }
}

/// Where the members of a class that start at `p` end with the closing
/// brace: attributes `ID [: ID] = expr ;`, then methods; `seen_method`
/// once a method was read.
pub open spec fn members_end(src: Seq<char>, toks: Seq<Token>, p: int, seen_method: bool) -> int
    decreases toks.len() - p,
{
    if sym_tok(src, toks, p, "}"@) {
        p + 1
    } else if name_tok(src, toks, p) && sym_tok(src, toks, p + 1, "("@) {
        let m = sig_end(src, toks, p);
        if p < m <= toks.len() {
            members_end(src, toks, m, true)
        } else {
            -1
        }
    } else if name_tok(src, toks, p) && !seen_method {
        let v = decl_value_start(src, toks, p);
        if p < v <= toks.len() {
            let e = full_end(src, toks, v);
            if v < e < toks.len() && sym_tok(src, toks, e, ";"@) {
                members_end(src, toks, e + 1, false)
            } else {
                -1
            }
        } else {
            -1
        }
    } else {
        -1
    }
}

/// Where the parent `is ID [( args )]` that may start at `p` ends.
pub open spec fn parent_end(src: Seq<char>, toks: Seq<Token>, p: int) -> int {
    if word_tok(src, toks, p, "is"@) {
        if name_tok(src, toks, p + 1) {
            if sym_tok(src, toks, p + 2, "("@) {
                let q = args_end(src, toks, p + 3);
                if p + 3 <= q < toks.len() && sym_tok(src, toks, q, ")"@) {
                    q + 1
                } else {
                    -1
                }
            } else {
                p + 2
            }
        } else {
            -1
        }
    } else {
        p
    }
}

/// Where the constructor parameters `( params )` that may start at `p`
/// end.
pub open spec fn class_params_end(src: Seq<char>, toks: Seq<Token>, p: int) -> int {
    if sym_tok(src, toks, p, "("@) {
        let q = params_end(src, toks, p + 1);
        if p + 1 <= q < toks.len() && sym_tok(src, toks, q, ")"@) {
            q + 1
        } else {
            -1
        }
    } else {
        p
    }
}

/// Where the class declaration that starts at `k` ends.
pub open spec fn class_end(src: Seq<char>, toks: Seq<Token>, k: int) -> int {
    if 0 <= k && word_tok(src, toks, k, "class"@) && name_tok(src, toks, k + 1) {
        let p1 = class_params_end(src, toks, k + 2);
        if k + 2 <= p1 <= toks.len() {
            let p2 = parent_end(src, toks, p1);
            if p1 <= p2 < toks.len() && sym_tok(src, toks, p2, "{"@) {
                let e = members_end(src, toks, p2 + 1, false);
                if p2 + 1 < e <= toks.len() {
                    e
                } else {
                    -1
                }
            } else {
                -1
            }
        } else {
            -1
        }
    } else {
        -1
    }
}

/// Where the class declarations that start at `p` end.
pub open spec fn classes_end(src: Seq<char>, toks: Seq<Token>, p: int) -> int
    decreases toks.len() - p,
{
    if word_tok(src, toks, p, "class"@) {
        let c = class_end(src, toks, p);
        if p < c <= toks.len() {
            classes_end(src, toks, c)
        } else {
            -1
        }
    } else {
        p
    }
}

/// Where the function declarations that start at `p` end.
pub open spec fn functions_end(src: Seq<char>, toks: Seq<Token>, p: int) -> int
    decreases toks.len() - p,
{
    if word_tok(src, toks, p, "function"@) {
        let f = function_end(src, toks, p);
        if p < f <= toks.len() {
            functions_end(src, toks, f)
        } else {
            -1
        }
    } else {
        p
    }
}

/// The entry that starts at `p` runs to the end of the tokens: nothing,
/// a block with an optional `;`, or an expression and `;`.
pub open spec fn entry_ok(src: Seq<char>, toks: Seq<Token>, p: int) -> bool {
    if p == toks.len() {
        true
    } else if sym_tok(src, toks, p, "{"@) {
        let b = block_end(src, toks, p + 1);
        p + 1 < b && (b == toks.len() || (b + 1 == toks.len() && sym_tok(src, toks, b, ";"@)))
    } else {
        let e = full_end(src, toks, p);
        0 <= p < e && e + 1 == toks.len() && sym_tok(src, toks, e, ";"@)
    }
}

/// The tokens are a program: class declarations, then function
/// declarations, then an optional entry, each in the forms that the
/// functions above describe.
pub open spec fn program_tokens(src: Seq<char>, toks: Seq<Token>) -> bool {
    let c = classes_end(src, toks, 0);
    let f = functions_end(src, toks, c);
    0 <= c <= f && entry_ok(src, toks, f)
}

/// Where an operator expression that starts at `k` stops when it takes
/// only operators of level `level` or tighter (type tests count as level
/// 16).
pub open spec fn chain_end(src: Seq<char>, toks: Seq<Token>, k: int, level: int) -> int
    decreases toks.len() - k, 1int,
{
    let m = operand_end(src, toks, k);
    if k < m <= toks.len() {
        chain_tail(src, toks, m, level, false)
    } else {
        -1
    }
}

/// Where an operator expression that goes on from `p` stops, taking only
/// operators of level `level` or tighter.
pub open spec fn chain_tail(src: Seq<char>, toks: Seq<Token>, p: int, level: int, tested: bool) -> int
    decreases toks.len() - p, 0int,
{
    if 0 <= p < toks.len() && 0 < tok_op_level(src, toks, p) <= level && (!tested || tok_op_level(src, toks, p)
        >= 16) {
        chain_end(src, toks, p + 1, level)
    } else if level >= 16 && typetest(src, toks, p) {
        chain_tail(src, toks, p + 2, level, true)
    } else {
        p
    }
}

/// The level of what may go on at `p`: that of a binary operator, 16 for
/// a type test, else 0.
pub open spec fn tlevel(src: Seq<char>, toks: Seq<Token>, p: int) -> int {
    if tok_op_level(src, toks, p) > 0 {
        tok_op_level(src, toks, p)
    } else if typetest(src, toks, p) {
        16
    } else {
        0
    }
}

/// An operator expression goes on from `p` and is followed by a closer.
pub open spec fn closed_tail(src: Seq<char>, toks: Seq<Token>, p: int, tested: bool) -> bool {
    0 <= p <= toks.len() && p <= tail_end(src, toks, p, tested) && closer(src, toks, tail_end(src, toks, p, tested))
}

/// An operand starts with a sign, a simple operand or an opening
/// parenthesis; one in parentheses ends after the closing one.
proof fn lemma_operand_start(src: Seq<char>, toks: Seq<Token>, k: int)
    requires
        0 <= k,
    ensures
        k < operand_end(src, toks, k) ==> sign_tok(src, toks, k) || atom_tok(src, toks, k) || sym_tok(
            src,
            toks,
            k,
            "("@,
        ) || word_tok(src, toks, k, "new"@),
        k < operand_end(src, toks, k) && !sign_tok(src, toks, k) ==> k < primary_end(src, toks, k) <= toks.len()
            && operand_end(src, toks, k) == suffix_end(src, toks, primary_end(src, toks, k)),
        k < primary_end(src, toks, k) && !atom_tok(src, toks, k) && sym_tok(src, toks, k, "("@) ==> k + 1
            < full_end(src, toks, k + 1) < toks.len() && sym_tok(src, toks, full_end(src, toks, k + 1), ")"@)
            && primary_end(src, toks, k) == full_end(src, toks, k + 1) + 1,
        k < primary_end(src, toks, k) && atom_tok(src, toks, k) && toks[k].kind == TokenKind::Ident && sym_tok(
            src,
            toks,
            k + 1,
            "("@,
        ) ==> k + 2 <= args_end(src, toks, k + 2) < toks.len() && sym_tok(src, toks, args_end(src, toks, k + 2), ")"@)
            && primary_end(src, toks, k) == args_end(src, toks, k + 2) + 1,
        atom_tok(src, toks, k) && !(toks[k].kind == TokenKind::Ident && sym_tok(src, toks, k + 1, "("@))
            ==> primary_end(src, toks, k) == k + 1,
        k < primary_end(src, toks, k) && !atom_tok(src, toks, k) && !sym_tok(src, toks, k, "("@) ==> word_tok(
            src,
            toks,
            k,
            "new"@,
        ),
{
    lemma_primary_end(src, toks, k);
    if 0 <= k < toks.len() && !sign_tok(src, toks, k) {
        let m = primary_end(src, toks, k);
        if k < m <= toks.len() {
            assert(operand_end(src, toks, k) == suffix_end(src, toks, m));
        } else {
            assert(operand_end(src, toks, k) == -1);
        }
    }
}

proof fn lemma_primary_end(src: Seq<char>, toks: Seq<Token>, k: int)
    ensures
        primary_end(src, toks, k) == -1 || k < primary_end(src, toks, k) <= toks.len(),
    decreases toks.len() - k, 0int,
{
    if 0 <= k < toks.len() && !atom_tok(src, toks, k) && sym_tok(src, toks, k, "("@) {
        assert(primary_end(src, toks, k) == -1 || k < primary_end(src, toks, k));
    }
}

proof fn lemma_suffix_end(src: Seq<char>, toks: Seq<Token>, p: int)
    requires
        0 <= p <= toks.len(),
    ensures
        suffix_end(src, toks, p) == -1 || p <= suffix_end(src, toks, p) <= toks.len(),
    decreases toks.len() - p, 5int,
{
    if p < toks.len() {
        if sym_tok(src, toks, p, "."@) {
            if name_tok(src, toks, p + 1) {
                if sym_tok(src, toks, p + 2, "("@) {
                    let q = args_end(src, toks, p + 3);
                    if p + 3 <= q < toks.len() && sym_tok(src, toks, q, ")"@) {
                        lemma_suffix_end(src, toks, q + 1);
                    }
                } else {
                    lemma_suffix_end(src, toks, p + 2);
                }
            }
        } else if sym_tok(src, toks, p, "["@) {
            let q = full_end(src, toks, p + 1);
            if p + 1 < q < toks.len() && sym_tok(src, toks, q, "]"@) {
                lemma_suffix_end(src, toks, q + 1);
            }
        }
    }
}

proof fn lemma_assign_end(src: Seq<char>, toks: Seq<Token>, k: int)
    ensures
        assign_end(src, toks, k) == -1 || k < assign_end(src, toks, k) <= toks.len(),
    decreases toks.len() - k, 8int,
{
    lemma_expr_end(src, toks, k);
    let e = expr_end(src, toks, k);
    if k < e < toks.len() && sym_tok(src, toks, e, ":="@) {
        lemma_assign_end(src, toks, e + 1);
    }
}

/// Closed assignments begin with a closed operator expression, followed by
/// `:=` and closed assignments, or by the full closer.
proof fn lemma_closed_assign(src: Seq<char>, toks: Seq<Token>, k: int)
    requires
        closed_assign(src, toks, k),
    ensures
        closed_expr(src, toks, k),
        sym_tok(src, toks, expr_end(src, toks, k), ":="@) ==> closed_assign(src, toks, expr_end(src, toks, k) + 1)
            && assign_end(src, toks, k) == assign_end(src, toks, expr_end(src, toks, k) + 1),
        !sym_tok(src, toks, expr_end(src, toks, k), ":="@) ==> assign_end(src, toks, k) == expr_end(src, toks, k),
{
    lemma_expr_end(src, toks, k);
    let e = expr_end(src, toks, k);
    if k < e < toks.len() && sym_tok(src, toks, e, ":="@) {
        lemma_assign_end(src, toks, e + 1);
    }
}

/// In a list of arguments closed by a parenthesis, each one is a closed
/// operator expression, followed by a comma and the rest of the list or
/// by the closing parenthesis.
proof fn lemma_list_item(src: Seq<char>, toks: Seq<Token>, p: int)
    requires
        0 <= p,
        sym_tok(src, toks, list_end(src, toks, p), ")"@),
    ensures
        closed_full(src, toks, p),
        sym_tok(src, toks, full_end(src, toks, p), ","@) ==> list_end(src, toks, full_end(src, toks, p) + 1)
            == list_end(src, toks, p),
        !sym_tok(src, toks, full_end(src, toks, p), ","@) ==> list_end(src, toks, p) == full_end(src, toks, p),
{
}

proof fn lemma_operand_end(src: Seq<char>, toks: Seq<Token>, k: int)
    ensures
        operand_end(src, toks, k) == -1 || k < operand_end(src, toks, k) <= toks.len(),
    decreases toks.len() - k, 6int,
{
    if 0 <= k < toks.len() {
        if sign_tok(src, toks, k) {
            lemma_operand_end(src, toks, k + 1);
        } else {
            lemma_primary_end(src, toks, k);
            let m = primary_end(src, toks, k);
            if k < m <= toks.len() {
                lemma_suffix_end(src, toks, m);
            }
        }
    }
}

proof fn lemma_expr_end(src: Seq<char>, toks: Seq<Token>, k: int)
    ensures
        expr_end(src, toks, k) == -1 || k < expr_end(src, toks, k) <= toks.len(),
    decreases toks.len() - k, 7int,
{
    lemma_operand_end(src, toks, k);
    let m = operand_end(src, toks, k);
    if k < m <= toks.len() && 0 <= m {
        lemma_tail_end(src, toks, m, false);
    }
}

proof fn lemma_tail_end(src: Seq<char>, toks: Seq<Token>, p: int, tested: bool)
    requires
        0 <= p <= toks.len(),
    ensures
        tail_end(src, toks, p, tested) == -1 || p <= tail_end(src, toks, p, tested) <= toks.len(),
    decreases toks.len() - p, 6int,
{
    if 0 <= p < toks.len() && tok_op_level(src, toks, p) > 0 && (!tested || tok_op_level(src, toks, p) >= 16) {
        lemma_expr_end(src, toks, p + 1);
    } else if typetest(src, toks, p) {
        lemma_tail_end(src, toks, p + 2, true);
    }
}

/// The first operand of a closed operator expression is followed by a
/// closed tail, which runs to where the expression ends.
proof fn lemma_closed_operand(src: Seq<char>, toks: Seq<Token>, k: int)
    requires
        closed_expr(src, toks, k),
    ensures
        ({
            let m = operand_end(src, toks, k);
            &&& k < m <= toks.len()
            &&& closed_tail(src, toks, m, false)
            &&& expr_end(src, toks, k) == tail_end(src, toks, m, false)
        }),
{
    lemma_operand_end(src, toks, k);
    let m = operand_end(src, toks, k);
    if k < m <= toks.len() {
        lemma_tail_end(src, toks, m, false);
    }
}

/// A closed tail ends at once at a closer, or goes on with a binary
/// operator and a closed operator expression, or with a type test and a
/// closed tail.
proof fn lemma_closed_tail(src: Seq<char>, toks: Seq<Token>, p: int, tested: bool)
    requires
        closed_tail(src, toks, p, tested),
    ensures
        (closer(src, toks, p) && tail_end(src, toks, p, tested) == p && tok_op_level(src, toks, p) == 0
            && !typetest(src, toks, p)) || (p < toks.len() && tok_op_level(src, toks, p) > 0 && (!tested
            || tok_op_level(src, toks, p) >= 16) && closed_expr(src, toks, p + 1) && tail_end(src, toks, p, tested)
            == expr_end(src, toks, p + 1)) || (typetest(src, toks, p) && closed_tail(src, toks, p + 2, true)
            && tail_end(src, toks, p, tested) == tail_end(src, toks, p + 2, true)),
{
    lemma_op_texts(")"@, 13, Position::new_spec(0, 0));
    lemma_closer_words();
    if 0 <= p < toks.len() && tok_op_level(src, toks, p) > 0 && (!tested || tok_op_level(src, toks, p) >= 16) {
        lemma_expr_end(src, toks, p + 1);
    } else if typetest(src, toks, p) {
        lemma_tail_end(src, toks, p + 2, true);
    } else if p < toks.len() && tok_op_level(src, toks, p) > 0 {
        lemma_op_texts(tok_text(src, toks, p), 13, Position::new_spec(0, 0));
    }
}

/// Right after a type test, a closed tail goes on as it would anywhere
/// else.
proof fn lemma_tested_free(src: Seq<char>, toks: Seq<Token>, p: int, level: int)
    requires
        closed_tail(src, toks, p, true),
    ensures
        closed_tail(src, toks, p, false),
        tail_end(src, toks, p, false) == tail_end(src, toks, p, true),
        chain_tail(src, toks, p, level, false) == chain_tail(src, toks, p, level, true),
        closer(src, toks, p) || tlevel(src, toks, p) >= 16,
{
    lemma_closed_tail(src, toks, p, true);
}

proof fn lemma_chain_end(src: Seq<char>, toks: Seq<Token>, p: int, level: int)
    requires
        closed_expr(src, toks, p),
    ensures
        closed_tail(src, toks, chain_end(src, toks, p, level), false),
        closer(src, toks, chain_end(src, toks, p, level)) || tlevel(src, toks, chain_end(src, toks, p, level))
            > level,
        p < chain_end(src, toks, p, level),
    decreases toks.len() - p, 1int,
{
    lemma_closed_operand(src, toks, p);
    let m = operand_end(src, toks, p);
    lemma_chain_tail(src, toks, m, level, false);
}

proof fn lemma_chain_tail(src: Seq<char>, toks: Seq<Token>, p: int, level: int, tested: bool)
    requires
        closed_tail(src, toks, p, tested),
    ensures
        closed_tail(src, toks, chain_tail(src, toks, p, level, tested), false),
        closer(src, toks, chain_tail(src, toks, p, level, tested)) || tlevel(
            src,
            toks,
            chain_tail(src, toks, p, level, tested),
        ) > level,
        p <= chain_tail(src, toks, p, level, tested),
    decreases toks.len() - p, 0int,
{
    lemma_closed_tail(src, toks, p, tested);
    if 0 <= p < toks.len() && 0 < tok_op_level(src, toks, p) <= level && (!tested || tok_op_level(src, toks, p)
        >= 16) {
        lemma_chain_end(src, toks, p + 1, level);
    } else if level >= 16 && typetest(src, toks, p) {
        lemma_tested_free(src, toks, p + 2, level);
        lemma_chain_tail(src, toks, p + 2, level, true);
    } else if tested {
        lemma_tested_free(src, toks, p, level);
    }
}

proof fn lemma_chain_cont(src: Seq<char>, toks: Seq<Token>, p: int, lower: int, level: int)
    requires
        lower < level,
        closed_expr(src, toks, p),
    ensures
        chain_end(src, toks, p, level) == chain_tail(src, toks, chain_end(src, toks, p, lower), level, false),
    decreases toks.len() - p, 1int,
{
    lemma_closed_operand(src, toks, p);
    let m = operand_end(src, toks, p);
    lemma_chain_tail_cont(src, toks, m, lower, level, false);
}

proof fn lemma_chain_tail_cont(src: Seq<char>, toks: Seq<Token>, p: int, lower: int, level: int, tested: bool)
    requires
        lower < level,
        closed_tail(src, toks, p, tested),
    ensures
        chain_tail(src, toks, p, level, tested) == chain_tail(
            src,
            toks,
            chain_tail(src, toks, p, lower, tested),
            level,
            false,
        ),
    decreases toks.len() - p, 0int,
{
    lemma_closed_tail(src, toks, p, tested);
    if tested {
        lemma_tested_free(src, toks, p, level);
        lemma_tested_free(src, toks, p, lower);
    }
    if 0 <= p < toks.len() && 0 < tok_op_level(src, toks, p) <= lower && (!tested || tok_op_level(src, toks, p)
        >= 16) {
        lemma_chain_cont(src, toks, p + 1, lower, level);
    } else if lower >= 16 && typetest(src, toks, p) {
        lemma_chain_tail_cont(src, toks, p + 2, lower, level, true);
        lemma_chain_tail(src, toks, p + 2, lower, true);
    }
}

/// Taking every operator, an operator expression stops where it ends.
proof fn lemma_chain_all(src: Seq<char>, toks: Seq<Token>, p: int)
    ensures
        chain_end(src, toks, p, 19) == expr_end(src, toks, p),
    decreases toks.len() - p, 1int,
{
    lemma_operand_end(src, toks, p);
    let m = operand_end(src, toks, p);
    if p < m <= toks.len() {
        lemma_chain_tail_all(src, toks, m, false);
    }
}

proof fn lemma_chain_tail_all(src: Seq<char>, toks: Seq<Token>, p: int, tested: bool)
    ensures
        chain_tail(src, toks, p, 19, tested) == tail_end(src, toks, p, tested),
    decreases toks.len() - p, 0int,
{
    if 0 <= p < toks.len() {
        lemma_op_texts(tok_text(src, toks, p), 13, Position::new_spec(0, 0));
    }
    if 0 <= p < toks.len() && tok_op_level(src, toks, p) > 0 && (!tested || tok_op_level(src, toks, p) >= 16) {
        lemma_chain_all(src, toks, p + 1);
    } else if typetest(src, toks, p) {
        lemma_chain_tail_all(src, toks, p + 2, true);
    }
}

/// The words that close an expression are not `is` or `as`.
proof fn lemma_closer_words()
    ensures
        "in"@ != "is"@ && "in"@ != "as"@ && "elif"@ != "is"@ && "elif"@ != "as"@ && "else"@ != "is"@ && "else"@
            != "as"@ && "of"@ != "is"@ && "of"@ != "as"@,
{
    reveal_strlit("in");
    reveal_strlit("is");
    reveal_strlit("as");
    reveal_strlit("elif");
    reveal_strlit("else");
    reveal_strlit("of");
    assert("in"@[1] == 'n' && "is"@[1] == 's' && "as"@[0] == 'a' && "in"@[0] == 'i');
    assert("elif"@.len() == 4 && "else"@.len() == 4 && "is"@.len() == 2 && "as"@.len() == 2);
    assert("of"@[0] == 'o' && "of"@[1] == 'f');
}

/// Where the branches after a body end follows a full closer, so does the
/// body.
proof fn lemma_elifs_closer(src: Seq<char>, toks: Seq<Token>, t: int)
    requires
        0 <= t <= toks.len(),
        full_closer(src, toks, elifs_end(src, toks, t)),
    ensures
        full_closer(src, toks, t),
{
}

proof fn lemma_elifs_end(src: Seq<char>, toks: Seq<Token>, t: int)
    requires
        0 <= t <= toks.len(),
    ensures
        elifs_end(src, toks, t) == -1 || t <= elifs_end(src, toks, t) <= toks.len(),
    decreases toks.len() - t,
{
    if word_tok(src, toks, t, "elif"@) {
        let c = cond_end(src, toks, t + 1);
        if t + 1 < c <= toks.len() {
            let b = body_end(src, toks, c);
            if c < b <= toks.len() {
                lemma_elifs_end(src, toks, b);
            }
        }
    }
}

proof fn lemma_full_end(src: Seq<char>, toks: Seq<Token>, k: int)
    requires
        0 <= k,
    ensures
        full_end(src, toks, k) == -1 || k < full_end(src, toks, k) <= toks.len(),
{
    if word_tok(src, toks, k, "if"@) && !word_tok(src, toks, k, "let"@) {
        let c = cond_end(src, toks, k + 1);
        if k + 1 < c <= toks.len() {
            let t = body_end(src, toks, c);
            if c < t <= toks.len() {
                lemma_elifs_end(src, toks, t);
            }
        }
    }
    lemma_assign_end(src, toks, k);
}

/// The word `new` is none of the other keywords that start an expression
/// or a declaration, nor a boolean.
proof fn lemma_new_word()
    ensures
        "new"@ != "let"@ && "new"@ != "if"@ && "new"@ != "while"@ && "new"@ != "for"@ && "new"@ != "case"@
            && "new"@ != "class"@ && "new"@ != "function"@ && "new"@ != "true"@ && "new"@ != "false"@,
{
    reveal_strlit("new");
    reveal_strlit("let");
    reveal_strlit("if");
    reveal_strlit("while");
    reveal_strlit("for");
    reveal_strlit("case");
    reveal_strlit("class");
    reveal_strlit("function");
    reveal_strlit("true");
    reveal_strlit("false");
    assert("new"@[0] == 'n');
    assert("let"@[0] == 'l' && "if"@[0] == 'i' && "while"@[0] == 'w' && "for"@[0] == 'f' && "case"@[0] == 'c');
    assert("class"@[0] == 'c' && "function"@[0] == 'f' && "true"@[0] == 't' && "false"@[0] == 'f');
}

/// What the texts of the operators have to do with their levels.
proof fn lemma_op_texts(s: Seq<char>, level: u8, p: Position)
    requires
        13 <= level <= 19,
    ensures
        op_level(s) == 0 || 12 <= op_level(s) <= 19,
        (binop_of_text(s, level, p) is Some) == (op_level(s) == level),
        (op_level(s) == 12) == (s == "^"@),
        op_level(s) > 0 ==> s != "("@ && s != "."@ && s != "["@ && s != ":="@ && s != ")"@ && s != ","@ && s
            != ";"@ && s != "]"@ && s != "}"@,
        op_level(")"@) == 0,
        ")"@ != "."@ && ")"@ != "["@ && ")"@ != ":="@ && ")"@ != "("@,
        op_level(","@) == 0,
        ","@ != "."@ && ","@ != "["@ && ","@ != ":="@ && ","@ != "("@ && ","@ != ")"@,
        op_level(";"@) == 0,
        ";"@ != "."@ && ";"@ != "["@ && ";"@ != ":="@ && ";"@ != "("@ && ";"@ != ")"@ && ";"@ != ","@,
        "{"@ != "("@ && "{"@ != "-"@ && "{"@ != "!"@,
        op_level("]"@) == 0,
        "]"@ != "."@ && "]"@ != "["@ && "]"@ != ":="@ && "]"@ != "("@ && "]"@ != ")"@ && "]"@ != ","@ && "]"@
            != ";"@,
        "."@ != "["@,
        op_level(":="@) == 0,
        op_level("}"@) == 0,
        "}"@ != "."@ && "}"@ != "["@ && "}"@ != ":="@ && "}"@ != "("@,
        ":="@ != "."@ && ":="@ != "["@ && ":="@ != "("@,
{
    reveal_strlit("|");
    reveal_strlit("&");
    reveal_strlit("==");
    reveal_strlit("!=");
    reveal_strlit("<");
    reveal_strlit("<=");
    reveal_strlit(">");
    reveal_strlit(">=");
    reveal_strlit("@");
    reveal_strlit("@@");
    reveal_strlit("+");
    reveal_strlit("-");
    reveal_strlit("*");
    reveal_strlit("/");
    reveal_strlit("%");
    reveal_strlit("^");
    reveal_strlit("(");
    reveal_strlit(".");
    reveal_strlit("[");
    reveal_strlit(":=");
    reveal_strlit(")");
    reveal_strlit(",");
    reveal_strlit(";");
    reveal_strlit("]");
    reveal_strlit("}");
    assert("}"@.len() == 1 && "}"@[0] == '}');
    assert("]"@.len() == 1 && "]"@[0] == ']');
    reveal_strlit("{");
    reveal_strlit("!");
    assert(";"@.len() == 1 && ";"@[0] == ';');
    assert("{"@.len() == 1 && "{"@[0] == '{');
    assert("!"@.len() == 1 && "!"@[0] == '!');
    assert(","@.len() == 1 && ","@[0] == ',');
    assert(")"@.len() == 1 && ")"@[0] == ')');
    assert("|"@.len() == 1 && "|"@[0] == '|');
    assert("&"@.len() == 1 && "&"@[0] == '&');
    assert("=="@.len() == 2 && "=="@[0] == '=' && "=="@[1] == '=');
    assert("!="@.len() == 2 && "!="@[0] == '!' && "!="@[1] == '=');
    assert("<"@.len() == 1 && "<"@[0] == '<');
    assert("<="@.len() == 2 && "<="@[0] == '<' && "<="@[1] == '=');
    assert(">"@.len() == 1 && ">"@[0] == '>');
    assert(">="@.len() == 2 && ">="@[0] == '>' && ">="@[1] == '=');
    assert("@"@.len() == 1 && "@"@[0] == '@');
    assert("@@"@.len() == 2 && "@@"@[0] == '@' && "@@"@[1] == '@');
    assert("+"@.len() == 1 && "+"@[0] == '+');
    assert("-"@.len() == 1 && "-"@[0] == '-');
    assert("*"@.len() == 1 && "*"@[0] == '*');
    assert("/"@.len() == 1 && "/"@[0] == '/');
    assert("%"@.len() == 1 && "%"@[0] == '%');
    assert("^"@.len() == 1 && "^"@[0] == '^');
    assert("("@.len() == 1 && "("@[0] == '(');
    assert("."@.len() == 1 && "."@[0] == '.');
    assert("["@.len() == 1 && "["@[0] == '[');
    assert(":="@.len() == 2 && ":="@[0] == ':' && ":="@[1] == '=');
    if s == "|"@ {
        assert(s.len() == 1 && s[0] == '|');
    }
    if s == "&"@ {
        assert(s.len() == 1 && s[0] == '&');
    }
    if s == "=="@ {
        assert(s.len() == 2 && s[0] == '=' && s[1] == '=');
    }
    if s == "!="@ {
        assert(s.len() == 2 && s[0] == '!' && s[1] == '=');
    }
    if s == "<"@ {
        assert(s.len() == 1 && s[0] == '<');
    }
    if s == "<="@ {
        assert(s.len() == 2 && s[0] == '<' && s[1] == '=');
    }
    if s == ">"@ {
        assert(s.len() == 1 && s[0] == '>');
    }
    if s == ">="@ {
        assert(s.len() == 2 && s[0] == '>' && s[1] == '=');
    }
    if s == "@"@ {
        assert(s.len() == 1 && s[0] == '@');
    }
    if s == "@@"@ {
        assert(s.len() == 2 && s[0] == '@' && s[1] == '@');
    }
    if s == "+"@ {
        assert(s.len() == 1 && s[0] == '+');
    }
    if s == "-"@ {
        assert(s.len() == 1 && s[0] == '-');
    }
    if s == "*"@ {
        assert(s.len() == 1 && s[0] == '*');
    }
    if s == "/"@ {
        assert(s.len() == 1 && s[0] == '/');
    }
    if s == "%"@ {
        assert(s.len() == 1 && s[0] == '%');
    }
    if s == "^"@ {
        assert(s.len() == 1 && s[0] == '^');
    }
}

/// The grammar's table of binary operators, by their characters: `|` at
/// level 19, `&` at 18, `==` `!=` at 17, `<` `<=` `>` `>=` at 16, `@` `@@`
/// at 15, `+` `-` at 14 and `*` `/` `%` at 13.
pub proof fn law_operator_table(p: Position)
    ensures
        binop_of_text(seq!['|'], 19, p) == Some(BinOp::Or(p)),
        binop_of_text(seq!['&'], 18, p) == Some(BinOp::And(p)),
        binop_of_text(seq!['=', '='], 17, p) == Some(BinOp::EqualEqual(p)),
        binop_of_text(seq!['!', '='], 17, p) == Some(BinOp::NotEqual(p)),
        binop_of_text(seq!['<'], 16, p) == Some(BinOp::Less(p)),
        binop_of_text(seq!['<', '='], 16, p) == Some(BinOp::LessEqual(p)),
        binop_of_text(seq!['>'], 16, p) == Some(BinOp::Greater(p)),
        binop_of_text(seq!['>', '='], 16, p) == Some(BinOp::GreaterEqual(p)),
        binop_of_text(seq!['@'], 15, p) == Some(BinOp::Concat(p)),
        binop_of_text(seq!['@', '@'], 15, p) == Some(BinOp::ConcatSpaced(p)),
        binop_of_text(seq!['+'], 14, p) == Some(BinOp::Plus(p)),
        binop_of_text(seq!['-'], 14, p) == Some(BinOp::Minus(p)),
        binop_of_text(seq!['*'], 13, p) == Some(BinOp::Mul(p)),
        binop_of_text(seq!['/'], 13, p) == Some(BinOp::Div(p)),
        binop_of_text(seq!['%'], 13, p) == Some(BinOp::Mod(p)),
{
    reveal_strlit("|");
    reveal_strlit("&");
    reveal_strlit("==");
    reveal_strlit("!=");
    reveal_strlit("<");
    reveal_strlit("<=");
    reveal_strlit(">");
    reveal_strlit(">=");
    reveal_strlit("@");
    reveal_strlit("@@");
    reveal_strlit("+");
    reveal_strlit("-");
    reveal_strlit("*");
    reveal_strlit("/");
    reveal_strlit("%");
    assert(seq!['|'] =~= "|"@);
    assert(seq!['&'] =~= "&"@);
    assert(seq!['=', '='] =~= "=="@);
    assert(seq!['!', '='] =~= "!="@);
    assert(seq!['=', '='] != "!="@) by { assert(seq!['=', '='][0] != "!="@[0]); }
    assert(seq!['<'] =~= "<"@);
    assert(seq!['<', '='] =~= "<="@);
    assert(seq!['>'] =~= ">"@);
    assert(seq!['>', '='] =~= ">="@);
    assert(seq!['<', '='].len() != "<"@.len());
    assert(seq!['>'] != "<"@) by { assert(seq!['>'][0] != "<"@[0]); }
    assert(seq!['>'].len() != "<="@.len());
    assert(seq!['>', '='].len() != "<"@.len() && seq!['>', '='].len() != ">"@.len());
    assert(seq!['>', '='] != "<="@) by { assert(seq!['>', '='][0] != "<="@[0]); }
    assert(seq!['@'] =~= "@"@);
    assert(seq!['@', '@'] =~= "@@"@);
    assert(seq!['@', '@'].len() != "@"@.len());
    assert(seq!['+'] =~= "+"@);
    assert(seq!['-'] =~= "-"@);
    assert(seq!['-'] != "+"@) by { assert(seq!['-'][0] != "+"@[0]); }
    assert(seq!['*'] =~= "*"@);
    assert(seq!['/'] =~= "/"@);
    assert(seq!['%'] =~= "%"@);
    assert(seq!['/'] != "*"@) by { assert(seq!['/'][0] != "*"@[0]); }
    assert(seq!['%'] != "*"@) by { assert(seq!['%'][0] != "*"@[0]); }
    assert(seq!['%'] != "/"@) by { assert(seq!['%'][0] != "/"@[0]); }
}

/// An operator that the grammar reads from a text at a level is written
/// with that text and belongs to that level.
pub proof fn law_operator_table_agrees(s: Seq<char>, level: u8, p: Position)
    ensures
        binop_of_text(s, level, p) matches Some(op) ==> spec_binop_text(op) == s && binop_level(op) == level as int,
{
}

impl<'a> Parser<'a> {
    /// The binary operator at token `k` that belongs to precedence `level`
    /// (19 `|`, 18 `&`, 17 `==` `!=`, 16 `<` `<=` `>` `>=`, 15 `@` `@@`,
    /// 14 `+` `-`, 13 `*` `/` `%`).
    fn binop_at(&self, k: usize, level: u8) -> (r: Option<BinOp>)
        requires
            self.wf(),
        ensures
            r == (if k < self.toks@.len() && self.toks@[k as int].kind == TokenKind::Symbol {
                binop_of_text(
                    self.src@.subrange(self.toks@[k as int].start as int, self.toks@[k as int].end as int),
                    level,
                    Position::new_spec(byte_offset(self.src@, self.toks@[k as int].start as int) as usize, byte_offset(self.src@, self.toks@[k as int].end as int) as usize),
                )
            } else {
                None
            }),
            r matches Some(op) ==> k < self.toks@.len() && self.tok(k as int) == Tok::Sym(spec_binop_text(op))
                && binop_level(op) == level,
    {
        if k >= self.toks.len() || self.toks[k].kind != TokenKind::Symbol {
            return None;
        }
        let p = self.position(k);
        let t = self.text(k);
        let w = t.as_str();
        if level == 19 && str_eq(w, "|") {
            Some(BinOp::Or(p))
        } else if level == 18 && str_eq(w, "&") {
            Some(BinOp::And(p))
        } else if level == 17 && str_eq(w, "==") {
            Some(BinOp::EqualEqual(p))
        } else if level == 17 && str_eq(w, "!=") {
            Some(BinOp::NotEqual(p))
        } else if level == 16 && str_eq(w, "<") {
            Some(BinOp::Less(p))
        } else if level == 16 && str_eq(w, "<=") {
            Some(BinOp::LessEqual(p))
        } else if level == 16 && str_eq(w, ">") {
            Some(BinOp::Greater(p))
        } else if level == 16 && str_eq(w, ">=") {
            Some(BinOp::GreaterEqual(p))
        } else if level == 15 && str_eq(w, "@") {
            Some(BinOp::Concat(p))
        } else if level == 15 && str_eq(w, "@@") {
            Some(BinOp::ConcatSpaced(p))
        } else if level == 14 && str_eq(w, "+") {
            Some(BinOp::Plus(p))
        } else if level == 14 && str_eq(w, "-") {
            Some(BinOp::Minus(p))
        } else if level == 13 && str_eq(w, "*") {
            Some(BinOp::Mul(p))
        } else if level == 13 && str_eq(w, "/") {
            Some(BinOp::Div(p))
        } else if level == 13 && str_eq(w, "%") {
            Some(BinOp::Mod(p))
        } else {
            None
        }
    }

    /// `expr := [ let | if | while | for | case | assignment ]`
    fn parse_expr(&self, k: usize) -> (r: Parsed<Expression>)
        requires
            self.wf(),
            k <= self.toks@.len(),
        ensures
            self.advanced(k, r, true),
            r matches Ok((e, q)) ==> derives_expr(self.view(k as int, q as int), e),
            closed_full(self.src@, self.toks@, k as int) ==> (r matches Ok((_, q)) && q == full_end(
                self.src@,
                self.toks@,
                k as int,
            )),
        decreases self.toks@.len() - k, 30u8,
    {
        if self.is_word(k, "let") {
            self.parse_let(k)
        } else if self.is_word(k, "if") {
            self.parse_if(k)
        } else if self.is_word(k, "while") {
            self.parse_while(k)
        } else if self.is_word(k, "for") {
            self.parse_for(k)
        } else if self.is_word(k, "case") {
            self.parse_case(k)
        } else {
            self.parse_assign(k)
        }
    }

    /// `assign := or [ ":=" assign ]` (right associative)
    fn parse_assign(&self, k: usize) -> (r: Parsed<Expression>)
        requires
            self.wf(),
            k <= self.toks@.len(),
        ensures
            self.advanced(k, r, true),
            r matches Ok((e, q)) ==> derives_expr(self.view(k as int, q as int), e) && binding(e) >= 1,
            closed_assign(self.src@, self.toks@, k as int) ==> (r matches Ok((_, q)) && q == assign_end(
                self.src@,
                self.toks@,
                k as int,
            )),
        decreases self.toks@.len() - k, 20u8,
    {
        proof {
            lemma_chain_all(self.src@, self.toks@, k as int);
            lemma_op_texts(")"@, 13, Position::new_spec(0, 0));
            if closed_assign(self.src@, self.toks@, k as int) {
                lemma_closed_assign(self.src@, self.toks@, k as int);
            }
        }
        let (target, k1) = self.parse_binary(k, 19)?;
        if self.is_sym(k1, ":=") {
            let (value, k2) = self.parse_assign(k1 + 1)?;
            proof {
                self.lemma_split(k as int, k1 as int, k2 as int);
                self.lemma_cons(k1 as int, k2 as int);
                assert(self.view(k as int, k2 as int) == self.view(k as int, k1 as int) + sym(":="@) + self.view(
                    k1 + 1,
                    k2 as int,
                ));
            }
            let span = join(target.span(), value.span());
            let node = AssignExpr { target, value, span };
            proof {
                crate::derivation::lemma_assign(self.view(k as int, k1 as int), self.view(k1 + 1, k2 as int), node);
            }
            Ok((Expression::Assign(Box::new(node)), k2))
        } else {
            Ok((target, k1))
        }
    }

    /// The left-associative binary operators of precedence `level` (19 the
    /// loosest, 13 the tightest), over the operands of the next level.
    fn parse_binary(&self, k: usize, level: u8) -> (r: Parsed<Expression>)
        requires
            self.wf(),
            k <= self.toks@.len(),
            12 <= level <= 19,
        ensures
            self.advanced(k, r, true),
            r matches Ok((e, q)) ==> derives_expr(self.view(k as int, q as int), e) && binding(e) >= 21 - level,
            closed_expr(self.src@, self.toks@, k as int) ==> (r matches Ok((_, q)) && q == chain_end(
                self.src@,
                self.toks@,
                k as int,
                level as int,
            )),
        decreases self.toks@.len() - k, level,
    {
        if level == 12 {
            return self.parse_pow(k);
        }
        let (first, k1) = self.parse_binary(k, level - 1)?;
        proof {
            if closed_expr(self.src@, self.toks@, k as int) {
                lemma_chain_end(self.src@, self.toks@, k as int, level - 1);
                lemma_chain_cont(self.src@, self.toks@, k as int, level - 1, level as int);
            }
        }
        let mut left = first;
        let mut pos = k1;
        loop
            invariant
                self.wf(),
                k < pos <= self.toks@.len(),
                13 <= level <= 19,
                derives_expr(self.view(k as int, pos as int), left),
                binding(left) >= 21 - level,
                closed_expr(self.src@, self.toks@, k as int) ==> closed_tail(self.src@, self.toks@, pos as int, false)
                    && (closer(self.src@, self.toks@, pos as int) || tlevel(self.src@, self.toks@, pos as int) >= level)
                    && chain_end(self.src@, self.toks@, k as int, level as int) == chain_tail(
                    self.src@,
                    self.toks@,
                    pos as int,
                    level as int,
                    false,
                ),
            decreases self.toks@.len() - pos,
        {
            proof {
                lemma_closer_words();
                if closed_expr(self.src@, self.toks@, k as int) {
                    lemma_closed_tail(self.src@, self.toks@, pos as int, false);
                    if typetest(self.src@, self.toks@, pos as int) {
                        lemma_tested_free(self.src@, self.toks@, pos + 2, level as int);
                    }
                }
                if pos < self.toks@.len() {
                    lemma_op_texts(
                        tok_text(self.src@, self.toks@, pos as int),
                        level,
                        Position::new_spec(byte_offset(self.src@, self.toks@[pos as int].start as int) as usize, byte_offset(self.src@, self.toks@[pos as int].end as int) as usize),
                    );
                }
            }
            match self.binop_at(pos, level) {
                Some(op) => {
                    let (right, k2) = self.parse_binary(pos + 1, level - 1)?;
                    proof {
                        if closed_expr(self.src@, self.toks@, k as int) {
                            lemma_chain_end(self.src@, self.toks@, pos + 1, level - 1);
                            lemma_chain_cont(self.src@, self.toks@, pos + 1, level - 1, level as int);
                        }
                    }
                    proof {
                        self.lemma_split(k as int, pos as int, k2 as int);
                        self.lemma_cons(pos as int, k2 as int);
                        assert(self.view(k as int, k2 as int) == self.view(k as int, pos as int) + sym(
                            spec_binop_text(op),
                        ) + self.view(pos + 1, k2 as int));
                    }
                    let span = join(left.span(), right.span());
                    let ghost l0 = left;
                    let ghost r0 = right;
                    left = Expression::new_binary_op(left, right, op, span);
                    proof {
                        crate::derivation::lemma_binary(
                            self.view(k as int, pos as int),
                            self.view(pos + 1, k2 as int),
                            ast::BinaryOp { left: Box::new(l0), right: Box::new(r0), operator: op, span },
                        );
                    }
                    pos = k2;
                },
                None => {
                    let is_kw = self.is_word(pos, "is");
                    let as_kw = self.is_word(pos, "as");
                    if level == 16 && (is_kw || as_kw) && self.is_name(pos + 1) {
                        let (name, p) = self.expect_name(pos + 1)?;
                        proof {
                            self.lemma_snoc(k as int, pos as int);
                            self.lemma_snoc(k as int, pos + 1);
                        }
                        let span = join(left.span(), p);
                        if is_kw {
                            proof {
                                assert(self.view(k as int, pos + 2) == self.view(k as int, pos as int) + word("is"@)
                                    + word(name@));
                            }
                            let node = IsExpr { expr: left, type_ident: name, span };
                            proof {
                                crate::derivation::lemma_is(self.view(k as int, pos as int), node);
                            }
                            left = Expression::IsType(Box::new(node));
                        } else {
                            proof {
                                assert(self.view(k as int, pos + 2) == self.view(k as int, pos as int) + word("as"@)
                                    + word(name@));
                            }
                            let node = AsExpr { expr: left, type_ident: name, span };
                            proof {
                                crate::derivation::lemma_as(self.view(k as int, pos as int), node);
                            }
                            left = Expression::AsType(Box::new(node));
                        }
                        pos = pos + 2;
                    } else {
                        return Ok((left, pos));
                    }
                },
            }
        }
    }

    /// `pow := unary [ "^" pow ]` (right associative)
    fn parse_pow(&self, k: usize) -> (r: Parsed<Expression>)
        requires
            self.wf(),
            k <= self.toks@.len(),
        ensures
            self.advanced(k, r, true),
            r matches Ok((e, q)) ==> derives_expr(self.view(k as int, q as int), e) && binding(e) >= 9,
            closed_expr(self.src@, self.toks@, k as int) ==> (r matches Ok((_, q)) && q == chain_end(
                self.src@,
                self.toks@,
                k as int,
                12,
            )),
        decreases self.toks@.len() - k, 11u8,
    {
        proof {
            lemma_operand_end(self.src@, self.toks@, k as int);
            let m = operand_end(self.src@, self.toks@, k as int);
            if closed_expr(self.src@, self.toks@, k as int) {
                lemma_closed_operand(self.src@, self.toks@, k as int);
                lemma_closed_tail(self.src@, self.toks@, m, false);
            }
            if 0 <= m < self.toks@.len() {
                lemma_op_texts(tok_text(self.src@, self.toks@, m), 13, Position::new_spec(0, 0));
            }
        }
        let (base, k1) = self.parse_unary(k)?;
        if self.is_sym(k1, "^") {
            let op = BinOp::Pow(self.position(k1));
            let (exponent, k2) = self.parse_pow(k1 + 1)?;
            proof {
                self.lemma_split(k as int, k1 as int, k2 as int);
                self.lemma_cons(k1 as int, k2 as int);
                assert(self.view(k as int, k2 as int) == self.view(k as int, k1 as int) + sym(spec_binop_text(op))
                    + self.view(k1 + 1, k2 as int));
            }
            let span = join(base.span(), exponent.span());
            proof {
                crate::derivation::lemma_binary(
                    self.view(k as int, k1 as int),
                    self.view(k1 + 1, k2 as int),
                    ast::BinaryOp { left: Box::new(base), right: Box::new(exponent), operator: op, span },
                );
            }
            Ok((Expression::new_binary_op(base, exponent, op, span), k2))
        } else {
            Ok((base, k1))
        }
    }

    /// `unary := ("-" | "!") unary | postfix`
    fn parse_unary(&self, k: usize) -> (r: Parsed<Expression>)
        requires
            self.wf(),
            k <= self.toks@.len(),
        ensures
            self.advanced(k, r, true),
            r matches Ok((e, q)) ==> derives_expr(self.view(k as int, q as int), e) && binding(e) >= 10,
            k < operand_end(self.src@, self.toks@, k as int) ==> (r matches Ok((_, q)) && q == operand_end(
                self.src@,
                self.toks@,
                k as int,
            )),
        decreases self.toks@.len() - k, 10u8,
    {
        proof {
            lemma_operand_end(self.src@, self.toks@, k + 1);
            lemma_primary_end(self.src@, self.toks@, k as int);
            lemma_operand_start(self.src@, self.toks@, k as int);
            let m = primary_end(self.src@, self.toks@, k as int);
            if k < m <= self.toks@.len() {
                lemma_suffix_end(self.src@, self.toks@, m);
            }
        }
        let minus = self.is_sym(k, "-");
        let not = self.is_sym(k, "!");
        if minus || not {
            let p = self.position(k);
            let op = if minus { tokens::UnaryOp::Minus(p) } else { tokens::UnaryOp::Not(p) };
            let (operand, k1) = self.parse_unary(k + 1)?;
            proof {
                self.lemma_cons(k as int, k1 as int);
                assert(self.view(k as int, k1 as int) == sym(unop_text(op)) + self.view(k + 1, k1 as int));
            }
            let span = join(p, operand.span());
            proof {
                crate::derivation::lemma_unary(
                    self.view(k + 1, k1 as int),
                    ast::UnaryOp { op, expr: Box::new(operand), span },
                );
            }
            Ok((Expression::new_unary_op(op, operand, span), k1))
        } else {
            self.parse_postfix(k)
        }
    }

    /// `postfix := primary ( "." ID [ "(" args ")" ] | "[" expr "]" )*`
    fn parse_postfix(&self, k: usize) -> (r: Parsed<Expression>)
        requires
            self.wf(),
            k <= self.toks@.len(),
        ensures
            self.advanced(k, r, true),
            r matches Ok((e, q)) ==> derives_expr(self.view(k as int, q as int), e) && binding(e) >= 11,
            self.postfix_at(k as int) ==> (r matches Ok((_, q)) && q == suffix_end(
                self.src@,
                self.toks@,
                primary_end(self.src@, self.toks@, k as int),
            )),
        decreases self.toks@.len() - k, 9u8,
    {
        let (first, k1) = self.parse_primary(k)?;
        proof {
            lemma_op_texts(")"@, 13, Position::new_spec(0, 0));
        }
        let mut object = first;
        let mut pos = k1;
        loop
            invariant
                self.wf(),
                k < pos <= self.toks@.len(),
                derives_expr(self.view(k as int, pos as int), object),
                binding(object) >= 11,
                self.postfix_at(k as int) ==> suffix_end(self.src@, self.toks@, pos as int) == suffix_end(
                    self.src@,
                    self.toks@,
                    primary_end(self.src@, self.toks@, k as int),
                ) && pos <= suffix_end(self.src@, self.toks@, pos as int),
            decreases self.toks@.len() - pos,
        {
            if self.is_sym(pos, ".") {
                let (member, p) = self.expect_name(pos + 1)?;
                if self.is_sym(pos + 2, "(") {
                    let (args, k2) = self.parse_args(pos + 3)?;
                    let k3 = self.expect(k2, ")")?;
                    proof {
                        self.lemma_snoc(k as int, pos as int);
                        self.lemma_snoc(k as int, pos + 1);
                        self.lemma_snoc(k as int, pos + 2);
                        self.lemma_split(k as int, pos + 3, k2 as int);
                        self.lemma_snoc(k as int, k2 as int);
                        assert(self.view(k as int, k3 as int) == self.view(k as int, pos as int) + sym("."@) + word(
                            member@,
                        ) + sym("("@) + self.view(pos + 3, k2 as int) + sym(")"@));
                    }
                    let span = join(object.span(), self.position(k3 - 1));
                    let node = MethodCall { object, method: member, args, span };
                    proof {
                        crate::derivation::lemma_method_call(
                            self.view(k as int, pos as int),
                            self.view(pos + 3, k2 as int),
                            node,
                        );
                    }
                    object = Expression::MethodCall(Box::new(node));
                    pos = k3;
                    proof {
                        lemma_suffix_end(self.src@, self.toks@, pos as int);
                    }
                } else {
                    proof {
                        self.lemma_snoc(k as int, pos as int);
                        self.lemma_snoc(k as int, pos + 1);
                    }
                    let span = join(object.span(), p);
                    proof {
                        assert(self.view(k as int, pos + 2) == self.view(k as int, pos as int) + sym("."@) + word(
                            member@,
                        ));
                    }
                    let node = MemberAccess { object, member, span };
                    proof {
                        crate::derivation::lemma_member(self.view(k as int, pos as int), node);
                    }
                    object = Expression::MemberAccess(Box::new(node));
                    pos = pos + 2;
                    proof {
                        lemma_suffix_end(self.src@, self.toks@, pos as int);
                    }
                }
            } else if self.is_sym(pos, "[") {
                let (index, k2) = self.parse_expr(pos + 1)?;
                let k3 = self.expect(k2, "]")?;
                proof {
                    self.lemma_snoc(k as int, pos as int);
                    self.lemma_split(k as int, pos + 1, k2 as int);
                    self.lemma_snoc(k as int, k2 as int);
                    assert(self.view(k as int, k3 as int) == self.view(k as int, pos as int) + sym("["@) + self.view(
                        pos + 1,
                        k2 as int,
                    ) + sym("]"@));
                }
                let span = join(object.span(), self.position(k3 - 1));
                let node = IndexAccess { object, index, span };
                proof {
                    crate::derivation::lemma_index(self.view(k as int, pos as int), self.view(pos + 1, k2 as int), node);
                }
                object = Expression::IndexAccess(Box::new(node));
                pos = k3;
                proof {
                    lemma_suffix_end(self.src@, self.toks@, pos as int);
                }
            } else {
                return Ok((object, pos));
            }
        }
    }

    /// `args := [ expr ( "," expr )* ]`
    fn parse_args(&self, k: usize) -> (r: Parsed<Vec<Expression>>)
        requires
            self.wf(),
            k <= self.toks@.len(),
        ensures
            self.advanced(k, r, false),
            r matches Ok((es, q)) ==> derives_list(self.view(k as int, q as int), es@),
            sym_tok(self.src@, self.toks@, args_end(self.src@, self.toks@, k as int), ")"@) ==> (r matches Ok((_, q))
                && q == args_end(self.src@, self.toks@, k as int)),
        decreases self.toks@.len() - k, 40u8,
    {
        let mut args: Vec<Expression> = Vec::new();
        if self.is_sym(k, ")") || k >= self.toks.len() {
            proof {
                self.lemma_empty(k as int);
            }
            return Ok((args, k));
        }
        proof {
            if sym_tok(self.src@, self.toks@, args_end(self.src@, self.toks@, k as int), ")"@) {
                lemma_list_item(self.src@, self.toks@, k as int);
            }
        }
        let (first, k1) = self.parse_expr(k)?;
        args.push(first);
        let mut pos = k1;
        while self.is_sym(pos, ",")
            invariant
                self.wf(),
                k < pos <= self.toks@.len(),
                args@.len() >= 1,
                derives_list(self.view(k as int, pos as int), args@),
                sym_tok(self.src@, self.toks@, args_end(self.src@, self.toks@, k as int), ")"@) ==> (
                sym_tok(self.src@, self.toks@, pos as int, ","@) ==> list_end(self.src@, self.toks@, pos + 1)
                    == args_end(self.src@, self.toks@, k as int)) && (!sym_tok(self.src@, self.toks@, pos as int, ","@)
                    ==> pos == args_end(self.src@, self.toks@, k as int)),
            decreases self.toks@.len() - pos,
        {
            proof {
                if sym_tok(self.src@, self.toks@, args_end(self.src@, self.toks@, k as int), ")"@) {
                    lemma_list_item(self.src@, self.toks@, pos + 1);
                }
            }
            let (next, k2) = self.parse_expr(pos + 1)?;
            proof {
                self.lemma_snoc(k as int, pos as int);
                self.lemma_split(k as int, pos + 1, k2 as int);
            }
            let ghost before = args@;
            args.push(next);
            proof {
                assert(args@.drop_last() =~= before);
                assert(self.view(k as int, k2 as int) == self.view(k as int, pos as int) + sym(","@) + self.view(
                    pos + 1,
                    k2 as int,
                ));
            }
            pos = k2;
        }
        Ok((args, pos))
    }
}

impl<'a> Parser<'a> {
    /// The value of the number token `k`, if it is a whole number that
    /// fits in an `i32`.
    fn number_value(&self, k: usize) -> (r: Option<i32>)
        requires
            self.wf(),
            k < self.toks@.len(),
        ensures
            (r is Some) == (all_digits(self.src@.subrange(self.toks@[k as int].start as int, self.toks@[k as int].end as int))
                && digits_value(self.src@.subrange(self.toks@[k as int].start as int, self.toks@[k as int].end as int))
                <= i32::MAX),
            r matches Some(n) ==> n as int == digits_value(
                self.src@.subrange(self.toks@[k as int].start as int, self.toks@[k as int].end as int),
            ),
    {
        let t = self.toks[k];
        let ghost whole = self.src@.subrange(t.start as int, t.end as int);
        let mut value: i64 = 0;
        let mut i = t.start;
        assert(self.src@.subrange(t.start as int, t.start as int) =~= Seq::<char>::empty());
        while i < t.end
            invariant
                t.start <= i <= t.end,
                t.end <= self.src@.len(),
                whole == self.src@.subrange(t.start as int, t.end as int),
                k < self.toks@.len(),
                t == self.toks@[k as int],
                0 <= value <= i32::MAX,
                value as int == digits_value(self.src@.subrange(t.start as int, i as int)),
                all_digits(self.src@.subrange(t.start as int, i as int)),
            decreases t.end - i,
        {
            let c = self.src[i];
            if c < '0' || c > '9' {
                proof {
                    assert(whole[i - t.start] == c);
                    assert(!all_digits(whole));
                }
                return None;
            }
            let d: i64 = (c as u32 - '0' as u32) as i64;
            let ghost cur = self.src@.subrange(t.start as int, i + 1);
            proof {
                assert(cur.drop_last() =~= self.src@.subrange(t.start as int, i as int));
                assert(cur.last() == c);
                assert(d as int == c as int - '0' as int);
                assert forall|j: int| 0 <= j < cur.len() implies '0' <= #[trigger] cur[j] <= '9' by {
                    if j < cur.len() - 1 {
                        assert(cur[j] == self.src@.subrange(t.start as int, i as int)[j]);
                    }
                }
            }
            value = value * 10 + d;
            if value > i32::MAX as i64 {
                proof {
                    if all_digits(whole) {
                        assert(whole.subrange(0, i + 1 - t.start) =~= cur);
                        lemma_digits_prefix(whole, i + 1 - t.start);
                        assert(digits_value(cur) == value);
                    }
                }
                return None;
            }
            i = i + 1;
        }
        Some(value as i32)
    }

    /// `primary := NUMBER | STRING | true | false | ID [ "(" args ")" ]
    ///           | "(" expr ")" | new`
    fn parse_primary(&self, k: usize) -> (r: Parsed<Expression>)
        requires
            self.wf(),
            k <= self.toks@.len(),
        ensures
            self.advanced(k, r, true),
            r matches Ok((e, q)) ==> derives_expr(self.view(k as int, q as int), e) && binding(e) >= 12,
            self.primary_at(k as int) ==> (r matches Ok((_, q)) && q == primary_end(self.src@, self.toks@, k as int)),
        decreases self.toks@.len() - k, 8u8,
    {
        proof {
            lemma_op_texts(")"@, 13, Position::new_spec(0, 0));
            lemma_new_word();
            lemma_operand_start(self.src@, self.toks@, k as int);
            if k + 1 < self.toks@.len() {
                lemma_op_texts(tok_text(self.src@, self.toks@, k + 1), 13, Position::new_spec(0, 0));
            }
        }
        if k >= self.toks.len() {
            return self.fail(k, vec!["NUMBER", "STRING", "ID", "(", "new"]);
        }
        let t = self.toks[k];
        let p = self.position(k);
        proof {
            self.lemma_one(k as int);
        }
        match t.kind {
            TokenKind::Number => match self.number_value(k) {
                Some(n) => {
                    let atom = Atom::NumberLiteral(Literal::Number(n, p));
                    assert(derives_atom(self.view(k as int, k + 1), atom));
                    Ok((Expression::new_atom(atom), k + 1))
                },
                None => {
                    proof {
                        lemma_byte_offset_mono(self.src@, t.start as int, self.src@.len() as int);
                    }
                    Err(ParseFailure::InvalidToken { location: self.byte_at(t.start) })
                },
            },
            TokenKind::Str => {
                if t.end - t.start < 2 {
                    proof {
                        lemma_byte_offset_mono(self.src@, t.start as int, self.src@.len() as int);
                    }
                    return Err(ParseFailure::InvalidToken { location: self.byte_at(t.start) });
                }
                let content = self.input.substring_char(t.start + 1, t.end - 1).to_owned();
                let atom = Atom::StringLiteral(Literal::Str(content, p));
                assert(derives_atom(self.view(k as int, k + 1), atom));
                Ok((Expression::new_atom(atom), k + 1))
            },
            TokenKind::Ident => {
                if self.is_word(k, "true") {
                    let atom = Atom::BooleanLiteral(Literal::Bool(true, p));
                    assert(derives_atom(self.view(k as int, k + 1), atom));
                    Ok((Expression::new_atom(atom), k + 1))
                } else if self.is_word(k, "false") {
                    let atom = Atom::BooleanLiteral(Literal::Bool(false, p));
                    assert(derives_atom(self.view(k as int, k + 1), atom));
                    Ok((Expression::new_atom(atom), k + 1))
                } else if self.is_word(k, "new") {
                    self.parse_new(k)
                } else if !self.is_name(k) {
                    self.fail(k, vec!["NUMBER", "STRING", "ID", "(", "new"])
                } else {
                    let name = self.text(k);
                    proof {
                        lemma_operand_start(self.src@, self.toks@, k as int);
                    }
                    if self.is_sym(k + 1, "(") {
                        let (args, k2) = self.parse_args(k + 2)?;
                        let k3 = self.expect(k2, ")")?;
                        let span = join(p, self.position(k3 - 1));
                        let node = FunctionCall { name, args, span };
                        proof {
                            self.lemma_snoc(k as int, k + 1);
                            self.lemma_split(k as int, k + 2, k2 as int);
                            self.lemma_snoc(k as int, k2 as int);
                            assert(self.view(k as int, k3 as int) == word(node.name@) + sym("("@) + self.view(
                                k + 2,
                                k2 as int,
                            ) + sym(")"@));
                            crate::derivation::lemma_call(self.view(k + 2, k2 as int), node);
                        }
                        Ok((Expression::FunctionCall(Box::new(node)), k3))
                    } else {
                        let atom = Atom::Variable(Identifier { name, position: p });
                        assert(derives_atom(self.view(k as int, k + 1), atom));
                        Ok((Expression::new_atom(atom), k + 1))
                    }
                }
            },
            TokenKind::Symbol => {
                if self.is_sym(k, "(") {
                    proof {
                        lemma_operand_start(self.src@, self.toks@, k as int);
                        if self.primary_at(k as int) {
                            assert(closed_full(self.src@, self.toks@, k + 1));
                        }
                    }
                    let (inner, k1) = self.parse_expr(k + 1)?;
                    let k2 = self.expect(k1, ")")?;
                    let group = Group::new(GroupingOperator::OpenParen(p), inner, GroupingOperator::CloseParen(
                        self.position(k2 - 1)));
                    proof {
                        self.lemma_cons(k as int, k1 as int);
                        self.lemma_snoc(k as int, k1 as int);
                        assert(self.view(k as int, k2 as int) == sym("("@) + self.view(k + 1, k1 as int) + sym(
                            ")"@,
                        ));
                        crate::derivation::lemma_group(self.view(k + 1, k1 as int), group);
                    }
                    Ok((Expression::new_atom(Atom::Group(Box::new(group))), k2))
                } else {
                    self.fail(k, vec!["NUMBER", "STRING", "ID", "(", "new"])
                }
            },
        }
    }

    /// `new := "new" ID "(" args ")" | "new" [ ID ] "[" expr "]" [ "{" ID "->" expr "}" ]`
    #[verifier::spinoff_prover]
    #[verifier::rlimit(40)]
    fn parse_new(&self, k: usize) -> (r: Parsed<Expression>)
        requires
            self.wf(),
            k < self.toks@.len(),
            self.tok(k as int) == Tok::Word("new"@),
        ensures
            self.advanced(k, r, true),
            r matches Ok((e, q)) ==> derives_expr(self.view(k as int, q as int), e) && binding(e) >= 12,
            k < primary_end(self.src@, self.toks@, k as int) ==> (r matches Ok((_, q)) && q == primary_end(
                self.src@,
                self.toks@,
                k as int,
            )),
        decreases self.toks@.len() - k, 7u8,
    {
        proof {
            lemma_op_texts(")"@, 13, Position::new_spec(0, 0));
        }
        let start = self.position(k);
        let mut pos = k + 1;
        let mut type_ident: Option<String> = None;
        proof {
            self.lemma_one(k as int);
        }
        if self.is_name(pos) {
            let name = self.text(pos);
            if self.is_sym(pos + 1, "(") {
                let (args, k2) = self.parse_args(pos + 2)?;
                let k3 = self.expect(k2, ")")?;
                let span = join(start, self.position(k3 - 1));
                let node = NewInstance { type_ident: name, args, span };
                proof {
                    self.lemma_snoc(k as int, k + 1);
                    self.lemma_snoc(k as int, k + 2);
                    self.lemma_split(k as int, k + 3, k2 as int);
                    self.lemma_snoc(k as int, k2 as int);
                    assert(self.view(k as int, k3 as int) == word("new"@) + word(node.type_ident@) + sym("("@)
                        + self.view(k + 3, k2 as int) + sym(")"@));
                    crate::derivation::lemma_new_instance(self.view(k + 3, k2 as int), node);
                }
                return Ok((Expression::NewInstance(Box::new(node)), k3));
            }
            proof {
                self.lemma_snoc(k as int, k + 1);
            }
            type_ident = Some(name);
            pos = pos + 1;
        }
        assert(self.view(k as int, pos as int) =~= word("new"@) + opt_word(type_ident));
        assert(crate::derivation::annotation_ok(type_ident));
        let k1 = self.expect(pos, "[")?;
        let (size, k2) = self.parse_expr(k1)?;
        let k3 = self.expect(k2, "]")?;
        let mut end = self.position(k3 - 1);
        let mut init: Option<(String, Expression)> = None;
        let mut last = k3;
        if self.is_sym(k3, "{") && self.is_name(k3 + 1) && self.is_sym(k3 + 2, "->") {
            let var = self.text(k3 + 1);
            let (value, k4) = self.parse_expr(k3 + 3)?;
            let k5 = self.expect(k4, "}")?;
            end = self.position(k5 - 1);
            proof {
                self.lemma_one(k3 as int);
                self.lemma_snoc(k3 as int, k3 + 1);
                self.lemma_snoc(k3 as int, k3 + 2);
                self.lemma_split(k3 as int, k3 + 3, k4 as int);
                self.lemma_snoc(k3 as int, k4 as int);
                assert(self.view(k3 as int, k5 as int) == sym("{"@) + word(var@) + sym("->"@) + self.view(
                    k3 + 3,
                    k4 as int,
                ) + sym("}"@));
                crate::derivation::lemma_init(self.view(k3 + 3, k4 as int), var, value);
            }
            init = Some((var, value));
            last = k5;
        } else {
            proof {
                self.lemma_empty(k3 as int);
            }
        }
        let span = join(start, end);
        let node = NewArray { type_ident, size, init, span };
        proof {
            self.lemma_split(k as int, k3 as int, last as int);
            self.lemma_snoc(k as int, k2 as int);
            self.lemma_split(k as int, k1 as int, k2 as int);
            self.lemma_snoc(k as int, pos as int);
            assert(self.view(k as int, last as int) == word("new"@) + opt_word(node.type_ident) + sym("["@)
                + self.view(k1 as int, k2 as int) + sym("]"@) + self.view(k3 as int, last as int));
            crate::derivation::lemma_new_array(self.view(k1 as int, k2 as int), self.view(k3 as int, last as int), node);
        }
        Ok((Expression::NewArray(Box::new(node)), last))
    }

    /// `expr-body := expr | "{" ( expr ";" )+ "}"`
    fn parse_expr_body(&self, k: usize) -> (r: Parsed<ExprBody>)
        requires
            self.wf(),
            k <= self.toks@.len(),
        ensures
            self.advanced(k, r, true),
            r matches Ok((b, q)) ==> derives_body(self.view(k as int, q as int), b),
            self.ends_closed(body_end(self.src@, self.toks@, k as int), k as int) ==> (r matches Ok((_, q)) && q
                == body_end(self.src@, self.toks@, k as int)),
        decreases self.toks@.len() - k, 40u8,
    {
        if self.is_sym(k, "{") {
            let (exprs, k1) = self.parse_block(k + 1)?;
            proof {
                self.lemma_cons(k as int, k1 - 1);
                self.lemma_snoc(k as int, k1 - 1);
                assert(self.view(k as int, k1 as int) == sym("{"@) + self.view(k + 1, k1 - 1) + sym("}"@));
                crate::derivation::lemma_body_block(self.view(k + 1, k1 - 1), exprs);
            }
            Ok((ExprBody::Block(exprs), k1))
        } else {
            let (e, k1) = self.parse_expr(k)?;
            Ok((ExprBody::Single(Box::new(e)), k1))
        }
    }

    /// `( expr ";" )+ "}"`, after the opening brace.
    fn parse_block(&self, k: usize) -> (r: Parsed<Vec<Expression>>)
        requires
            self.wf(),
            k <= self.toks@.len(),
        ensures
            self.advanced(k, r, true),
            k < block_end(self.src@, self.toks@, k as int) ==> (r matches Ok((_, q)) && q == block_end(
                self.src@,
                self.toks@,
                k as int,
            )),
            r matches Ok((es, q)) ==> es@.len() > 0 && k < q - 1 && self.tok(q - 1) == Tok::Sym("}"@)
                && derives_stmts(self.view(k as int, q - 1), es@),
        decreases self.toks@.len() - k, 40u8,
    {
        let mut exprs: Vec<Expression> = Vec::new();
        let mut pos = k;
        proof {
            self.lemma_empty(k as int);
        }
        loop
            invariant
                self.wf(),
                k <= pos <= self.toks@.len(),
                exprs@.len() > 0 ==> k < pos,
                derives_stmts(self.view(k as int, pos as int), exprs@),
                k < block_end(self.src@, self.toks@, k as int) ==> block_end(self.src@, self.toks@, pos as int)
                    == block_end(self.src@, self.toks@, k as int),
            decreases self.toks@.len() - pos,
        {
            let (e, k1) = self.parse_expr(pos)?;
            let k2 = self.expect(k1, ";")?;
            proof {
                self.lemma_split(k as int, pos as int, k1 as int);
                self.lemma_snoc(k as int, k1 as int);
                assert(self.view(k as int, k2 as int) == self.view(k as int, pos as int) + self.view(
                    pos as int,
                    k1 as int,
                ) + sym(";"@));
                crate::derivation::lemma_stmts_push(
                    self.view(k as int, pos as int),
                    self.view(pos as int, k1 as int),
                    exprs@,
                    e,
                );
            }
            exprs.push(e);
            pos = k2;
            if self.is_sym(pos, "}") {
                return Ok((exprs, pos + 1));
            }
        }
    }

    /// `let := "let" decl ( "," decl )* "in" expr-body`, `decl := ID [ ":" ID ] "=" expr`
    fn parse_let(&self, k: usize) -> (r: Parsed<Expression>)
        requires
            self.wf(),
            k < self.toks@.len(),
            self.tok(k as int) == Tok::Word("let"@),
        ensures
            self.advanced(k, r, true),
            r matches Ok((e, q)) ==> derives_expr(self.view(k as int, q as int), e),
            self.ends_closed(let_end(self.src@, self.toks@, k as int), k as int) ==> (r matches Ok((_, q)) && q
                == let_end(self.src@, self.toks@, k as int)),
        decreases self.toks@.len() - k, 25u8,
    {
        let start = self.position(k);
        let mut decls: Vec<LetDecl> = Vec::new();
        let mut pos = k + 1;
        let mut end = k + 1;
        loop
            invariant_except_break
                self.wf(),
                k < pos <= self.toks@.len(),
                decls@.len() == 0 ==> pos == k + 1,
                decls@.len() > 0 ==> k + 1 < end && pos == end + 1 && end < self.toks@.len() && self.tok(end as int)
                    == Tok::Sym(","@) && derives_decls(self.view(k + 1, end as int), decls@),
                self.ends_closed(let_end(self.src@, self.toks@, k as int), k as int) ==> decls_end(
                    self.src@,
                    self.toks@,
                    pos as int,
                ) == decls_end(self.src@, self.toks@, k + 1),
            ensures
                self.wf(),
                decls@.len() > 0,
                k + 1 < end <= self.toks@.len(),
                derives_decls(self.view(k + 1, end as int), decls@),
                self.ends_closed(let_end(self.src@, self.toks@, k as int), k as int) ==> end == decls_end(
                    self.src@,
                    self.toks@,
                    k + 1,
                ),
            decreases self.toks@.len() - pos,
        {
            let (name, p) = self.expect_name(pos)?;
            let mut q = pos + 1;
            let mut type_ann: Option<String> = None;
            if self.is_sym(q, ":") {
                let (t, _) = self.expect_name(q + 1)?;
                type_ann = Some(t);
                q = q + 2;
            }
            let q1 = self.expect(q, "=")?;
            let (value, q2) = self.parse_expr(q1)?;
            let span = join(p, value.span());
            let d = LetDecl { name, type_ann, value, span };
            proof {
                self.lemma_annotated(pos as int, q as int, d.name@, d.type_ann);
                self.lemma_snoc(pos as int, q as int);
                self.lemma_split(pos as int, q1 as int, q2 as int);
                if decls@.len() == 0 {
                    crate::derivation::lemma_decls_one(self.view(q1 as int, q2 as int), d);
                } else {
                    self.lemma_split(k + 1, pos as int, q2 as int);
                    self.lemma_snoc(k + 1, end as int);
                    assert(self.view(k + 1, q2 as int) == self.view(k + 1, end as int) + sym(","@) + (word(d.name@)
                        + crate::derivation::annotation(d.type_ann) + sym("="@)) + self.view(q1 as int, q2 as int));
                    crate::derivation::lemma_decls_push(
                        self.view(k + 1, end as int),
                        self.view(q1 as int, q2 as int),
                        decls@,
                        d,
                    );
                }
            }
            decls.push(d);
            end = q2;
            if self.is_sym(q2, ",") {
                pos = q2 + 1;
            } else {
                break;
            }
        }
        if !self.is_word(end, "in") {
            return self.fail(end, vec![",", "in"]);
        }
        let (body, k2) = self.parse_expr_body(end + 1)?;
        let span = join(start, self.position(k2 - 1));
        let node = LetExpr { decls, body, span };
        proof {
            self.lemma_split(k as int, end + 1, k2 as int);
            self.lemma_snoc(k as int, end as int);
            self.lemma_cons(k as int, end as int);
            assert(self.view(k as int, k2 as int) == word("let"@) + self.view(k + 1, end as int) + word("in"@)
                + self.view(end + 1, k2 as int));
            crate::derivation::lemma_let(self.view(k + 1, end as int), self.view(end + 1, k2 as int), node);
        }
        Ok((Expression::Let(Box::new(node)), k2))
    }

    /// `"(" expr ")"`, the condition of `if`, `elif` and `while`.
    fn parse_condition(&self, k: usize) -> (r: Parsed<Expression>)
        requires
            self.wf(),
            k <= self.toks@.len(),
        ensures
            self.advanced(k, r, true),
            r matches Ok((c, q)) ==> k + 1 < q - 1 && self.tok(k as int) == Tok::Sym("("@) && self.tok(q - 1)
                == Tok::Sym(")"@) && derives_expr(self.view(k + 1, q - 1), c),
            k < cond_end(self.src@, self.toks@, k as int) ==> (r matches Ok((_, q)) && q == cond_end(
                self.src@,
                self.toks@,
                k as int,
            )),
        decreases self.toks@.len() - k, 24u8,
    {
        let k1 = self.expect(k, "(")?;
        let (cond, k2) = self.parse_expr(k1)?;
        let k3 = self.expect(k2, ")")?;
        Ok((cond, k3))
    }

    /// `if := "if" cond expr-body ( "elif" cond expr-body )* [ "else" expr-body ]`
    #[verifier::spinoff_prover]
    #[verifier::rlimit(40)]
    fn parse_if(&self, k: usize) -> (r: Parsed<Expression>)
        requires
            self.wf(),
            k < self.toks@.len(),
            self.tok(k as int) == Tok::Word("if"@),
        ensures
            self.advanced(k, r, true),
            r matches Ok((e, q)) ==> derives_expr(self.view(k as int, q as int), e),
            self.ends_closed(if_end(self.src@, self.toks@, k as int), k as int) ==> (r matches Ok((_, q)) && q
                == if_end(self.src@, self.toks@, k as int)),
        decreases self.toks@.len() - k, 25u8,
    {
        let start = self.position(k);
        let (condition, k1) = self.parse_condition(k + 1)?;
        proof {
            if self.ends_closed(if_end(self.src@, self.toks@, k as int), k as int) {
                let t = body_end(self.src@, self.toks@, k1 as int);
                lemma_elifs_closer(self.src@, self.toks@, t);
            }
        }
        let (then_body, k2) = self.parse_expr_body(k1)?;
        let mut elif_branches: Vec<CondBranch> = Vec::new();
        let mut pos = k2;
        proof {
            self.lemma_empty(k2 as int);
        }
        while self.is_word(pos, "elif")
            invariant
                self.wf(),
                k < k2 <= pos <= self.toks@.len(),
                derives_elifs(self.view(k2 as int, pos as int), elif_branches@),
                self.ends_closed(if_end(self.src@, self.toks@, k as int), k as int) ==> elifs_end(
                    self.src@,
                    self.toks@,
                    pos as int,
                ) == if_end(self.src@, self.toks@, k as int),
            decreases self.toks@.len() - pos,
        {
            let bstart = self.position(pos);
            let (c, q1) = self.parse_condition(pos + 1)?;
            proof {
                if self.ends_closed(if_end(self.src@, self.toks@, k as int), k as int) {
                    let t = body_end(self.src@, self.toks@, q1 as int);
                    lemma_elifs_closer(self.src@, self.toks@, t);
                }
            }
            let (body, q2) = self.parse_expr_body(q1)?;
            let span = join(bstart, self.position(q2 - 1));
            let br = CondBranch { condition: c, body, span };
            proof {
                self.lemma_split(k2 as int, q1 as int, q2 as int);
                self.lemma_snoc(k2 as int, q1 - 1);
                self.lemma_split(k2 as int, pos + 2, q1 - 1);
                self.lemma_snoc(k2 as int, pos + 1);
                self.lemma_snoc(k2 as int, pos as int);
                assert(self.view(k2 as int, q2 as int) == self.view(k2 as int, pos as int) + word("elif"@) + sym(
                    "("@,
                ) + self.view(pos + 2, q1 - 1) + sym(")"@) + self.view(q1 as int, q2 as int));
                crate::derivation::lemma_elifs_push(
                    self.view(k2 as int, pos as int),
                    self.view(pos + 2, q1 - 1),
                    self.view(q1 as int, q2 as int),
                    elif_branches@,
                    br,
                );
            }
            elif_branches.push(br);
            pos = q2;
        }
        let pe = pos;
        let mut else_body: Option<ExprBody> = None;
        if self.is_word(pos, "else") {
            let (b, q) = self.parse_expr_body(pos + 1)?;
            proof {
                self.lemma_cons(pos as int, q as int);
                crate::derivation::lemma_else(self.view(pos + 1, q as int), b);
            }
            else_body = Some(b);
            pos = q;
        } else {
            proof {
                self.lemma_empty(pos as int);
            }
        }
        let span = join(start, self.position(pos - 1));
        let node = IfExpr { condition, then_body, elif_branches, else_body, span };
        proof {
            self.lemma_split(k as int, pe as int, pos as int);
            self.lemma_split(k as int, k2 as int, pe as int);
            self.lemma_split(k as int, k1 as int, k2 as int);
            self.lemma_snoc(k as int, k1 - 1);
            self.lemma_split(k as int, k + 2, k1 - 1);
            self.lemma_snoc(k as int, k + 1);
            self.lemma_one(k as int);
            assert(self.view(k as int, pos as int) == word("if"@) + sym("("@) + self.view(k + 2, k1 - 1) + sym(
                ")"@,
            ) + self.view(k1 as int, k2 as int) + self.view(k2 as int, pe as int) + self.view(pe as int, pos as int));
            crate::derivation::lemma_if(
                self.view(k + 2, k1 - 1),
                self.view(k1 as int, k2 as int),
                self.view(k2 as int, pe as int),
                self.view(pe as int, pos as int),
                node,
            );
        }
        Ok((Expression::If(Box::new(node)), pos))
    }

    /// `while := "while" cond expr-body [ "else" expr-body ]`
    fn parse_while(&self, k: usize) -> (r: Parsed<Expression>)
        requires
            self.wf(),
            k < self.toks@.len(),
            self.tok(k as int) == Tok::Word("while"@),
        ensures
            self.advanced(k, r, true),
            r matches Ok((e, q)) ==> derives_expr(self.view(k as int, q as int), e),
            self.ends_closed(while_end(self.src@, self.toks@, k as int), k as int) ==> (r matches Ok((_, q)) && q
                == while_end(self.src@, self.toks@, k as int)),
        decreases self.toks@.len() - k, 25u8,
    {
        let start = self.position(k);
        let (condition, k1) = self.parse_condition(k + 1)?;
        let (body, k2) = self.parse_expr_body(k1)?;
        let mut pos = k2;
        let mut else_body: Option<ExprBody> = None;
        if self.is_word(pos, "else") {
            let (b, q) = self.parse_expr_body(pos + 1)?;
            proof {
                self.lemma_cons(pos as int, q as int);
                crate::derivation::lemma_else(self.view(pos + 1, q as int), b);
            }
            else_body = Some(b);
            pos = q;
        } else {
            proof {
                self.lemma_empty(pos as int);
            }
        }
        let span = join(start, self.position(pos - 1));
        let node = WhileExpr { condition, body, else_body, span };
        proof {
            self.lemma_split(k as int, k2 as int, pos as int);
            self.lemma_split(k as int, k1 as int, k2 as int);
            self.lemma_snoc(k as int, k1 - 1);
            self.lemma_split(k as int, k + 2, k1 - 1);
            self.lemma_snoc(k as int, k + 1);
            self.lemma_one(k as int);
            assert(self.view(k as int, pos as int) == word("while"@) + sym("("@) + self.view(k + 2, k1 - 1) + sym(
                ")"@,
            ) + self.view(k1 as int, k2 as int) + self.view(k2 as int, pos as int));
            crate::derivation::lemma_while(
                self.view(k + 2, k1 - 1),
                self.view(k1 as int, k2 as int),
                self.view(k2 as int, pos as int),
                node,
            );
        }
        Ok((Expression::While(Box::new(node)), pos))
    }

    /// `for := "for" "(" ID "in" expr ")" expr-body`
    fn parse_for(&self, k: usize) -> (r: Parsed<Expression>)
        requires
            self.wf(),
            k < self.toks@.len(),
            self.tok(k as int) == Tok::Word("for"@),
        ensures
            self.advanced(k, r, true),
            r matches Ok((e, q)) ==> derives_expr(self.view(k as int, q as int), e),
            self.ends_closed(for_end(self.src@, self.toks@, k as int), k as int) ==> (r matches Ok((_, q)) && q
                == for_end(self.src@, self.toks@, k as int)),
        decreases self.toks@.len() - k, 25u8,
    {
        let start = self.position(k);
        let k1 = self.expect(k + 1, "(")?;
        let (var, _) = self.expect_name(k1)?;
        if !self.is_word(k1 + 1, "in") {
            return self.fail(k1 + 1, vec!["in"]);
        }
        let (iterable, k2) = self.parse_expr(k1 + 2)?;
        let k3 = self.expect(k2, ")")?;
        let (body, k4) = self.parse_expr_body(k3)?;
        let span = join(start, self.position(k4 - 1));
        let node = ForExpr { var, iterable, body, span };
        proof {
            self.lemma_split(k as int, k3 as int, k4 as int);
            self.lemma_snoc(k as int, k2 as int);
            self.lemma_split(k as int, k + 4, k2 as int);
            self.lemma_snoc(k as int, k + 3);
            self.lemma_snoc(k as int, k + 2);
            self.lemma_snoc(k as int, k + 1);
            self.lemma_one(k as int);
            assert(self.view(k as int, k4 as int) == word("for"@) + sym("("@) + word(node.var@) + word("in"@)
                + self.view(k + 4, k2 as int) + sym(")"@) + self.view(k3 as int, k4 as int));
            crate::derivation::lemma_for(self.view(k + 4, k2 as int), self.view(k3 as int, k4 as int), node);
        }
        Ok((Expression::For(Box::new(node)), k4))
    }

    /// A branch of `case`: `ID ":" ID "->" expr-body`.
    fn parse_branch(&self, k: usize) -> (r: Parsed<CaseBranch>)
        requires
            self.wf(),
            k <= self.toks@.len(),
        ensures
            self.advanced(k, r, true),
            r matches Ok((b, q)) ==> derives_branch(self.view(k as int, q as int), b),
            self.ends_closed(branch_end(self.src@, self.toks@, k as int), k as int) ==> (r matches Ok((_, q)) && q
                == branch_end(self.src@, self.toks@, k as int)),
        decreases self.toks@.len() - k, 24u8,
    {
        let (name, p) = self.expect_name(k)?;
        let k1 = self.expect(k + 1, ":")?;
        let (type_ident, _) = self.expect_name(k1)?;
        let k2 = self.expect(k1 + 1, "->")?;
        let (body, k3) = self.parse_expr_body(k2)?;
        let span = join(p, self.position(k3 - 1));
        let node = CaseBranch { name, type_ident, body, span };
        proof {
            self.lemma_split(k as int, k2 as int, k3 as int);
            self.lemma_snoc(k as int, k + 3);
            self.lemma_snoc(k as int, k + 2);
            self.lemma_snoc(k as int, k + 1);
            self.lemma_one(k as int);
            assert(self.view(k as int, k3 as int) == word(node.name@) + sym(":"@) + word(node.type_ident@) + sym(
                "->"@,
            ) + self.view(k2 as int, k3 as int));
            crate::derivation::lemma_branch(self.view(k2 as int, k3 as int), node);
        }
        Ok((node, k3))
    }

    /// `case := "case" expr "of" ( branch | "{" ( branch ";" )* "}" )`
    fn parse_case(&self, k: usize) -> (r: Parsed<Expression>)
        requires
            self.wf(),
            k < self.toks@.len(),
            self.tok(k as int) == Tok::Word("case"@),
        ensures
            self.advanced(k, r, true),
            r matches Ok((e, q)) ==> derives_expr(self.view(k as int, q as int), e),
            self.ends_closed(case_end(self.src@, self.toks@, k as int), k as int) ==> (r matches Ok((_, q)) && q
                == case_end(self.src@, self.toks@, k as int)),
        decreases self.toks@.len() - k, 25u8,
    {
        let start = self.position(k);
        let (expr, k1) = self.parse_expr(k + 1)?;
        if !self.is_word(k1, "of") {
            return self.fail(k1, vec!["of"]);
        }
        let mut branches: Vec<CaseBranch> = Vec::new();
        let mut pos = k1 + 1;
        if self.is_sym(pos, "{") {
            pos = pos + 1;
            proof {
                self.lemma_empty(k1 + 2);
            }
            while !self.is_sym(pos, "}")
                invariant
                    self.wf(),
                    k < k1,
                    k1 + 2 <= pos <= self.toks@.len(),
                    derives_branch_list(self.view(k1 + 2, pos as int), branches@),
                    self.ends_closed(case_end(self.src@, self.toks@, k as int), k as int) ==> branches_end(
                        self.src@,
                        self.toks@,
                        pos as int,
                    ) == case_end(self.src@, self.toks@, k as int) && sym_tok(self.src@, self.toks@, k1 + 1, "{"@),
                decreases self.toks@.len() - pos,
            {
                let (b, q) = self.parse_branch(pos)?;
                let q1 = self.expect(q, ";")?;
                proof {
                    self.lemma_split(k1 + 2, pos as int, q as int);
                    self.lemma_snoc(k1 + 2, q as int);
                    assert(self.view(k1 + 2, q1 as int) == self.view(k1 + 2, pos as int) + self.view(
                        pos as int,
                        q as int,
                    ) + sym(";"@));
                    crate::derivation::lemma_branch_list_push(
                        self.view(k1 + 2, pos as int),
                        self.view(pos as int, q as int),
                        branches@,
                        b,
                    );
                }
                branches.push(b);
                pos = q1;
            }
            proof {
                self.lemma_cons(k1 + 1, pos as int);
                self.lemma_snoc(k1 + 1, pos as int);
                assert(self.view(k1 + 1, pos + 1) == sym("{"@) + self.view(k1 + 2, pos as int) + sym("}"@));
                crate::derivation::lemma_case_braced(self.view(k1 + 2, pos as int), branches@);
            }
            pos = pos + 1;
        } else {
            let (b, q) = self.parse_branch(pos)?;
            let ghost bg = b;
            proof {
                crate::derivation::lemma_case_single(self.view(k1 + 1, q as int), b);
            }
            branches.push(b);
            assert(branches@ =~= seq![bg]);
            pos = q;
        }
        let span = join(start, self.position(pos - 1));
        let node = CaseExpr { expr, branches, span };
        proof {
            self.lemma_split(k as int, k1 + 1, pos as int);
            self.lemma_snoc(k as int, k1 as int);
            self.lemma_cons(k as int, k1 as int);
            assert(self.view(k as int, pos as int) == word("case"@) + self.view(k + 1, k1 as int) + word("of"@)
                + self.view(k1 + 1, pos as int));
            crate::derivation::lemma_case(self.view(k + 1, k1 as int), self.view(k1 + 1, pos as int), node);
        }
        Ok((Expression::Case(Box::new(node)), pos))
    }
}

impl<'a> Parser<'a> {
    /// `params := [ param ( "," param )* ]`, `param := ID [ ":" ID ]`
    fn parse_params(&self, k: usize) -> (r: Parsed<Vec<Param>>)
        requires
            self.wf(),
            k <= self.toks@.len(),
        ensures
            self.advanced(k, r, false),
            r matches Ok((ps, q)) ==> derives_params(self.view(k as int, q as int), ps@),
            k <= params_end(self.src@, self.toks@, k as int) ==> (r matches Ok((_, q)) && q == params_end(
                self.src@,
                self.toks@,
                k as int,
            )),
    {
        let mut params: Vec<Param> = Vec::new();
        if !self.is_name(k) {
            proof {
                self.lemma_empty(k as int);
            }
            return Ok((params, k));
        }
        let mut pos = k;
        loop
            invariant
                self.wf(),
                k <= pos <= self.toks@.len(),
                params@.len() == 0 ==> pos == k,
                k <= params_end(self.src@, self.toks@, k as int) ==> param_list_end(self.src@, self.toks@, pos as int)
                    == params_end(self.src@, self.toks@, k as int),
                params@.len() > 0 ==> k < pos && self.tok(pos - 1) == Tok::Sym(","@) && derives_params(
                    self.view(k as int, pos - 1),
                    params@,
                ),
            decreases self.toks@.len() - pos,
        {
            let (name, p) = self.expect_name(pos)?;
            let mut q = pos + 1;
            let mut type_ann: Option<String> = None;
            let mut span = p;
            if self.is_sym(q, ":") {
                let (t, tp) = self.expect_name(q + 1)?;
                type_ann = Some(t);
                span = join(p, tp);
                q = q + 2;
            }
            let param = Param { name, type_ann, span };
            proof {
                self.lemma_annotated(pos as int, q as int, param.name@, param.type_ann);
                let ps = params@.push(param);
                if params@.len() == 0 {
                    assert(ps[0] == param);
                    assert(derives_params(self.view(k as int, q as int), ps));
                } else {
                    self.lemma_split(k as int, pos as int, q as int);
                    self.lemma_snoc(k as int, pos - 1);
                    assert(ps.last() == param);
                    assert(ps.drop_last() =~= params@);
                    assert(self.view(k as int, q as int) == self.view(k as int, pos - 1) + sym(","@) + param_toks(
                        ps.last(),
                    ));
                    assert(derives_params(self.view(k as int, q as int), ps));
                }
            }
            params.push(param);
            if self.is_sym(q, ",") {
                pos = q + 1;
            } else {
                return Ok((params, q));
            }
        }
    }

    /// `[ ":" ID ]`, a return type annotation.
    fn parse_return_type(&self, k: usize) -> (r: Parsed<Option<String>>)
        requires
            self.wf(),
            k <= self.toks@.len(),
        ensures
            self.advanced(k, r, false),
            r matches Ok((t, q)) ==> self.view(k as int, q as int) == annotation(t)
                && crate::derivation::annotation_ok(t),
            k <= ret_end(self.src@, self.toks@, k as int) ==> (r matches Ok((_, q)) && q == ret_end(
                self.src@,
                self.toks@,
                k as int,
            )),
    {
        if self.is_sym(k, ":") {
            let (t, _) = self.expect_name(k + 1)?;
            proof {
                self.lemma_view_at(k as int, k + 2);
                assert(self.view(k as int, k + 2) =~= annotation(Some(t)));
            }
            Ok((Some(t), k + 2))
        } else {
            proof {
                self.lemma_empty(k as int);
            }
            Ok((None, k))
        }
    }

    /// `body := "->" expr ";" | "{" ( expr ";" )+ "}"`
    fn parse_fn_body(&self, k: usize) -> (r: Parsed<Body>)
        requires
            self.wf(),
            k <= self.toks@.len(),
        ensures
            self.advanced(k, r, true),
            r matches Ok((b, q)) ==> derives_fn_body(self.view(k as int, q as int), b),
            k < fn_body_end(self.src@, self.toks@, k as int) ==> (r matches Ok((_, q)) && q == fn_body_end(
                self.src@,
                self.toks@,
                k as int,
            )),
    {
        if self.is_sym(k, "->") {
            let (e, k1) = self.parse_expr(k + 1)?;
            let k2 = self.expect(k1, ";")?;
            proof {
                self.lemma_cons(k as int, k1 as int);
                self.lemma_snoc(k as int, k1 as int);
                assert(self.view(k as int, k2 as int) == sym("->"@) + self.view(k + 1, k1 as int) + sym(";"@));
            }
            let body = Body::Inline(e);
            assert(derives_fn_body(self.view(k as int, k2 as int), body));
            Ok((body, k2))
        } else if self.is_sym(k, "{") {
            let (exprs, k1) = self.parse_block(k + 1)?;
            proof {
                self.lemma_cons(k as int, k1 - 1);
                self.lemma_snoc(k as int, k1 - 1);
                assert(self.view(k as int, k1 as int) == sym("{"@) + self.view(k + 1, k1 - 1) + sym("}"@));
                crate::derivation::lemma_body_block(self.view(k + 1, k1 - 1), exprs);
            }
            Ok((Body::Block(exprs), k1))
        } else {
            self.fail(k, vec!["->", "{"])
        }
    }

    /// `ID "(" params ")" [ ":" ID ] body`, from the name on: the name, the
    /// parameters, the return type, the body and where it ends.
    fn parse_signature(&self, k: usize) -> (r: Result<(String, Vec<Param>, Option<String>, Body, usize), ParseFailure>)
        requires
            self.wf(),
            k <= self.toks@.len(),
        ensures
            match r {
                Ok((name, ps, ret, b, q)) => k < q <= self.toks@.len() && derives_signature(
                    self.view(k as int, q as int),
                    name@,
                    ps@,
                    ret,
                    b,
                ),
                Err(f) => failure_located(f, byte_len(self.src@)),
            },
            k < sig_end(self.src@, self.toks@, k as int) ==> (r matches Ok((_, _, _, _, q)) && q == sig_end(
                self.src@,
                self.toks@,
                k as int,
            )),
    {
        let (name, _) = self.expect_name(k)?;
        let k1 = self.expect(k + 1, "(")?;
        let (params, k2) = self.parse_params(k1)?;
        let k3 = self.expect(k2, ")")?;
        let (return_type, k4) = self.parse_return_type(k3)?;
        let (body, k5) = self.parse_fn_body(k4)?;
        proof {
            self.lemma_split(k as int, k4 as int, k5 as int);
            self.lemma_split(k as int, k3 as int, k4 as int);
            self.lemma_snoc(k as int, k2 as int);
            self.lemma_split(k as int, k + 2, k2 as int);
            self.lemma_snoc(k as int, k + 1);
            self.lemma_one(k as int);
            assert(self.view(k as int, k5 as int) == word(name@) + sym("("@) + self.view(k + 2, k2 as int) + sym(
                ")"@,
            ) + annotation(return_type) + self.view(k4 as int, k5 as int));
            assert(derives_signature(self.view(k as int, k5 as int), name@, params@, return_type, body));
        }
        Ok((name, params, return_type, body, k5))
    }

    /// `function := "function" ID "(" params ")" [ ":" ID ] body`
    fn parse_function(&self, k: usize) -> (r: Parsed<FunctionDecl>)
        requires
            self.wf(),
            k < self.toks@.len(),
            self.tok(k as int) == Tok::Word("function"@),
        ensures
            self.advanced(k, r, true),
            r matches Ok((f, q)) ==> derives_function(self.view(k as int, q as int), f),
            k < function_end(self.src@, self.toks@, k as int) ==> (r matches Ok((_, q)) && q == function_end(
                self.src@,
                self.toks@,
                k as int,
            )),
    {
        let start = self.position(k);
        let (name, params, return_type, body, k5) = self.parse_signature(k + 1)?;
        let span = join(start, self.position(k5 - 1));
        let node = FunctionDecl { name, params, return_type, body, span };
        proof {
            self.lemma_cons(k as int, k5 as int);
            assert(self.view(k as int, k5 as int) == word("function"@) + self.view(k + 1, k5 as int));
            assert(derives_function(self.view(k as int, k5 as int), node));
        }
        Ok((node, k5))
    }

    /// `class := "class" ID [ "(" params ")" ] [ "is" ID [ "(" args ")" ] ] "{" attr* method* "}"`
    #[verifier::spinoff_prover]
    #[verifier::rlimit(100)]
    fn parse_class(&self, k: usize) -> (r: Parsed<ClassDecl>)
        requires
            self.wf(),
            k < self.toks@.len(),
            self.tok(k as int) == Tok::Word("class"@),
        ensures
            self.advanced(k, r, true),
            r matches Ok((c, q)) ==> derives_class(self.view(k as int, q as int), c),
            k < class_end(self.src@, self.toks@, k as int) ==> (r matches Ok((_, q)) && q == class_end(
                self.src@,
                self.toks@,
                k as int,
            )),
    {
        let start = self.position(k);
        let (name, _) = self.expect_name(k + 1)?;
        let mut pos = k + 2;
        let mut params: Vec<Param> = Vec::new();
        if self.is_sym(pos, "(") {
            let (ps, q) = self.parse_params(pos + 1)?;
            pos = self.expect(q, ")")?;
            proof {
                self.lemma_split(k + 2, k + 3, q as int);
                self.lemma_one(k + 2);
                self.lemma_snoc(k + 2, q as int);
                assert(self.view(k + 2, pos as int) == sym("("@) + self.view(k + 3, q as int) + sym(")"@));
            }
            params = ps;
        } else {
            proof {
                self.lemma_empty(k + 2);
            }
        }
        assert(crate::derivation::derives_class_params(self.view(k + 2, pos as int), params@));
        let p1 = pos;
        let mut parent: Option<String> = None;
        let mut parent_args: Vec<Expression> = Vec::new();
        if self.is_word(pos, "is") {
            let (p, _) = self.expect_name(pos + 1)?;
            proof {
                self.lemma_one(p1 as int);
                self.lemma_snoc(p1 as int, p1 + 1);
            }
            parent = Some(p);
            pos = pos + 2;
            assert(self.view(p1 as int, pos as int) == word("is"@) + word(parent->0@));
            if self.is_sym(pos, "(") {
                let (args, q) = self.parse_args(pos + 1)?;
                pos = self.expect(q, ")")?;
                proof {
                    self.lemma_split(p1 as int, p1 + 3, q as int);
                    self.lemma_snoc(p1 as int, p1 + 2);
                    self.lemma_snoc(p1 as int, q as int);
                    assert(self.view(p1 as int, pos as int) == word("is"@) + word(parent->0@) + sym("("@) + self.view(
                        p1 + 3,
                        q as int,
                    ) + sym(")"@));
                }
                parent_args = args;
                assert(crate::derivation::derives_parent(self.view(p1 as int, pos as int), parent, parent_args@));
            } else {
                assert(crate::derivation::derives_parent(self.view(p1 as int, pos as int), parent, parent_args@));
            }
        } else {
            proof {
                self.lemma_empty(p1 as int);
            }
        }
        assert(crate::derivation::derives_parent(self.view(p1 as int, pos as int), parent, parent_args@));
        let p2 = pos;
        pos = self.expect(pos, "{")?;
        let mut attributes: Vec<Attribute> = Vec::new();
        let mut methods: Vec<Method> = Vec::new();
        let mut p3 = pos;
        proof {
            self.lemma_empty(pos as int);
        }
        while !self.is_sym(pos, "}")
            invariant
                self.wf(),
                k + 2 <= p1 <= p2 < p3 <= pos <= self.toks@.len(),
                k < class_end(self.src@, self.toks@, k as int) ==> members_end(
                    self.src@,
                    self.toks@,
                    pos as int,
                    methods@.len() > 0,
                ) == class_end(self.src@, self.toks@, k as int),
                p3 == p2 + 1 ==> attributes@.len() == 0,
                derives_attributes(self.view(p2 + 1, p3 as int), attributes@),
                derives_methods(self.view(p3 as int, pos as int), methods@),
                methods@.len() == 0 ==> p3 == pos,
            decreases self.toks@.len() - pos,
        {
            let (member, p) = self.expect_name(pos)?;
            if self.is_sym(pos + 1, "(") {
                let (mname, mparams, return_type, body, q4) = self.parse_signature(pos)?;
                let span = join(p, self.position(q4 - 1));
                let m = Method { name: mname, params: mparams, return_type, body, span };
                proof {
                    let ms = methods@.push(m);
                    self.lemma_split(p3 as int, pos as int, q4 as int);
                    assert(ms.drop_last() =~= methods@);
                    assert(ms.last() == m);
                    assert(self.view(p3 as int, q4 as int) == self.view(p3 as int, pos as int) + self.view(
                        pos as int,
                        q4 as int,
                    ));
                    assert(crate::derivation::derives_methods(self.view(p3 as int, q4 as int), ms));
                }
                methods.push(m);
                pos = q4;
            } else {
                if methods.len() > 0 {
                    return self.fail(pos + 1, vec!["("]);
                }
                let mut q = pos + 1;
                let mut type_ann: Option<String> = None;
                if self.is_sym(q, ":") {
                    let (t, _) = self.expect_name(q + 1)?;
                    type_ann = Some(t);
                    q = q + 2;
                }
                let q1 = self.expect(q, "=")?;
                let (init, q2) = self.parse_expr(q1)?;
                let q3 = self.expect(q2, ";")?;
                let span = join(p, self.position(q3 - 1));
                let a = Attribute { name: member, type_ann, init, span };
                proof {
                    self.lemma_annotated(pos as int, q as int, a.name@, a.type_ann);
                    self.lemma_snoc(pos as int, q as int);
                    self.lemma_split(pos as int, q1 as int, q2 as int);
                    self.lemma_snoc(pos as int, q2 as int);
                    assert(self.view(pos as int, q3 as int) == word(a.name@) + annotation(a.type_ann) + sym("="@)
                        + self.view(q1 as int, q2 as int) + sym(";"@));
                    assert(crate::derivation::derives_attribute(self.view(pos as int, q3 as int), a));
                    let at = attributes@.push(a);
                    self.lemma_split(p2 + 1, pos as int, q3 as int);
                    assert(at.drop_last() =~= attributes@);
                    assert(at.last() == a);
                    assert(crate::derivation::derives_attributes(self.view(p2 + 1, q3 as int), at));
                    self.lemma_empty(q3 as int);
                }
                attributes.push(a);
                pos = q3;
                p3 = q3;
            }
        }
        let span = join(start, self.position(pos));
        let node = ClassDecl { name, params, parent, parent_args, attributes, methods, span };
        proof {
            self.lemma_snoc(k as int, pos as int);
            self.lemma_split(k as int, p3 as int, pos as int);
            self.lemma_split(k as int, p2 + 1, p3 as int);
            self.lemma_snoc(k as int, p2 as int);
            self.lemma_split(k as int, p1 as int, p2 as int);
            self.lemma_split(k as int, k + 2, p1 as int);
            self.lemma_snoc(k as int, k + 1);
            self.lemma_one(k as int);
            assert(self.view(k as int, pos + 1) == word("class"@) + word(node.name@) + self.view(k + 2, p1 as int)
                + self.view(p1 as int, p2 as int) + sym("{"@) + self.view(p2 + 1, p3 as int) + self.view(
                p3 as int,
                pos as int,
            ) + sym("}"@));
            assert(derives_class(self.view(k as int, pos + 1), node));
        }
        Ok((node, pos + 1))
    }

    /// `program := class* function* [ expr ";" | "{" ( expr ";" )+ "}" [ ";" ] ]`
    fn parse_program(&self) -> (r: Result<Program, ParseFailure>)
        requires
            self.wf(),
        ensures
            match r {
                Ok(p) => derives_program(self.view(0, self.toks@.len() as int), p) && p.span == Position::new_spec(
                    0,
                    byte_len(self.src@) as usize,
                ),
                Err(f) => failure_located(f, byte_len(self.src@)),
            },
            program_tokens(self.src@, self.toks@) ==> r is Ok,
    {
        let mut classes: Vec<ClassDecl> = Vec::new();
        let mut functions: Vec<FunctionDecl> = Vec::new();
        let mut pos: usize = 0;
        proof {
            self.lemma_empty(0);
        }
        while self.is_word(pos, "class")
            invariant
                self.wf(),
                pos <= self.toks@.len(),
                derives_classes(self.view(0, pos as int), classes@),
                program_tokens(self.src@, self.toks@) ==> classes_end(self.src@, self.toks@, pos as int) == classes_end(
                    self.src@,
                    self.toks@,
                    0,
                ),
            decreases self.toks@.len() - pos,
        {
            let (c, q) = self.parse_class(pos)?;
            proof {
                self.lemma_split(0, pos as int, q as int);
                assert(classes@.push(c).drop_last() =~= classes@);
                assert(self.view(0, q as int) == self.view(0, pos as int) + self.view(pos as int, q as int));
                assert(derives_classes(self.view(0, q as int), classes@.push(c)));
            }
            classes.push(c);
            pos = q;
        }
        let pc = pos;
        proof {
            self.lemma_empty(pc as int);
        }
        while self.is_word(pos, "function")
            invariant
                self.wf(),
                pc <= pos <= self.toks@.len(),
                derives_functions(self.view(pc as int, pos as int), functions@),
                program_tokens(self.src@, self.toks@) ==> pc == classes_end(self.src@, self.toks@, 0)
                    && functions_end(self.src@, self.toks@, pos as int) == functions_end(self.src@, self.toks@, pc as int),
            decreases self.toks@.len() - pos,
        {
            let (f, q) = self.parse_function(pos)?;
            proof {
                self.lemma_split(pc as int, pos as int, q as int);
                assert(functions@.push(f).drop_last() =~= functions@);
                assert(self.view(pc as int, q as int) == self.view(pc as int, pos as int) + self.view(
                    pos as int,
                    q as int,
                ));
                assert(derives_functions(self.view(pc as int, q as int), functions@.push(f)));
            }
            functions.push(f);
            pos = q;
        }
        let pf = pos;
        let mut entry: Option<ExprBody> = None;
        if pos < self.toks.len() {
            if self.is_sym(pos, "{") {
                let (exprs, q) = self.parse_block(pos + 1)?;
                let ghost x = self.view(pf as int, q as int);
                let ghost es = exprs@;
                proof {
                    self.lemma_cons(pf as int, q - 1);
                    self.lemma_snoc(pf as int, q - 1);
                    assert(x == sym("{"@) + self.view(pf + 1, q - 1) + sym("}"@));
                    crate::derivation::lemma_body_block(self.view(pf + 1, q - 1), exprs);
                    assert(derives_block(x, es));
                }
                if self.is_sym(q, ";") {
                    proof {
                        self.lemma_snoc(pf as int, q as int);
                    }
                    pos = q + 1;
                    assert(self.view(pf as int, pos as int) == x + sym(";"@));
                } else {
                    pos = q;
                    assert(self.view(pf as int, pos as int) == x);
                }
                entry = Some(ExprBody::Block(exprs));
                assert(derives_entry(self.view(pf as int, pos as int), entry));
            } else {
                let (e, q) = self.parse_expr(pos)?;
                pos = self.expect(q, ";")?;
                proof {
                    self.lemma_snoc(pf as int, q as int);
                    assert(self.view(pf as int, pos as int) == self.view(pf as int, q as int) + sym(";"@));
                }
                entry = Some(ExprBody::Single(Box::new(e)));
                assert(derives_entry(self.view(pf as int, pos as int), entry));
            }
        } else {
            proof {
                self.lemma_empty(pf as int);
            }
        }
        if pos < self.toks.len() {
            let t = self.toks[pos];
            proof {
                lemma_byte_offset_mono(self.src@, t.start as int, t.end as int);
                lemma_byte_offset_mono(self.src@, t.end as int, self.src@.len() as int);
            }
            return Err(
                ParseFailure::ExtraToken {
                    start: self.byte_at(t.start),
                    token: self.text(pos),
                    end: self.byte_at(t.end),
                },
            );
        }
        proof {
            lemma_byte_offset_mono(self.src@, 0, self.src@.len() as int);
        }
        let prog = Program { classes, functions, entry, span: Position::new(0, self.byte_at(self.src.len())) };
        proof {
            self.lemma_split(0, pf as int, pos as int);
            self.lemma_split(0, pc as int, pf as int);
            assert(self.view(0, pos as int) == self.view(0, pc as int) + self.view(pc as int, pf as int) + self.view(
                pf as int,
                pos as int,
            ));
            assert(derives_program(self.view(0, pos as int), prog));
        }
        Ok(prog)
    }

    /// A whole expression: `expr`, with no token after it.
    fn parse_whole_expression(&self) -> (r: Result<Expression, ParseFailure>)
        requires
            self.wf(),
        ensures
            match r {
                Ok(e) => derives_expr(self.view(0, self.toks@.len() as int), e),
                Err(f) => failure_located(f, byte_len(self.src@)),
            },
            expression_tokens(self.src@, self.toks@) ==> r is Ok,
    {
        proof {
            lemma_full_end(self.src@, self.toks@, 0);
        }
        let (e, pos) = self.parse_expr(0)?;
        if pos < self.toks.len() {
            let t = self.toks[pos];
            proof {
                lemma_byte_offset_mono(self.src@, t.start as int, t.end as int);
                lemma_byte_offset_mono(self.src@, t.end as int, self.src@.len() as int);
            }
            return Err(
                ParseFailure::ExtraToken {
                    start: self.byte_at(t.start),
                    token: self.text(pos),
                    end: self.byte_at(t.end),
                },
            );
        }
        Ok(e)
    }
}

/// `ts` lie inside a text of `n` characters, from `i` on, each at least
/// a character long, and there are at most as many as characters.
pub open spec fn tokens_ordered(ts: Seq<Token>, i: int, n: int) -> bool {
    &&& ts.len() <= n - i
    &&& forall|k: int| 0 <= k < ts.len() ==> i <= (#[trigger] ts[k]).start < ts[k].end <= n
}

proof fn lemma_prepend_ordered(t: Token, rest: Seq<Token>, i: int, n: int)
    requires
        i == t.start,
        t.start < t.end <= n,
        tokens_ordered(rest, t.end as int, n),
    ensures
        tokens_ordered(seq![t] + rest, i, n),
{
    let ts = seq![t] + rest;
    assert forall|k: int| 0 <= k < ts.len() implies i <= (#[trigger] ts[k]).start < ts[k].end <= n by {
        if k > 0 {
            assert(ts[k] == rest[k - 1]);
        }
    }
}

proof fn lemma_token_at_start(s: Seq<char>, i: int)
    requires
        0 <= i < s.len(),
        s.len() < usize::MAX,
    ensures
        crate::lexer::token_at(s, i) matches Some(t) ==> t.start as int == i,
{
}

/// The tokens of `s` from `i` on lie inside `s`, each at least a
/// character long.
pub proof fn law_tokens_in_source(s: Seq<char>, i: int)
    requires
        0 <= i <= s.len(),
        s.len() < usize::MAX,
    ensures
        spec_tokens(s, i) matches Ok(ts) ==> tokens_ordered(ts, i, s.len() as int),
    decreases s.len() - i,
{
    if i < s.len() {
        if crate::lexer::is_space(s[i]) {
            law_tokens_in_source(s, i + 1);
            match spec_tokens(s, i + 1) {
                Ok(ts) => {
                    assert forall|k: int| 0 <= k < ts.len() implies i <= (#[trigger] ts[k]).start < ts[k].end <= s.len() by {
                    }
                },
                Err(_) => {},
            }
        } else {
            lemma_token_at_start(s, i);
            match crate::lexer::token_at(s, i) {
                Some(t) => if !(t.end as int <= i || t.end as int > s.len()) {
                    law_tokens_in_source(s, t.end as int);
                    match spec_tokens(s, t.end as int) {
                        Ok(rest) => {
                            lemma_prepend_ordered(t, rest, i, s.len() as int);
                        },
                        Err(_) => {},
                    }
                },
                None => {},
            }
        }
    } else {
        assert(spec_tokens(s, i) == Ok::<Seq<Token>, int>(Seq::empty()));
    }
}

fn new_parser<'a>(input: &'a str) -> (r: Result<Parser<'a>, usize>)
    requires
        input@.len() < usize::MAX,
        byte_len(input@) < usize::MAX,
    ensures
        match r {
            Ok(p) => p.wf() && p.input == input && spec_tokens(input@, 0) == Ok::<Seq<Token>, int>(p.toks@)
                && p.view(0, p.toks@.len() as int) == toks_of(input@, p.toks@) && p.src@ == input@,
            Err(b) => spec_tokens(input@, 0) matches Err(pos) && b as int == byte_offset(input@, pos),
        },
{
    let src = chars_of(input);
    let bytes = byte_offsets(&src);
    match tokenize(&src) {
        Ok(toks) => {
            proof {
                law_tokens_in_source(src@, 0);
            }
            let p = Parser { input, src, bytes, toks };
            assert(tokens_ordered(p.toks@, 0, p.src@.len() as int));
            assert(p.toks@.subrange(0, p.toks@.len() as int) =~= p.toks@);
            assert forall|k: int| 0 <= k < p.toks@.len() implies (#[trigger] p.toks@[k]).start < p.toks@[k].end
                <= p.src@.len() by {}
            Ok(p)
        },
        Err(p) => {
            proof {
                crate::lexer::lemma_error_bound(input@, 0);
            }
            Err(bytes[p])
        },
    }
}

/// The position of the first character of `input` where no token starts,
/// if there is one.
pub open spec fn lexical_error(input: Seq<char>) -> Option<int> {
    match spec_tokens(input, 0) {
        Ok(_) => None,
        Err(p) => Some(p),
    }
}

/// Parses a whole HULK program.  A program it returns is one that the
/// tokens of the input derive in the grammar.  A text where no token can
/// start is reported as an invalid token at that place; any other failure
/// as the syntax error of a failure inside the source.  A text whose
/// tokens are a program in the forms that `program_tokens` describes is
/// parsed.
pub fn parse_program(input: &str) -> (r: Result<Program, SyntaxError>)
    requires
        input@.len() < usize::MAX,
        byte_len(input@) < usize::MAX,
    ensures
        r matches Ok(p) ==> spec_tokens(input@, 0) matches Ok(ts) && derives_program(toks_of(input@, ts), p)
            && p.span == Position::new_spec(0, byte_len(input@) as usize),
        spec_tokens(input@, 0) matches Ok(ts) && program_tokens(input@, ts) ==> r is Ok,
        r matches Err(e) ==> exists|f: ParseFailure| failure_located(f, byte_len(input@)) && spec_build_syntax_error(
            input@, f, e),
        lexical_error(input@) matches Some(p) ==> r matches Err(e) && spec_build_syntax_error(input@,
            ParseFailure::InvalidToken { location: byte_offset(input@, p) as usize }, e),
{
    match new_parser(input) {
        Err(p) => {
            let f = ParseFailure::InvalidToken { location: p };
            proof {
                crate::lexer::lemma_error_bound(input@, 0);
                if let Err(q) = spec_tokens(input@, 0) {
                    lemma_byte_offset_mono(input@, q, input@.len() as int);
                }
            }
            Err(build_syntax_error(input, &f))
        },
        Ok(parser) => match parser.parse_program() {
            Ok(prog) => Ok(prog),
            Err(f) => Err(build_syntax_error(input, &f)),
        },
    }
}

/// Parses a single HULK expression, with no token after it; the expression
/// it returns is one that the tokens of the input derive in the grammar.
/// Input whose tokens are an expression in the forms that
/// `expression_tokens` describes is parsed.
pub fn parse_expression(input: &str) -> (r: Result<Expression, SyntaxError>)
    requires
        input@.len() < usize::MAX,
        byte_len(input@) < usize::MAX,
    ensures
        r matches Ok(e) ==> spec_tokens(input@, 0) matches Ok(ts) && derives_expr(toks_of(input@, ts), e),
        spec_tokens(input@, 0) matches Ok(ts) && expression_tokens(input@, ts) ==> r is Ok,
        r matches Err(e) ==> exists|f: ParseFailure| failure_located(f, byte_len(input@)) && spec_build_syntax_error(
            input@, f, e),
        lexical_error(input@) matches Some(p) ==> r matches Err(e) && spec_build_syntax_error(input@,
            ParseFailure::InvalidToken { location: byte_offset(input@, p) as usize }, e),
{
    match new_parser(input) {
        Err(p) => {
            let f = ParseFailure::InvalidToken { location: p };
            proof {
                crate::lexer::lemma_error_bound(input@, 0);
                if let Err(q) = spec_tokens(input@, 0) {
                    lemma_byte_offset_mono(input@, q, input@.len() as int);
                }
            }
            Err(build_syntax_error(input, &f))
        },
        Ok(parser) => match parser.parse_whole_expression() {
            Ok(e) => Ok(e),
            Err(f) => Err(build_syntax_error(input, &f)),
        },
    }
}

} // verus!

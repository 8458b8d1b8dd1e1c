//! The tokens of HULK source text.
//!
//! Splits the characters of a source into identifiers (and keywords),
//! numbers, string literals and symbols, skipping whitespace, by longest
//! match.

use vstd::prelude::*;

verus! {

/// The kind of a token.
#[derive(Clone, Copy, Debug, PartialEq, Eq, Structural)]
pub enum TokenKind {
    /// A name or a keyword: a letter or `_`, then letters, digits, `_`.
    Ident,
    /// Digits, optionally followed by `.` and digits.
    Number,
    /// A string literal in double quotes (with `\"` and `\\` escapes).
    Str,
    /// An operator or punctuation sign.
    Symbol,
}

/// A token: its kind and where its text lies in the source.
#[derive(Clone, Copy, Debug, PartialEq, Eq, Structural)]
pub struct Token {
    pub kind: TokenKind,
    pub start: usize,
    pub end: usize,
}

pub open spec fn is_space(c: char) -> bool {
    c == ' ' || c == '\t' || c == '\n' || c == '\r'
}

pub open spec fn is_digit(c: char) -> bool {
    '0' <= c <= '9'
}

pub open spec fn is_ident_start(c: char) -> bool {
    ('a' <= c <= 'z') || ('A' <= c <= 'Z') || c == '_'
}

pub open spec fn is_ident_char(c: char) -> bool {
    is_ident_start(c) || is_digit(c)
}

/// The signs that can be the first character of a symbol.
pub open spec fn is_symbol_start(c: char) -> bool {
    c == '+' || c == '-' || c == '*' || c == '/' || c == '%' || c == '^' || c == '=' || c == '!' || c == '<'
        || c == '>' || c == '&' || c == '|' || c == '@' || c == ':' || c == ';' || c == ',' || c == '.'
        || c == '(' || c == ')' || c == '{' || c == '}' || c == '[' || c == ']'
}

/// The length of the symbol at `i`: two characters for `==`, `!=`, `<=`,
/// `>=`, `:=`, `->`, `@@`, else one.
pub open spec fn symbol_len(s: Seq<char>, i: int) -> int {
    if i + 1 < s.len() && ((s[i] == '=' && s[i + 1] == '=') || (s[i] == '!' && s[i + 1] == '=') || (s[i] == '<'
        && s[i + 1] == '=') || (s[i] == '>' && s[i + 1] == '=') || (s[i] == ':' && s[i + 1] == '=') || (s[i] == '-'
        && s[i + 1] == '>') || (s[i] == '@' && s[i + 1] == '@')) {
        2
    } else {
        1
    }
}

/// The end of the run of characters satisfying `p` from `i`.
pub open spec fn run_end(s: Seq<char>, i: int, p: spec_fn(char) -> bool) -> int
    decreases s.len() - i,
{
    if i < 0 || i >= s.len() || !p(s[i]) {
        i
    } else {
        run_end(s, i + 1, p)
    }
}

/// The end of the number starting at `i`: digits, then `.` and digits if
/// a digit follows the dot.
pub open spec fn number_end(s: Seq<char>, i: int) -> int {
    let e = run_end(s, i, |c: char| is_digit(c));
    if e + 1 < s.len() && s[e] == '.' && is_digit(s[e + 1]) {
        run_end(s, e + 1, |c: char| is_digit(c))
    } else {
        e
    }
}

/// The end of the string literal whose opening quote is at `i`, searching
/// from `j`: just past the closing quote, or none if it is not closed.
pub open spec fn string_end(s: Seq<char>, j: int) -> Option<int>
    decreases s.len() - j,
{
    if j < 0 || j >= s.len() {
        None
    } else if s[j] == '"' {
        Some(j + 1)
    } else if s[j] == '\\' && j + 1 < s.len() {
        string_end(s, j + 2)
    } else {
        string_end(s, j + 1)
    }
}

/// The token that starts at `i` (a non-space character), if any.
pub open spec fn token_at(s: Seq<char>, i: int) -> Option<Token> {
    let c = s[i];
    if is_ident_start(c) {
        Some(Token { kind: TokenKind::Ident, start: i as usize, end: run_end(s, i, |c: char| is_ident_char(c)) as usize })
    } else if is_digit(c) {
        Some(Token { kind: TokenKind::Number, start: i as usize, end: number_end(s, i) as usize })
    } else if c == '"' {
        match string_end(s, i + 1) {
            Some(e) => Some(Token { kind: TokenKind::Str, start: i as usize, end: e as usize }),
            None => None,
        }
    } else if is_symbol_start(c) {
        Some(Token { kind: TokenKind::Symbol, start: i as usize, end: (i + symbol_len(s, i)) as usize })
    } else {
        None
    }
}

/// The tokens of `s` from position `i` on, or the position of the first
/// character where no token starts.
pub open spec fn spec_tokens(s: Seq<char>, i: int) -> Result<Seq<Token>, int>
    decreases s.len() - i,
{
    if i < 0 || i >= s.len() {
        Ok(Seq::empty())
    } else if is_space(s[i]) {
        spec_tokens(s, i + 1)
    } else {
        match token_at(s, i) {
            None => Err(i),
            Some(t) => if t.end as int <= i || t.end as int > s.len() {
                Err(i)
            } else {
                match spec_tokens(s, t.end as int) {
                    Ok(rest) => Ok(seq![t] + rest),
                    Err(p) => Err(p),
                }
            },
        }
    }
}

proof fn lemma_run_end(s: Seq<char>, i: int, p: spec_fn(char) -> bool)
    requires
        0 <= i <= s.len(),
    ensures
        i <= run_end(s, i, p) <= s.len(),
        forall|k: int| i <= k < run_end(s, i, p) ==> p(s[k]),
        run_end(s, i, p) < s.len() ==> !p(s[run_end(s, i, p)]),
    decreases s.len() - i,
{
    if i < s.len() && p(s[i]) {
        lemma_run_end(s, i + 1, p);
    }
}

proof fn lemma_string_end(s: Seq<char>, j: int)
    requires
        0 <= j,
    ensures
        string_end(s, j) matches Some(e) ==> j < e <= s.len(),
    decreases s.len() - j,
{
    if j < s.len() && s[j] != '"' {
        if s[j] == '\\' && j + 1 < s.len() {
            lemma_string_end(s, j + 2);
        } else {
            lemma_string_end(s, j + 1);
        }
    }
}

fn in_run(c: char, digits_only: bool) -> (r: bool)
    ensures
        r == (if digits_only { is_digit(c) } else { is_ident_char(c) }),
{
    if digits_only {
        '0' <= c && c <= '9'
    } else {
        ('a' <= c && c <= 'z') || ('A' <= c && c <= 'Z') || c == '_' || ('0' <= c && c <= '9')
    }
}

fn scan_run(s: &Vec<char>, i: usize, digits_only: bool) -> (e: usize)
    requires
        i <= s.len(),
    ensures
        digits_only ==> e == run_end(s@, i as int, |c: char| is_digit(c)),
        !digits_only ==> e == run_end(s@, i as int, |c: char| is_ident_char(c)),
{
    let ghost p: spec_fn(char) -> bool = if digits_only { |c: char| is_digit(c) } else { |c: char| is_ident_char(c) };
    let mut j = i;
    while j < s.len() && in_run(s[j], digits_only)
        invariant
            i <= j <= s.len(),
            run_end(s@, i as int, p) == run_end(s@, j as int, p),
            digits_only ==> p == (|c: char| is_digit(c)),
            !digits_only ==> p == (|c: char| is_ident_char(c)),
        decreases s.len() - j,
    {
        j = j + 1;
    }
    j
}

fn symbol_length(s: &Vec<char>, i: usize) -> (n: usize)
    requires
        i < s.len(),
    ensures
        n as int == symbol_len(s@, i as int),
{
    if i + 1 < s.len() {
        let a = s[i];
        let b = s[i + 1];
        if (a == '=' && b == '=') || (a == '!' && b == '=') || (a == '<' && b == '=') || (a == '>' && b == '=') || (a
            == ':' && b == '=') || (a == '-' && b == '>') || (a == '@' && b == '@') {
            return 2;
        }
    }
    1
}

fn is_symbol_char(c: char) -> (r: bool)
    ensures
        r == is_symbol_start(c),
{
    c == '+' || c == '-' || c == '*' || c == '/' || c == '%' || c == '^' || c == '=' || c == '!' || c == '<' || c
        == '>' || c == '&' || c == '|' || c == '@' || c == ':' || c == ';' || c == ',' || c == '.' || c == '(' || c
        == ')' || c == '{' || c == '}' || c == '[' || c == ']'
}

fn scan_string(s: &Vec<char>, j: usize) -> (r: Option<usize>)
    requires
        j <= s.len(),
    ensures
        match r {
            Some(e) => string_end(s@, j as int) == Some(e as int),
            None => string_end(s@, j as int) is None,
        },
{
    let mut k = j;
    while k < s.len()
        invariant
            j <= k,
            k <= s.len() + 1,
            string_end(s@, j as int) == string_end(s@, k as int),
        decreases s.len() - k,
    {
        if s[k] == '"' {
            return Some(k + 1);
        }
        if s[k] == '\\' && k + 1 < s.len() {
            k = k + 2;
        } else {
            k = k + 1;
        }
    }
    None
}

/// The token that starts at `i`, if any.
fn next_token(s: &Vec<char>, i: usize) -> (r: Option<Token>)
    requires
        i < s.len(),
    ensures
        r == token_at(s@, i as int),
{
    let c = s[i];
    if ('a' <= c && c <= 'z') || ('A' <= c && c <= 'Z') || c == '_' {
        let e = scan_run(s, i, false);
        Some(Token { kind: TokenKind::Ident, start: i, end: e })
    } else if '0' <= c && c <= '9' {
        let mut e = scan_run(s, i, true);
        proof {
            lemma_run_end(s@, i as int, |c: char| is_digit(c));
        }
        if e < s.len() && e + 1 < s.len() && s[e] == '.' && '0' <= s[e + 1] && s[e + 1] <= '9' {
            e = scan_run(s, e + 1, true);
        }
        Some(Token { kind: TokenKind::Number, start: i, end: e })
    } else if c == '"' {
        match scan_string(s, i + 1) {
            Some(e) => Some(Token { kind: TokenKind::Str, start: i, end: e }),
            None => None,
        }
    } else if is_symbol_char(c) {
        let n = symbol_length(s, i);
        Some(Token { kind: TokenKind::Symbol, start: i, end: i + n })
    } else {
        None
    }
}

/// Splits a source into tokens, skipping whitespace; on a character where
/// no token starts (or an unclosed string), returns its position.
pub fn tokenize(s: &Vec<char>) -> (r: Result<Vec<Token>, usize>)
    ensures
        match r {
            Ok(ts) => spec_tokens(s@, 0) == Ok::<Seq<Token>, int>(ts@),
            Err(p) => spec_tokens(s@, 0) == Err::<Seq<Token>, int>(p as int),
        },
{
    let mut out: Vec<Token> = Vec::new();
    let mut i: usize = 0;
    assert(out@ + Seq::<Token>::empty() =~= out@);
    while i < s.len()
        invariant
            i <= s.len(),
            spec_tokens(s@, 0) == match spec_tokens(s@, i as int) {
                Ok(rest) => Ok::<Seq<Token>, int>(out@ + rest),
                Err(p) => Err::<Seq<Token>, int>(p),
            },
        decreases s.len() - i,
    {
        let c = s[i];
        if c == ' ' || c == '\t' || c == '\n' || c == '\r' {
            i = i + 1;
        } else {
            match next_token(s, i) {
                None => {
                    return Err(i);
                },
                Some(t) => {
                    proof {
                        lemma_run_end(s@, i as int, |c: char| is_ident_char(c));
                        lemma_run_end(s@, i as int, |c: char| is_digit(c));
                        let e = run_end(s@, i as int, |c: char| is_digit(c));
                        if e + 1 < s@.len() {
                            lemma_run_end(s@, e + 1, |c: char| is_digit(c));
                        }
                        lemma_string_end(s@, i + 1);
                    }
                    if t.end <= i || t.end > s.len() {
                        return Err(i);
                    }
                    let ghost before = out@;
                    out.push(t);
                    proof {
                        match spec_tokens(s@, t.end as int) {
                            Ok(rest) => {
                                assert(before + (seq![t] + rest) =~= out@ + rest);
                            },
                            Err(p) => {},
                        }
                    }
                    i = t.end;
                }
            }
        }
    }
    Ok(out)
}

/// The two-character operators of the language: `==`, `!=`, `<=`, `>=`,
/// `:=`, `->` and `@@`.
pub open spec fn is_two_char_operator(a: char, b: char) -> bool {
    ||| a == '=' && b == '='
    ||| a == '!' && b == '='
    ||| a == '<' && b == '='
    ||| a == '>' && b == '='
    ||| a == ':' && b == '='
    ||| a == '-' && b == '>'
    ||| a == '@' && b == '@'
}

/// Each two-character operator of the language is read as one symbol
/// token spanning both characters, and it is the first token of the text
/// from there on.
pub proof fn law_two_char_symbols(s: Seq<char>, i: int)
    requires
        0 <= i,
        i + 1 < s.len(),
        is_two_char_operator(s[i], s[i + 1]),
    ensures
        ({
            let t = Token { kind: TokenKind::Symbol, start: i as usize, end: (i + 2) as usize };
            &&& token_at(s, i) == Some(t)
            &&& spec_tokens(s, i) matches Ok(ts) ==> ts.len() > 0 && ts[0] == t
        }),
{
}

/// A sign that does not begin a two-character operator with the character
/// after it (or is the last character) is a symbol token of its own, one
/// character long, and the first token of the text from there on.
pub proof fn law_one_char_symbols(s: Seq<char>, i: int)
    requires
        0 <= i < s.len(),
        is_symbol_start(s[i]),
        i + 1 < s.len() ==> !is_two_char_operator(s[i], s[i + 1]),
    ensures
        ({
            let t = Token { kind: TokenKind::Symbol, start: i as usize, end: (i + 1) as usize };
            &&& token_at(s, i) == Some(t)
            &&& spec_tokens(s, i) matches Ok(ts) ==> ts.len() > 0 && ts[0] == t
        }),
{
}

/// A name starts with a letter or `_` and runs over letters, digits and
/// `_` as far as they go: that whole run is one identifier token.
pub proof fn law_identifier_token(s: Seq<char>, i: int)
    requires
        0 <= i < s.len(),
        s.len() <= usize::MAX,
        ('a' <= s[i] <= 'z') || ('A' <= s[i] <= 'Z') || s[i] == '_',
    ensures
        token_at(s, i) matches Some(t) && t.kind == TokenKind::Ident && t.start as int == i && i < t.end <= s.len()
            && (forall|k: int| i <= k < t.end ==> ('a' <= #[trigger] s[k] <= 'z') || ('A' <= s[k] <= 'Z') || s[k]
            == '_' || ('0' <= s[k] <= '9')) && (t.end < s.len() ==> !(('a' <= s[t.end as int] <= 'z') || ('A'
            <= s[t.end as int] <= 'Z') || s[t.end as int] == '_' || ('0' <= s[t.end as int] <= '9'))),
{
    lemma_run_end(s, i, |c: char| is_ident_char(c));
}

/// A number starts with a digit and runs over the digits that follow,
/// then over a `.` and the digits after it when a digit follows the dot:
/// that whole run is one number token, with at most one dot, each dot
/// followed by a digit.
pub proof fn law_number_token(s: Seq<char>, i: int)
    requires
        0 <= i < s.len(),
        s.len() <= usize::MAX,
        '0' <= s[i] <= '9',
    ensures
        token_at(s, i) matches Some(t) && t.kind == TokenKind::Number && t.start as int == i && i < t.end <= s.len()
            && (forall|k: int| i <= k < t.end ==> ('0' <= #[trigger] s[k] <= '9') || (s[k] == '.' && k + 1 < t.end
            && '0' <= s[k + 1] <= '9')) && (forall|k1: int, k2: int| i <= k1 < t.end && i <= k2 < t.end && #[trigger] s[k1]
            == '.' && #[trigger] s[k2] == '.' ==> k1 == k2) && (t.end < s.len() ==> !('0' <= s[t.end as int] <= '9'))
            && (t.end + 1 < s.len() && s[t.end as int] == '.' && '0' <= s[t.end + 1] <= '9' ==> exists|k: int|
            i <= k < t.end && #[trigger] s[k] == '.'),
{
    let d = |c: char| is_digit(c);
    lemma_run_end(s, i, d);
    let e = run_end(s, i, d);
    if e + 1 < s.len() && s[e] == '.' && is_digit(s[e + 1]) {
        lemma_run_end(s, e + 1, d);
        let f = run_end(s, e + 1, d);
        assert(number_end(s, i) == f);
        assert forall|k1: int, k2: int| i <= k1 < f && i <= k2 < f && #[trigger] s[k1] == '.' && #[trigger] s[k2]
            == '.' implies k1 == k2 by {
            if k1 != e {
                assert(d(s[k1]));
            }
            if k2 != e {
                assert(d(s[k2]));
            }
        }
        assert forall|k: int| i <= k < f implies ('0' <= #[trigger] s[k] <= '9') || (s[k] == '.' && k + 1 < f && '0'
            <= s[k + 1] <= '9') by {
            if k != e {
                assert(d(s[k]));
            }
        }
        if f + 1 < s.len() && s[f] == '.' && '0' <= s[f + 1] <= '9' {
            assert(s[e] == '.');
        }
    } else {
        assert(number_end(s, i) == e);
        assert forall|k: int| i <= k < e implies ('0' <= #[trigger] s[k] <= '9') || (s[k] == '.' && k + 1 < e && '0'
            <= s[k + 1] <= '9') by {
            assert(d(s[k]));
        }
        assert forall|k1: int, k2: int| i <= k1 < e && i <= k2 < e && #[trigger] s[k1] == '.' && #[trigger] s[k2]
            == '.' implies k1 == k2 by {
            assert(d(s[k1]));
        }
        if e < s.len() {
            assert(!d(s[e]));
        }
    }
}

/// A lexical error lies inside the source.
pub proof fn lemma_error_bound(s: Seq<char>, i: int)
    requires
        0 <= i,
    ensures
        spec_tokens(s, i) matches Err(p) ==> i <= p < s.len(),
    decreases s.len() - i,
{
    if 0 <= i < s.len() {
        if is_space(s[i]) {
            lemma_error_bound(s, i + 1);
        } else {
            match token_at(s, i) {
                Some(t) => if !(t.end as int <= i || t.end as int > s.len()) {
                    lemma_error_bound(s, t.end as int);
                },
                None => {},
            }
        }
    }
}

} // verus!

//! Syntax errors: where they occur, what was expected and found, and
//! their rendering as terminal diagnostics.

use vstd::prelude::*;
use vstd::string::*;
use crate::text::{str_eq, decimal, spec_decimal, nth_line, spec_nth_line, spec_offset_line_col,
    repeat_str, spec_repeat, chars_of, line_col_at};
use crate::semantic::errors::{RED, YELLOW, CYAN, BLUE, BOLD, RESET, text3, text5, text7,
    location_text, gutter_text, spec_location, spec_gutter, gutter_width, max_int};
use crate::semantic::symbol_table::{contains_string, string_views};

verus! {

/// A readable position: line and column (1-based) and the offset.
#[derive(Clone, Copy, Debug)]
pub struct SourceLocation {
    pub line: usize,
    pub column: usize,
    pub offset: usize,
}

/// The kind of a syntax error.
#[derive(Clone, Copy, Debug)]
pub enum SyntaxErrorKind {
    /// A token that no rule expects here.
    UnrecognizedToken,
    /// Text that is no token.
    InvalidToken,
    /// The end of the input came too early.
    UnexpectedEOF,
    /// A token after a complete program.
    ExtraToken,
}

pub open spec fn spec_kind_text(k: SyntaxErrorKind) -> Seq<char> {
    match k {
        SyntaxErrorKind::UnrecognizedToken => "Token inesperado"@,
        SyntaxErrorKind::InvalidToken => "Token inválido"@,
        SyntaxErrorKind::UnexpectedEOF => "Fin de archivo inesperado"@,
        SyntaxErrorKind::ExtraToken => "Token extra no esperado"@,
    }
}

impl SyntaxErrorKind {
    /// The description of the kind, as the diagnostic's title shows it.
    pub fn text(&self) -> (r: &'static str)
        ensures
            r@ == spec_kind_text(*self),
    {
        match self {
            SyntaxErrorKind::UnrecognizedToken => "Token inesperado",
            SyntaxErrorKind::InvalidToken => "Token inválido",
            SyntaxErrorKind::UnexpectedEOF => "Fin de archivo inesperado",
            SyntaxErrorKind::ExtraToken => "Token extra no esperado",
        }
    }
}

/// A syntax error with what a detailed diagnostic needs.
#[derive(Clone, Debug)]
pub struct SyntaxError {
    pub kind: SyntaxErrorKind,
    pub location: SourceLocation,
    /// The source line where the error occurred.
    pub source_line: String,
    /// The tokens that were expected.
    pub expected: Vec<String>,
    /// The token found, if any.
    pub found: Option<String>,
}

/// How parsing failed, with offsets into the source.
#[derive(Clone, Debug)]
pub enum ParseFailure {
    /// Text at `location` is no token.
    InvalidToken { location: usize },
    /// The input ended at `location` where one of `expected` was due.
    UnrecognizedEof { location: usize, expected: Vec<String> },
    /// The token `token` from `start` to `end` came where one of `expected` was due.
    UnrecognizedToken { start: usize, token: String, end: usize, expected: Vec<String> },
    /// The token `token` from `start` to `end` follows a complete parse.
    ExtraToken { start: usize, token: String, end: usize },
    /// Any other failure, with its message.
    User { error: String },
}

/// Converts an offset to a location (1-based line and column).
pub fn offset_to_location(source: &str, offset: usize) -> (r: SourceLocation)
    requires
        source@.len() < usize::MAX,
    ensures
        r.line as int == spec_offset_line_col(source@, offset as int).0,
        r.column as int == spec_offset_line_col(source@, offset as int).1,
        r.offset == offset,
        r.line >= 1,
        r.column >= 1,
{
    let src = chars_of(source);
    let (line, column) = line_col_at(&src, offset);
    SourceLocation { line, column, offset }
}

/// The source line `line_number` (1-based), or the empty text.
pub fn get_source_line(source: &str, line_number: usize) -> (r: String)
    requires
        line_number >= 1,
        source@.len() < usize::MAX,
    ensures
        r@ == spec_nth_line(source@, line_number - 1),
{
    nth_line(source, line_number)
}

/// `s` without its leading quotes.
pub open spec fn spec_trim_start_quotes(s: Seq<char>) -> Seq<char>
    decreases s.len(),
{
    if s.len() > 0 && s[0] == '"' {
        spec_trim_start_quotes(s.drop_first())
    } else {
        s
    }
}

/// `s` without its trailing quotes.
pub open spec fn spec_trim_end_quotes(s: Seq<char>) -> Seq<char>
    decreases s.len(),
{
    if s.len() > 0 && s.last() == '"' {
        spec_trim_end_quotes(s.drop_last())
    } else {
        s
    }
}

/// `s` without the quotes around it (`str::trim_matches('"')`).
pub open spec fn spec_trim_quotes(s: Seq<char>) -> Seq<char> {
    spec_trim_end_quotes(spec_trim_start_quotes(s))
}

proof fn lemma_trim_start(s: Seq<char>, i: int)
    requires
        0 <= i <= s.len(),
        forall|k: int| 0 <= k < i ==> s[k] == '"',
    ensures
        spec_trim_start_quotes(s) == spec_trim_start_quotes(s.subrange(i, s.len() as int)),
    decreases i,
{
    if i > 0 {
        assert(s.drop_first().subrange(i - 1, s.drop_first().len() as int) =~= s.subrange(i, s.len() as int));
        lemma_trim_start(s.drop_first(), i - 1);
    } else {
        assert(s.subrange(0, s.len() as int) =~= s);
    }
}

proof fn lemma_trim_end(s: Seq<char>, j: int)
    requires
        0 <= j <= s.len(),
        forall|k: int| j <= k < s.len() ==> s[k] == '"',
    ensures
        spec_trim_end_quotes(s) == spec_trim_end_quotes(s.subrange(0, j)),
    decreases s.len() - j,
{
    if j < s.len() {
        assert(s.drop_last().subrange(0, j) =~= s.subrange(0, j));
        lemma_trim_end(s.drop_last(), j);
    } else {
        assert(s.subrange(0, j) =~= s);
    }
}

/// Removes the quotes around a token name.
pub fn trim_quotes(t: &str) -> (r: String)
    ensures
        r@ == spec_trim_quotes(t@),
{
    let n = t.unicode_len();
    let mut i: usize = 0;
    while i < n && t.get_char(i) == '"'
        invariant
            n == t@.len(),
            i <= n,
            forall|k: int| 0 <= k < i ==> t@[k] == '"',
        decreases n - i,
    {
        i = i + 1;
    }
    proof {
        lemma_trim_start(t@, i as int);
    }
    let ghost rest = t@.subrange(i as int, n as int);
    let mut j: usize = n;
    while j > i && t.get_char(j - 1) == '"'
        invariant
            n == t@.len(),
            i <= j <= n,
            forall|k: int| j <= k < n ==> t@[k] == '"',
        decreases j,
    {
        j = j - 1;
    }
    proof {
        assert(spec_trim_start_quotes(t@) == rest);
        assert forall|k: int| (j - i) <= k < rest.len() implies rest[k] == '"' by {
            assert(rest[k] == t@[i + k]);
        }
        lemma_trim_end(rest, (j - i) as int);
        assert(rest.subrange(0, (j - i) as int) =~= t@.subrange(i as int, j as int));
        if j > i {
            assert(t@.subrange(i as int, j as int).last() == t@[j - 1]);
        } else {
            assert(t@.subrange(i as int, j as int).len() == 0);
        }
    }
    t.substring_char(i, j).to_owned()
}

/// The readable name of a token, after surrounding quotes are removed.
pub open spec fn spec_humanize_raw(t: Seq<char>) -> Seq<char> {
    if t == ";"@ {
        "\";\" (punto y coma)"@
    } else if t == ":"@ {
        "\":\" (dos puntos)"@
    } else if t == ","@ {
        "\",\" (coma)"@
    } else if t == "."@ {
        "\".\" (punto)"@
    } else if t == "("@ {
        "\"(\" (paréntesis de apertura)"@
    } else if t == ")"@ {
        "\")\" (paréntesis de cierre)"@
    } else if t == "{"@ {
        "\"{\" (llave de apertura)"@
    } else if t == "}"@ {
        "\"}\" (llave de cierre)"@
    } else if t == "["@ {
        "\"[\" (corchete de apertura)"@
    } else if t == "]"@ {
        "\"]\" (corchete de cierre)"@
    } else if t == "="@ {
        "\"=\" (igual)"@
    } else if t == ":="@ {
        "\":=\" (asignación destructiva)"@
    } else if t == "->"@ {
        "\"->\" (flecha)"@
    } else if t == "+"@ {
        "\"+\" (suma)"@
    } else if t == "-"@ {
        "\"-\" (resta/negación)"@
    } else if t == "*"@ {
        "\"*\" (multiplicación)"@
    } else if t == "/"@ {
        "\"/\" (división)"@
    } else if t == "%"@ {
        "\"%\" (módulo)"@
    } else if t == "^"@ {
        "\"^\" (potencia)"@
    } else if t == "=="@ {
        "\"==\" (igualdad)"@
    } else if t == "!="@ {
        "\"!=\" (desigualdad)"@
    } else if t == "<"@ {
        "\"<\" (menor que)"@
    } else if t == "<="@ {
        "\"<=\" (menor o igual)"@
    } else if t == ">"@ {
        "\">\" (mayor que)"@
    } else if t == ">="@ {
        "\">=\" (mayor o igual)"@
    } else if t == "&"@ {
        "\"&\" (y lógico)"@
    } else if t == "|"@ {
        "\"|\" (o lógico)"@
    } else if t == "!"@ {
        "\"!\" (negación)"@
    } else if t == "@"@ {
        "\"@\" (concatenación)"@
    } else if t == "@@"@ {
        "\"@@\" (concatenación con espacio)"@
    } else if t == "let"@ {
        "\"let\" (declaración de variable)"@
    } else if t == "in"@ {
        "\"in\""@
    } else if t == "if"@ {
        "\"if\" (condicional)"@
    } else if t == "elif"@ {
        "\"elif\" (condicional alternativa)"@
    } else if t == "else"@ {
        "\"else\" (alternativa)"@
    } else if t == "while"@ {
        "\"while\" (bucle)"@
    } else if t == "for"@ {
        "\"for\" (bucle)"@
    } else if t == "case"@ {
        "\"case\" (coincidencia de patrones)"@
    } else if t == "of"@ {
        "\"of\""@
    } else if t == "new"@ {
        "\"new\" (instanciación)"@
    } else if t == "class"@ {
        "\"class\" (declaración de clase)"@
    } else if t == "is"@ {
        "\"is\" (herencia)"@
    } else if t == "function"@ {
        "\"function\" (declaración de función)"@
    } else if t == "true"@ {
        "\"true\" (literal booleano)"@
    } else if t == "false"@ {
        "\"false\" (literal booleano)"@
    } else {
        "\""@ + t + "\""@
    }
}

fn humanize_raw(t: &str) -> (r: String)
    ensures
        r@ == spec_humanize_raw(t@),
{
    if str_eq(t, ";") {
        String::from_str("\";\" (punto y coma)")
    } else if str_eq(t, ":") {
        String::from_str("\":\" (dos puntos)")
    } else if str_eq(t, ",") {
        String::from_str("\",\" (coma)")
    } else if str_eq(t, ".") {
        String::from_str("\".\" (punto)")
    } else if str_eq(t, "(") {
        String::from_str("\"(\" (paréntesis de apertura)")
    } else if str_eq(t, ")") {
        String::from_str("\")\" (paréntesis de cierre)")
    } else if str_eq(t, "{") {
        String::from_str("\"{\" (llave de apertura)")
    } else if str_eq(t, "}") {
        String::from_str("\"}\" (llave de cierre)")
    } else if str_eq(t, "[") {
        String::from_str("\"[\" (corchete de apertura)")
    } else if str_eq(t, "]") {
        String::from_str("\"]\" (corchete de cierre)")
    } else if str_eq(t, "=") {
        String::from_str("\"=\" (igual)")
    } else if str_eq(t, ":=") {
        String::from_str("\":=\" (asignación destructiva)")
    } else if str_eq(t, "->") {
        String::from_str("\"->\" (flecha)")
    } else if str_eq(t, "+") {
        String::from_str("\"+\" (suma)")
    } else if str_eq(t, "-") {
        String::from_str("\"-\" (resta/negación)")
    } else if str_eq(t, "*") {
        String::from_str("\"*\" (multiplicación)")
    } else if str_eq(t, "/") {
        String::from_str("\"/\" (división)")
    } else if str_eq(t, "%") {
        String::from_str("\"%\" (módulo)")
    } else if str_eq(t, "^") {
        String::from_str("\"^\" (potencia)")
    } else if str_eq(t, "==") {
        String::from_str("\"==\" (igualdad)")
    } else if str_eq(t, "!=") {
        String::from_str("\"!=\" (desigualdad)")
    } else if str_eq(t, "<") {
        String::from_str("\"<\" (menor que)")
    } else if str_eq(t, "<=") {
        String::from_str("\"<=\" (menor o igual)")
    } else if str_eq(t, ">") {
        String::from_str("\">\" (mayor que)")
    } else if str_eq(t, ">=") {
        String::from_str("\">=\" (mayor o igual)")
    } else if str_eq(t, "&") {
        String::from_str("\"&\" (y lógico)")
    } else if str_eq(t, "|") {
        String::from_str("\"|\" (o lógico)")
    } else if str_eq(t, "!") {
        String::from_str("\"!\" (negación)")
    } else if str_eq(t, "@") {
        String::from_str("\"@\" (concatenación)")
    } else if str_eq(t, "@@") {
        String::from_str("\"@@\" (concatenación con espacio)")
    } else if str_eq(t, "let") {
        String::from_str("\"let\" (declaración de variable)")
    } else if str_eq(t, "in") {
        String::from_str("\"in\"")
    } else if str_eq(t, "if") {
        String::from_str("\"if\" (condicional)")
    } else if str_eq(t, "elif") {
        String::from_str("\"elif\" (condicional alternativa)")
    } else if str_eq(t, "else") {
        String::from_str("\"else\" (alternativa)")
    } else if str_eq(t, "while") {
        String::from_str("\"while\" (bucle)")
    } else if str_eq(t, "for") {
        String::from_str("\"for\" (bucle)")
    } else if str_eq(t, "case") {
        String::from_str("\"case\" (coincidencia de patrones)")
    } else if str_eq(t, "of") {
        String::from_str("\"of\"")
    } else if str_eq(t, "new") {
        String::from_str("\"new\" (instanciación)")
    } else if str_eq(t, "class") {
        String::from_str("\"class\" (declaración de clase)")
    } else if str_eq(t, "is") {
        String::from_str("\"is\" (herencia)")
    } else if str_eq(t, "function") {
        String::from_str("\"function\" (declaración de función)")
    } else if str_eq(t, "true") {
        String::from_str("\"true\" (literal booleano)")
    } else if str_eq(t, "false") {
        String::from_str("\"false\" (literal booleano)")
    } else {
        let mut out = String::from_str("\"");
        out.append(t);
        out.append("\"");
        out
    }
}

/// The readable name of a token.
pub open spec fn spec_humanize(t: Seq<char>) -> Seq<char> {
    spec_humanize_raw(spec_trim_quotes(t))
}

/// Turns an internal token name into a readable Spanish one.
pub fn humanize_token(token: &str) -> (r: String)
    ensures
        r@ == spec_humanize(token@),
{
    let raw = trim_quotes(token);
    humanize_raw(raw.as_str())
}


/// The expected tokens without the quotes around them.
pub open spec fn raw_expected(expected: Seq<String>) -> Seq<Seq<char>> {
    expected.map_values(|s: String| spec_trim_quotes(s@))
}

/// The contextual suggestion for a syntax error, if one applies.
pub open spec fn spec_generate_hint(kind: SyntaxErrorKind, expected: Seq<String>, found: Option<String>) -> Option<Seq<char>> {
    let raw = raw_expected(expected);
    let f = match found {
        Some(s) => s@,
        None => Seq::<char>::empty(),
    };
    if raw.contains(";"@) && (f == "}"@ || f == ")"@) {
        Some("¿Falta un \";\" al final de la expresión anterior?"@)
    } else if f == ":"@ && raw.contains("("@) {
        Some("El tipo de retorno va después de los parámetros. Sintaxis correcta: function nombre(params): tipo { ... }"@)
    } else if raw.contains(")"@) {
        Some("¿Falta cerrar un paréntesis \")\"?"@)
    } else if raw.contains("}"@) {
        Some("¿Falta cerrar una llave \"}\"?"@)
    } else if raw.contains("else"@) {
        Some("En HULK, las expresiones \"if\" requieren una rama \"else\" obligatoria."@)
    } else if raw.contains("in"@) {
        Some("¿Falta \"in\" después de la declaración \"let\"?"@)
    } else if kind is UnexpectedEOF {
        Some("El archivo terminó antes de lo esperado. Verifique que todas las llaves, paréntesis y expresiones estén completas."@)
    } else {
        None
    }
}

fn trimmed_all(expected: &Vec<String>) -> (r: Vec<String>)
    ensures
        string_views(r@) == raw_expected(expected@),
{
    let mut r: Vec<String> = Vec::new();
    let mut i: usize = 0;
    while i < expected.len()
        invariant
            i <= expected.len(),
            string_views(r@) == raw_expected(expected@.subrange(0, i as int)),
        decreases expected.len() - i,
    {
        let t = trim_quotes(expected[i].as_str());
        let ghost before = r@;
        r.push(t);
        proof {
            assert(string_views(r@) =~= string_views(before).push(t@));
            assert(raw_expected(expected@.subrange(0, i + 1)) =~= raw_expected(expected@.subrange(0, i as int)).push(
                spec_trim_quotes(expected@[i as int]@)));
        }
        i = i + 1;
    }
    assert(expected@.subrange(0, expected@.len() as int) =~= expected@);
    r
}

/// Suggests a fix from the token found and those expected.
pub fn generate_hint(error: &SyntaxError) -> (r: Option<String>)
    ensures
        r matches Some(h) ==> spec_generate_hint(error.kind, error.expected@, error.found) == Some(h@),
        r is None ==> spec_generate_hint(error.kind, error.expected@, error.found) is None,
{
    let raw = trimmed_all(&error.expected);
    let found_raw: &str = match &error.found {
        Some(f) => f.as_str(),
        None => "",
    };
    proof {
        reveal_strlit("");
    }
    let ghost f = match &error.found {
        Some(s) => s@,
        None => Seq::<char>::empty(),
    };
    assert(found_raw@ == f);
    assert(string_views(raw@) == raw_expected(error.expected@));
    if contains_string(&raw, ";") && (str_eq(found_raw, "}") || str_eq(found_raw, ")")) {
        assert(raw_expected(error.expected@).contains(";"@));
        assert(f == "}"@ || f == ")"@);
        return Some(String::from_str("¿Falta un \";\" al final de la expresión anterior?"));
    }
    if str_eq(found_raw, ":") && contains_string(&raw, "(") {
        return Some(String::from_str(
            "El tipo de retorno va después de los parámetros. Sintaxis correcta: function nombre(params): tipo { ... }",
        ));
    }
    if contains_string(&raw, ")") {
        return Some(String::from_str("¿Falta cerrar un paréntesis \")\"?"));
    }
    if contains_string(&raw, "}") {
        return Some(String::from_str("¿Falta cerrar una llave \"}\"?"));
    }
    if contains_string(&raw, "else") {
        return Some(String::from_str("En HULK, las expresiones \"if\" requieren una rama \"else\" obligatoria."));
    }
    if contains_string(&raw, "in") {
        return Some(String::from_str("¿Falta \"in\" después de la declaración \"let\"?"));
    }
    match error.kind {
        SyntaxErrorKind::UnexpectedEOF => Some(String::from_str(
            "El archivo terminó antes de lo esperado. Verifique que todas las llaves, paréntesis y expresiones estén completas.",
        )),
        _ => None,
    }
}

/// The parts joined with `sep` between them.
pub open spec fn spec_join(parts: Seq<Seq<char>>, sep: Seq<char>) -> Seq<char>
    decreases parts.len(),
{
    if parts.len() == 0 {
        Seq::empty()
    } else if parts.len() == 1 {
        parts[0]
    } else {
        spec_join(parts.drop_last(), sep) + sep + parts.last()
    }
}

/// The summary of the expected tokens: up to five, readable, the last
/// after " o "; of more, the first five and how many are left.
pub open spec fn spec_format_expected(expected: Seq<String>) -> Seq<char> {
    let h = expected.map_values(|s: String| spec_humanize(s@));
    if h.len() == 0 {
        "ningún token reconocido"@
    } else if h.len() == 1 {
        h[0]
    } else if h.len() <= 5 {
        spec_join(h.subrange(0, h.len() - 1), ", "@) + " o "@ + h.last()
    } else {
        spec_join(h.subrange(0, 5), ", "@) + ", ... (y "@ + spec_decimal((h.len() - 5) as nat) + " opciones más)"@
    }
}

fn join_humanized(expected: &Vec<String>, count: usize) -> (r: String)
    requires
        count <= expected.len(),
    ensures
        r@ == spec_join(expected@.map_values(|s: String| spec_humanize(s@)).subrange(0, count as int), ", "@),
{
    let ghost h = expected@.map_values(|s: String| spec_humanize(s@));
    let mut out = String::new();
    let mut i: usize = 0;
    while i < count
        invariant
            i <= count,
            count <= expected.len(),
            h == expected@.map_values(|s: String| spec_humanize(s@)),
            out@ == spec_join(h.subrange(0, i as int), ", "@),
        decreases count - i,
    {
        let piece = humanize_token(expected[i].as_str());
        proof {
            let next = h.subrange(0, i + 1);
            assert(next.drop_last() =~= h.subrange(0, i as int));
            assert(next.last() == piece@);
        }
        if i > 0 {
            out.append(", ");
        } else {
            assert(h.subrange(0, 1) =~= seq![piece@]);
        }
        out.append(piece.as_str());
        i = i + 1;
    }
    out
}

/// Summarises the expected tokens readably.
pub fn format_expected(expected: &Vec<String>) -> (r: String)
    ensures
        r@ == spec_format_expected(expected@),
{
    let n = expected.len();
    if n == 0 {
        return String::from_str("ningún token reconocido");
    }
    if n == 1 {
        return humanize_token(expected[0].as_str());
    }
    if n <= 5 {
        let mut out = join_humanized(expected, n - 1);
        let last = humanize_token(expected[n - 1].as_str());
        out.append(" o ");
        out.append(last.as_str());
        return out;
    }
    let mut out = join_humanized(expected, 5);
    let rest = decimal(n - 5);
    out.append(", ... (y ");
    out.append(rest.as_str());
    out.append(" opciones más)");
    out
}

/// The syntax error that a parse failure stands for.
pub open spec fn spec_build_syntax_error(source: Seq<char>, failure: ParseFailure, e: SyntaxError) -> bool {
    let at = |off: int| {
        &&& e.location.line as int == spec_offset_line_col(source, off).0
        &&& e.location.column as int == spec_offset_line_col(source, off).1
        &&& e.location.offset as int == off
        &&& e.source_line@ == spec_nth_line(source, e.location.line - 1)
    };
    match failure {
        ParseFailure::UnrecognizedToken { start, token, expected, .. } => {
            &&& e.kind is UnrecognizedToken
            &&& at(start as int)
            &&& e.expected@ == expected@
            &&& e.found matches Some(f) && f@ == token@
        },
        ParseFailure::UnrecognizedEof { location, expected } => {
            &&& e.kind is UnexpectedEOF
            &&& at(location as int)
            &&& e.expected@ == expected@
            &&& e.found is None
        },
        ParseFailure::InvalidToken { location } => {
            &&& e.kind is InvalidToken
            &&& at(location as int)
            &&& e.expected@.len() == 0
            &&& e.found is None
        },
        ParseFailure::ExtraToken { start, token, .. } => {
            &&& e.kind is ExtraToken
            &&& at(start as int)
            &&& e.expected@.len() == 0
            &&& e.found matches Some(f) && f@ == token@
        },
        ParseFailure::User { error } => {
            &&& e.kind is InvalidToken
            &&& e.location.line == 1 && e.location.column == 1 && e.location.offset == 0
            &&& e.source_line@ == spec_nth_line(source, 0)
            &&& e.expected@.len() == 0
            &&& e.found matches Some(f) && f@ == error@
        },
    }
}

fn copy_strings(v: &Vec<String>) -> (r: Vec<String>)
    ensures
        r@ == v@,
{
    let mut r: Vec<String> = Vec::new();
    let mut i: usize = 0;
    while i < v.len()
        invariant
            i <= v.len(),
            r@ == v@.subrange(0, i as int),
        decreases v.len() - i,
    {
        r.push(v[i].clone());
        i = i + 1;
        assert(r@ =~= v@.subrange(0, i as int));
    }
    assert(v@.subrange(0, v@.len() as int) =~= v@);
    r
}

/// Turns a parse failure into a detailed syntax error.
pub fn build_syntax_error(source: &str, err: &ParseFailure) -> (e: SyntaxError)
    requires
        source@.len() < usize::MAX,
    ensures
        spec_build_syntax_error(source@, *err, e),
{
    match err {
        ParseFailure::UnrecognizedToken { start, token, expected, .. } => {
            let location = offset_to_location(source, *start);
            let source_line = get_source_line(source, location.line);
            SyntaxError {
                kind: SyntaxErrorKind::UnrecognizedToken,
                location,
                source_line,
                expected: copy_strings(expected),
                found: Some(token.clone()),
            }
        },
        ParseFailure::UnrecognizedEof { location, expected } => {
            let loc = offset_to_location(source, *location);
            let source_line = get_source_line(source, loc.line);
            SyntaxError {
                kind: SyntaxErrorKind::UnexpectedEOF,
                location: loc,
                source_line,
                expected: copy_strings(expected),
                found: None,
            }
        },
        ParseFailure::InvalidToken { location } => {
            let loc = offset_to_location(source, *location);
            let source_line = get_source_line(source, loc.line);
            SyntaxError {
                kind: SyntaxErrorKind::InvalidToken,
                location: loc,
                source_line,
                expected: Vec::new(),
                found: None,
            }
        },
        ParseFailure::ExtraToken { start, token, .. } => {
            let location = offset_to_location(source, *start);
            let source_line = get_source_line(source, location.line);
            SyntaxError {
                kind: SyntaxErrorKind::ExtraToken,
                location,
                source_line,
                expected: Vec::new(),
                found: Some(token.clone()),
            }
        },
        ParseFailure::User { error } => {
            SyntaxError {
                kind: SyntaxErrorKind::InvalidToken,
                location: SourceLocation { line: 1, column: 1, offset: 0 },
                source_line: nth_line(source, 1),
                expected: Vec::new(),
                found: Some(error.clone()),
            }
        },
    }
}

pub const GRAY: &'static str = "\x1b[90m";

/// The number of bytes of the token found (`EOF` if none).
pub open spec fn found_bytes(err: SyntaxError) -> int {
    match err.found {
        Some(f) => (vstd::utf8::encode_utf8(f@).len() as usize) as int,
        None => 3,
    }
}

/// The text after the gutter of the marker line: the padding to the
/// column, the underline and the message.
pub open spec fn spec_marker_rest(err: SyntaxError) -> Seq<char> {
    let col = err.location.column as int;
    let msg = match err.found {
        Some(f) => "Se encontró "@ + f@ + " aquí"@,
        None => "Fin de archivo inesperado aquí"@,
    };
    let padding = spec_repeat(" "@, if col >= 1 { (col - 1) as nat } else { 0 });
    let underline = spec_repeat("^"@, max_int(found_bytes(err), 1) as nat);
    " "@ + padding + RED@ + underline + RESET@ + " "@ + RED@ + msg + RESET@
}

/// The lines listing the expected tokens, if there are any.
pub open spec fn spec_expected_part(err: SyntaxError, w: int) -> Seq<char> {
    if err.expected@.len() > 0 {
        spec_gutter(w, Seq::empty(), Seq::empty()) + "  "@ + BLUE@ + spec_pad_left_empty(w) + " ="@ + RESET@
            + " "@ + CYAN@ + "Se esperaba:"@ + RESET@ + " "@ + spec_format_expected(err.expected@) + "\n"@
    } else {
        Seq::empty()
    }
}

/// The suggestion line, if a suggestion applies.
pub open spec fn spec_hint_part(err: SyntaxError) -> Seq<char> {
    match spec_generate_hint(err.kind, err.expected@, err.found) {
        Some(h) => "\n  "@ + YELLOW@ + "ayuda:"@ + RESET@ + " "@ + h + GRAY@ + RESET@ + "\n"@,
        None => Seq::empty(),
    }
}

/// The rendering of a syntax error for the terminal: title, location,
/// the source line with a marker under the error, the expected tokens,
/// and a suggestion if one applies.
pub open spec fn spec_format_syntax_error(err: SyntaxError, filename: Seq<char>) -> Seq<char> {
    let line = err.location.line as int;
    let col = err.location.column as int;
    let w = gutter_width(line);
    RED@ + "error[E001]"@ + RESET@ + ": "@ + BOLD@ + spec_kind_text(err.kind) + RESET@ + "\n"@
        + spec_location(filename, line, col)
        + spec_gutter(w, Seq::empty(), Seq::empty())
        + spec_gutter(w, spec_decimal(line as nat), " "@ + err.source_line@)
        + spec_gutter(w, Seq::empty(), spec_marker_rest(err))
        + spec_expected_part(err, w) + spec_hint_part(err)
}

/// `w` spaces.
pub open spec fn spec_pad_left_empty(w: int) -> Seq<char> {
    crate::text::spec_pad_left(Seq::empty(), w as nat)
}

fn marker_rest(err: &SyntaxError) -> (r: String)
    ensures
        r@ == spec_marker_rest(*err),
{
    let col = err.location.column;
    let pad_count: usize = if col >= 1 { col - 1 } else { 0 };
    let padding = repeat_str(" ", pad_count);
    let found_len: usize = match &err.found {
        Some(f) => f.as_str().len(),
        None => 3,
    };
    let underline = repeat_str("^", if found_len >= 1 { found_len } else { 1 });
    let msg = match &err.found {
        Some(f) => text3("Se encontró ", f.as_str(), " aquí"),
        None => String::from_str("Fin de archivo inesperado aquí"),
    };
    let mut out = text5(" ", padding.as_str(), RED, underline.as_str(), RESET);
    let tail = text5(" ", RED, msg.as_str(), RESET, "");
    out.append(tail.as_str());
    proof {
        reveal_strlit("");
    }
    assert(out@ =~= spec_marker_rest(*err));
    out
}

fn expected_part(err: &SyntaxError, width: usize) -> (r: String)
    ensures
        r@ == spec_expected_part(*err, width as int),
{
    proof {
        reveal_strlit("");
    }
    if err.expected.len() > 0 {
        let mut out = gutter_text(width, "", "");
        let blank = crate::text::pad_left("", width);
        let list = format_expected(&err.expected);
        let part = text7("  ", BLUE, blank.as_str(), " =", RESET, " ", CYAN);
        out.append(part.as_str());
        let part2 = text5("Se esperaba:", RESET, " ", list.as_str(), "\n");
        out.append(part2.as_str());
        assert(out@ =~= spec_expected_part(*err, width as int));
        out
    } else {
        String::new()
    }
}

fn hint_part(err: &SyntaxError) -> (r: String)
    ensures
        r@ == spec_hint_part(*err),
{
    match generate_hint(err) {
        Some(h) => {
            let mut out = text7("\n  ", YELLOW, "ayuda:", RESET, " ", h.as_str(), GRAY);
            out.append(RESET);
            out.append("\n");
            out
        },
        None => String::new(),
    }
}

/// Formats a syntax error as a terminal diagnostic, with colours, a
/// marker under the position and a suggestion where one applies.
pub fn format_syntax_error(err: &SyntaxError, filename: &str) -> (out: String)
    ensures
        out@ == spec_format_syntax_error(*err, filename@),
{
    let line = err.location.line;
    let col = err.location.column;
    let line_text = decimal(line);
    let digits = line_text.unicode_len();
    let width: usize = if digits >= 3 { digits } else { 3 };
    proof {
        reveal_strlit("");
    }
    let mut out = text5(RED, "error[E001]", RESET, ": ", BOLD);
    out.append(err.kind.text());
    out.append(RESET);
    out.append("\n");
    let loc = location_text(filename, line, col);
    out.append(loc.as_str());
    let sep = gutter_text(width, "", "");
    out.append(sep.as_str());
    let code_rest = text3(" ", err.source_line.as_str(), "");
    let code = gutter_text(width, line_text.as_str(), code_rest.as_str());
    out.append(code.as_str());
    let rest = marker_rest(err);
    let marker = gutter_text(width, "", rest.as_str());
    out.append(marker.as_str());
    let exp = expected_part(err, width);
    out.append(exp.as_str());
    let hint = hint_part(err);
    out.append(hint.as_str());
    assert(out@ =~= spec_format_syntax_error(*err, filename@));
    out
}

/// Formats a syntax error as a terminal diagnostic.
pub fn format_error(err: &SyntaxError, filename: &str) -> (out: String)
    ensures
        out@ == spec_format_syntax_error(*err, filename@),
{
    format_syntax_error(err, filename)
}

/// Builds the syntax error of a parse failure and formats it.
pub fn format_parse_error(source: &str, filename: &str, err: &ParseFailure) -> (out: String)
    requires
        source@.len() < usize::MAX,
    ensures
        exists|e: SyntaxError| spec_build_syntax_error(source@, *err, e)
            && out@ == spec_format_syntax_error(e, filename@),
{
    let syntax_error = build_syntax_error(source, err);
    format_syntax_error(&syntax_error, filename)
}

} // verus!

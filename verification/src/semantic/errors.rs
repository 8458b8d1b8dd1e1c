//! Diagnostics of the passes that run after parsing.

use vstd::prelude::*;
use crate::tokens::Span;
use crate::text::{decimal, spec_decimal, chars_of, line_col_at, spec_offset_line_col, nth_line, spec_nth_line, pad_left, spec_pad_left, repeat_str, spec_repeat};

verus! {

/// Severity level for compiler diagnostics.
#[derive(Debug, Clone, Copy, PartialEq, Eq, Structural)]
pub enum Severity {
    Error,
    Warning,
}

/// A unified compiler diagnostic covering all post-parse phases.
#[derive(Debug)]
pub struct CompilerError {
    /// Unique error code (e.g. "E100" for semantic, "E200" for type errors).
    pub code: &'static str,
    /// Human-readable error message.
    pub message: String,
    /// Source span where the error occurred.
    pub span: Span,
    /// Severity level.
    pub severity: Severity,
    /// Optional hint/suggestion for fixing the error.
    pub hint: Option<String>,
}

/// A diagnostic with the given code, message, span, severity and hint.
pub open spec fn diag_is(e: CompilerError, code: Seq<char>, message: Seq<char>, span: Span, severity: Severity, hint: Option<Seq<char>>) -> bool {
    &&& e.code@ == code
    &&& e.message@ == message
    &&& e.span == span
    &&& e.severity == severity
    &&& match e.hint {
        Some(h) => hint == Some(h@),
        None => hint is None,
    }
}

/// A diagnostic as plain values: code, message, span, severity, hint.
pub type DiagV = (Seq<char>, Seq<char>, Span, Severity, Option<Seq<char>>);

/// The plain values of a diagnostic.
pub open spec fn diag_view(e: CompilerError) -> DiagV {
    (e.code@, e.message@, e.span, e.severity, match e.hint {
        Some(h) => Some(h@),
        None => None,
    })
}

/// The plain values of a list of diagnostics.
pub open spec fn diags_view(es: Seq<CompilerError>) -> Seq<DiagV> {
    es.map_values(|e: CompilerError| diag_view(e))
}

pub(crate) fn text3(a: &str, b: &str, c: &str) -> (r: String)
    ensures
        r@ == a@ + b@ + c@,
{
    let mut r = String::from_str(a);
    r.append(b);
    r.append(c);
    r
}

pub(crate) fn text5(a: &str, b: &str, c: &str, d: &str, e: &str) -> (r: String)
    ensures
        r@ == a@ + b@ + c@ + d@ + e@,
{
    let mut r = String::from_str(a);
    r.append(b);
    r.append(c);
    r.append(d);
    r.append(e);
    r
}

pub(crate) fn text7(a: &str, b: &str, c: &str, d: &str, e: &str, f: &str, g: &str) -> (r: String)
    ensures
        r@ == a@ + b@ + c@ + d@ + e@ + f@ + g@,
{
    let mut r = text5(a, b, c, d, e);
    r.append(f);
    r.append(g);
    r
}

pub(crate) fn text9(a: &str, b: &str, c: &str, d: &str, e: &str, f: &str, g: &str, h: &str, i: &str) -> (r: String)
    ensures
        r@ == a@ + b@ + c@ + d@ + e@ + f@ + g@ + h@ + i@,
{
    let mut r = text7(a, b, c, d, e, f, g);
    r.append(h);
    r.append(i);
    r
}

impl CompilerError {
    // ── Semantic errors (E1xx) ───────────────────────────────────

    pub fn undefined_variable(name: &str, span: Span) -> (e: Self)
        ensures
            diag_is(e, "E100"@, "Variable '"@ + name@ + "' no está definida"@, span, Severity::Error,
                Some("Verifique que la variable esté declarada antes de usarla."@)),
    {
        CompilerError {
            code: "E100",
            message: text3("Variable '", name, "' no está definida"),
            span,
            severity: Severity::Error,
            hint: Some(String::from_str("Verifique que la variable esté declarada antes de usarla.")),
        }
    }

    pub fn undefined_function(name: &str, span: Span) -> (e: Self)
        ensures
            diag_is(e, "E101"@, "Función '"@ + name@ + "' no está definida"@, span, Severity::Error, None),
    {
        CompilerError {
            code: "E101",
            message: text3("Función '", name, "' no está definida"),
            span,
            severity: Severity::Error,
            hint: None,
        }
    }

    pub fn undefined_type(name: &str, span: Span) -> (e: Self)
        ensures
            diag_is(e, "E102"@, "Tipo '"@ + name@ + "' no está definido"@, span, Severity::Error, None),
    {
        CompilerError {
            code: "E102",
            message: text3("Tipo '", name, "' no está definido"),
            span,
            severity: Severity::Error,
            hint: None,
        }
    }

    pub fn duplicate_definition(kind: &str, name: &str, span: Span) -> (e: Self)
        ensures
            diag_is(e, "E103"@, kind@ + " '"@ + name@ + "' ya fue definida anteriormente"@, span,
                Severity::Error, None),
    {
        CompilerError {
            code: "E103",
            message: text3(kind, " '", name).concat("' ya fue definida anteriormente"),
            span,
            severity: Severity::Error,
            hint: None,
        }
    }

    pub fn wrong_arity(name: &str, expected: usize, got: usize, span: Span) -> (e: Self)
        ensures
            diag_is(e, "E104"@, "'"@ + name@ + "' espera "@ + spec_decimal(expected as nat)
                + " argumento(s), pero se proporcionaron "@ + spec_decimal(got as nat), span,
                Severity::Error, None),
    {
        let ex = decimal(expected);
        let g = decimal(got);
        CompilerError {
            code: "E104",
            message: text5("'", name, "' espera ", ex.as_str(), " argumento(s), pero se proporcionaron ").concat(g.as_str()),
            span,
            severity: Severity::Error,
            hint: None,
        }
    }

    pub fn invalid_assign_target(span: Span) -> (e: Self)
        ensures
            diag_is(e, "E105"@, "El lado izquierdo de ':=' debe ser una variable, atributo o indexación"@,
                span, Severity::Error, None),
    {
        CompilerError {
            code: "E105",
            message: String::from_str("El lado izquierdo de ':=' debe ser una variable, atributo o indexación"),
            span,
            severity: Severity::Error,
            hint: None,
        }
    }

    pub fn self_outside_class(span: Span) -> (e: Self)
        ensures
            diag_is(e, "E106"@, "'self' solo puede usarse dentro de un método de clase"@, span,
                Severity::Error, None),
    {
        CompilerError {
            code: "E106",
            message: String::from_str("'self' solo puede usarse dentro de un método de clase"),
            span,
            severity: Severity::Error,
            hint: None,
        }
    }

    pub fn cyclic_inheritance(name: &str, span: Span) -> (e: Self)
        ensures
            diag_is(e, "E107"@, "Herencia circular detectada en la clase '"@ + name@ + "'"@, span,
                Severity::Error, None),
    {
        CompilerError {
            code: "E107",
            message: text3("Herencia circular detectada en la clase '", name, "'"),
            span,
            severity: Severity::Error,
            hint: None,
        }
    }

    pub fn undefined_member(class_name: &str, member: &str, span: Span) -> (e: Self)
        ensures
            diag_is(e, "E108"@, "El tipo '"@ + class_name@ + "' no tiene un miembro '"@ + member@ + "'"@,
                span, Severity::Error, None),
    {
        CompilerError {
            code: "E108",
            message: text5("El tipo '", class_name, "' no tiene un miembro '", member, "'"),
            span,
            severity: Severity::Error,
            hint: None,
        }
    }

    pub fn undefined_method(class_name: &str, method: &str, span: Span) -> (e: Self)
        ensures
            diag_is(e, "E109"@, "El tipo '"@ + class_name@ + "' no tiene un método '"@ + method@ + "'"@,
                span, Severity::Error, None),
    {
        CompilerError {
            code: "E109",
            message: text5("El tipo '", class_name, "' no tiene un método '", method, "'"),
            span,
            severity: Severity::Error,
            hint: None,
        }
    }

    pub fn invalid_inheritance(parent: &str, span: Span) -> (e: Self)
        ensures
            diag_is(e, "E110"@, "No se puede heredar del tipo '"@ + parent@ + "'"@, span,
                Severity::Error, None),
    {
        CompilerError {
            code: "E110",
            message: text3("No se puede heredar del tipo '", parent, "'"),
            span,
            severity: Severity::Error,
            hint: None,
        }
    }

    pub fn base_outside_method(span: Span) -> (e: Self)
        ensures
            diag_is(e, "E111"@, "'base' solo puede usarse dentro de un método de clase"@, span,
                Severity::Error, None),
    {
        CompilerError {
            code: "E111",
            message: String::from_str("'base' solo puede usarse dentro de un método de clase"),
            span,
            severity: Severity::Error,
            hint: None,
        }
    }

    pub fn undefined_base_method(class_name: &str, method: &str, span: Span) -> (e: Self)
        ensures
            diag_is(e, "E112"@, "Ningún ancestro de '"@ + class_name@ + "' define el método '"@ + method@
                + "'"@, span, Severity::Error, None),
    {
        CompilerError {
            code: "E112",
            message: text5("Ningún ancestro de '", class_name, "' define el método '", method, "'"),
            span,
            severity: Severity::Error,
            hint: None,
        }
    }

    pub fn invalid_override_signature(class_name: &str, method: &str, span: Span) -> (e: Self)
        ensures
            diag_is(e, "E113"@, "La firma de '"@ + method@ + "' en '"@ + class_name@
                + "' no coincide con la del ancestro"@, span, Severity::Error, None),
    {
        CompilerError {
            code: "E113",
            message: text5("La firma de '", method, "' en '", class_name, "' no coincide con la del ancestro"),
            span,
            severity: Severity::Error,
            hint: None,
        }
    }

    // ── Type errors (E2xx) ──────────────────────────────────────

    pub fn type_mismatch(expected: &str, got: &str, span: Span) -> (e: Self)
        ensures
            diag_is(e, "E200"@, "Se esperaba tipo '"@ + expected@ + "', pero se obtuvo '"@ + got@ + "'"@,
                span, Severity::Error, None),
    {
        CompilerError {
            code: "E200",
            message: text5("Se esperaba tipo '", expected, "', pero se obtuvo '", got, "'"),
            span,
            severity: Severity::Error,
            hint: None,
        }
    }

    pub fn binary_op_type_error(op: &str, left: &str, right: &str, span: Span) -> (e: Self)
        ensures
            diag_is(e, "E201"@, "Operador '"@ + op@ + "' no se puede aplicar a tipos '"@ + left@ + "' y '"@
                + right@ + "'"@, span, Severity::Error, None),
    {
        CompilerError {
            code: "E201",
            message: text7("Operador '", op, "' no se puede aplicar a tipos '", left, "' y '", right, "'"),
            span,
            severity: Severity::Error,
            hint: None,
        }
    }

    pub fn unary_op_type_error(op: &str, operand: &str, span: Span) -> (e: Self)
        ensures
            diag_is(e, "E202"@, "Operador unario '"@ + op@ + "' no se puede aplicar al tipo '"@ + operand@
                + "'"@, span, Severity::Error, None),
    {
        CompilerError {
            code: "E202",
            message: text5("Operador unario '", op, "' no se puede aplicar al tipo '", operand, "'"),
            span,
            severity: Severity::Error,
            hint: None,
        }
    }

    pub fn condition_not_boolean(span: Span) -> (e: Self)
        ensures
            diag_is(e, "E203"@, "La condición debe ser de tipo 'Boolean'"@, span, Severity::Error, None),
    {
        CompilerError {
            code: "E203",
            message: String::from_str("La condición debe ser de tipo 'Boolean'"),
            span,
            severity: Severity::Error,
            hint: None,
        }
    }

    pub fn not_indexable(type_label: &str, span: Span) -> (e: Self)
        ensures
            diag_is(e, "E204"@, "El tipo '"@ + type_label@ + "' no es indexable"@, span, Severity::Error,
                Some("Solo los arrays pueden ser indexados con []."@)),
    {
        CompilerError {
            code: "E204",
            message: text3("El tipo '", type_label, "' no es indexable"),
            span,
            severity: Severity::Error,
            hint: Some(String::from_str("Solo los arrays pueden ser indexados con [].")),
        }
    }

    pub fn index_not_number(span: Span) -> (e: Self)
        ensures
            diag_is(e, "E205"@, "El índice de un array debe ser de tipo 'Number'"@, span, Severity::Error,
                None),
    {
        CompilerError {
            code: "E205",
            message: String::from_str("El índice de un array debe ser de tipo 'Number'"),
            span,
            severity: Severity::Error,
            hint: None,
        }
    }

    pub fn not_callable(name: &str, span: Span) -> (e: Self)
        ensures
            diag_is(e, "E206"@, "'"@ + name@ + "' no es una función invocable"@, span, Severity::Error,
                None),
    {
        CompilerError {
            code: "E206",
            message: text3("'", name, "' no es una función invocable"),
            span,
            severity: Severity::Error,
            hint: None,
        }
    }

    pub fn return_type_mismatch(func: &str, expected: &str, got: &str, span: Span) -> (e: Self)
        ensures
            diag_is(e, "E207"@, "La función '"@ + func@ + "' debe retornar '"@ + expected@
                + "', pero retorna '"@ + got@ + "'"@, span, Severity::Error, None),
    {
        CompilerError {
            code: "E207",
            message: text7("La función '", func, "' debe retornar '", expected, "', pero retorna '", got, "'"),
            span,
            severity: Severity::Error,
            hint: None,
        }
    }

    pub fn type_does_not_conform(got: &str, expected: &str, span: Span) -> (e: Self)
        ensures
            diag_is(e, "E208"@, "El tipo '"@ + got@ + "' no conforma al tipo esperado '"@ + expected@
                + "'"@, span, Severity::Error, None),
    {
        CompilerError {
            code: "E208",
            message: text5("El tipo '", got, "' no conforma al tipo esperado '", expected, "'"),
            span,
            severity: Severity::Error,
            hint: None,
        }
    }

    // ── Warnings (W0xx) ─────────────────────────────────────────

    pub fn unused_variable(name: &str, span: Span) -> (e: Self)
        ensures
            diag_is(e, "W001"@, "Variable '"@ + name@ + "' declarada pero nunca usada"@, span,
                Severity::Warning, Some("Si es intencional, prefije el nombre con '_'."@)),
    {
        CompilerError {
            code: "W001",
            message: text3("Variable '", name, "' declarada pero nunca usada"),
            span,
            severity: Severity::Warning,
            hint: Some(String::from_str("Si es intencional, prefije el nombre con '_'.")),
        }
    }
}

impl CompilerError {
    /// The one-line form `error[E100]: message` (or `warning[...]`).
    pub fn describe(&self) -> (r: String)
        ensures
            r@ == severity_prefix(self.severity) + "["@ + self.code@ + "]: "@ + self.message@,
    {
        let prefix = match self.severity {
            Severity::Error => "error",
            Severity::Warning => "warning",
        };
        text5(prefix, "[", self.code, "]: ", self.message.as_str())
    }
}

pub open spec fn severity_prefix(s: Severity) -> Seq<char> {
    match s {
        Severity::Error => "error"@,
        Severity::Warning => "warning"@,
    }
}

// ── Colored diagnostic formatting ───────────────────────────────────

pub const RED: &'static str = "\x1b[1;31m";
pub const YELLOW: &'static str = "\x1b[1;33m";
pub const CYAN: &'static str = "\x1b[1;36m";
pub const BLUE: &'static str = "\x1b[1;34m";
pub const BOLD: &'static str = "\x1b[1m";
pub const RESET: &'static str = "\x1b[0m";

pub open spec fn severity_color(s: Severity) -> Seq<char> {
    match s {
        Severity::Error => RED@,
        Severity::Warning => YELLOW@,
    }
}

/// Converts an offset to (line, column), both 1-based.
pub fn offset_to_line_col(source: &str, offset: usize) -> (r: (usize, usize))
    requires
        source@.len() < usize::MAX,
    ensures
        r.0 as int == spec_offset_line_col(source@, offset as int).0,
        r.1 as int == spec_offset_line_col(source@, offset as int).1,
        r.0 >= 1,
        r.1 >= 1,
{
    let src = chars_of(source);
    line_col_at(&src, offset)
}

pub open spec fn max_int(a: int, b: int) -> int {
    if a >= b { a } else { b }
}

pub open spec fn min_int(a: int, b: int) -> int {
    if a <= b { a } else { b }
}

/// The width of the line-number gutter: the digits of `line`, at least 3.
pub open spec fn gutter_width(line: int) -> int {
    max_int(spec_decimal(line as nat).len() as int, 3)
}

/// The number of carets under a diagnostic's span.
pub open spec fn underline_len(span: Span, source_line: Seq<char>, col: int) -> int {
    let span_len = max_int(span.end - span.start, 1);
    let room = if source_line.len() >= col - 1 { source_line.len() - (col - 1) } else { 0 };
    max_int(min_int(span_len, room), 1)
}

pub open spec fn spec_header(err: CompilerError, color: Seq<char>) -> Seq<char> {
    color + severity_prefix(err.severity) + "["@ + err.code@ + "]"@ + RESET@ + ": "@ + BOLD@ + err.message@
        + RESET@ + "\n"@
}

pub open spec fn spec_location(filename: Seq<char>, line: int, col: int) -> Seq<char> {
    "  "@ + BLUE@ + "-->"@ + RESET@ + " "@ + filename + ":"@ + spec_decimal(line as nat) + ":"@
        + spec_decimal(col as nat) + "\n"@
}

pub open spec fn spec_gutter(width: int, label: Seq<char>, rest: Seq<char>) -> Seq<char> {
    "  "@ + BLUE@ + spec_pad_left(label, width as nat) + " |"@ + RESET@ + rest + "\n"@
}

pub open spec fn spec_hint(hint: Option<String>) -> Seq<char> {
    match hint {
        Some(h) => "\n  "@ + CYAN@ + "ayuda:"@ + RESET@ + " "@ + h@ + "\n"@,
        None => Seq::<char>::empty(),
    }
}

/// The rendering of a diagnostic for the terminal: header, location,
/// the source line with the span underlined, and the hint if any.
pub open spec fn spec_format_compiler_error(err: CompilerError, source: Seq<char>, filename: Seq<char>) -> Seq<char> {
    let (line, col) = spec_offset_line_col(source, err.span.start as int);
    let source_line = spec_nth_line(source, line - 1);
    let w = gutter_width(line);
    let color = severity_color(err.severity);
    spec_header(err, color) + spec_location(filename, line, col) + spec_gutter(w, Seq::empty(), Seq::empty())
        + spec_gutter(w, spec_decimal(line as nat), " "@ + source_line) + spec_gutter(
        w,
        Seq::empty(),
        " "@ + spec_repeat(" "@, (col - 1) as nat) + color + spec_repeat(
            "^"@,
            underline_len(err.span, source_line, col) as nat,
        ) + RESET@,
    ) + spec_hint(err.hint)
}

fn header_text(err: &CompilerError, color: &str) -> (r: String)
    ensures
        r@ == spec_header(*err, color@),
{
    let prefix = match err.severity {
        Severity::Error => "error",
        Severity::Warning => "warning",
    };
    let mut out = text7(color, prefix, "[", err.code, "]", RESET, ": ");
    out.append(BOLD);
    out.append(err.message.as_str());
    out.append(RESET);
    out.append("\n");
    out
}

pub(crate) fn location_text(filename: &str, line: usize, col: usize) -> (r: String)
    ensures
        r@ == spec_location(filename@, line as int, col as int),
{
    let l = decimal(line);
    let c = decimal(col);
    let mut out = text9("  ", BLUE, "-->", RESET, " ", filename, ":", l.as_str(), ":");
    out.append(c.as_str());
    out.append("\n");
    out
}

pub(crate) fn gutter_text(width: usize, label: &str, rest: &str) -> (r: String)
    ensures
        r@ == spec_gutter(width as int, label@, rest@),
{
    let num = pad_left(label, width);
    let mut out = text5("  ", BLUE, num.as_str(), " |", RESET);
    out.append(rest);
    out.append("\n");
    out
}

fn hint_text(hint: &Option<String>) -> (r: String)
    ensures
        r@ == spec_hint(*hint),
{
    match hint {
        Some(h) => text7("\n  ", CYAN, "ayuda:", RESET, " ", h.as_str(), "\n"),
        None => String::new(),
    }
}

/// Formats a `CompilerError` as a rich terminal diagnostic.
#[verifier::rlimit(40)]
pub fn format_compiler_error(err: &CompilerError, source: &str, filename: &str) -> (out: String)
    requires
        source@.len() < usize::MAX,
        err.span.start <= err.span.end,
    ensures
        out@ == spec_format_compiler_error(*err, source@, filename@),
{
    let (line, col) = offset_to_line_col(source, err.span.start);
    let source_line = nth_line(source, line);
    let line_text = decimal(line);
    let digits = line_text.unicode_len();
    let width: usize = if digits >= 3 { digits } else { 3 };
    let color = match err.severity {
        Severity::Error => RED,
        Severity::Warning => YELLOW,
    };
    proof {
        reveal_strlit("");
    }
    // Underline.
    let span_len: usize = if err.span.end - err.span.start >= 1 { err.span.end - err.span.start } else { 1 };
    let line_len = source_line.as_str().unicode_len();
    let room: usize = if line_len >= col - 1 { line_len - (col - 1) } else { 0 };
    let carets: usize = if span_len <= room { span_len } else { room };
    let carets: usize = if carets >= 1 { carets } else { 1 };
    let padding = repeat_str(" ", col - 1);
    let underline = repeat_str("^", carets);
    let marker_rest = text5(" ", padding.as_str(), color, underline.as_str(), RESET);
    let mut code_rest = String::from_str(" ");
    code_rest.append(source_line.as_str());

    let mut out = header_text(err, color);
    let loc = location_text(filename, line, col);
    out.append(loc.as_str());
    let sep = gutter_text(width, "", "");
    out.append(sep.as_str());
    let code = gutter_text(width, line_text.as_str(), code_rest.as_str());
    out.append(code.as_str());
    let marker = gutter_text(width, "", marker_rest.as_str());
    out.append(marker.as_str());
    let hint = hint_text(&err.hint);
    out.append(hint.as_str());
    assert(underline_len(err.span, source_line@, col as int) == carets as int);
    assert(out@ =~= spec_format_compiler_error(*err, source@, filename@));
    out
}

} // verus!

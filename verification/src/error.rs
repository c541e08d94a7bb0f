use vstd::prelude::*;
use crate::span::Span;
use crate::source_map::SourceMap;
use crate::text::{push_decimal, decimal, push_char, usize_to_string};
use vstd::utf8::{decode_utf8, encode_utf8_decode_utf8};

verus! {

/// Central error type of the compiler.
#[derive(Debug)]
pub enum CompilerError {
    /// Lexical error (invalid character, malformed token, ...).
    LexerError { msg: String, span: Span },
    /// Syntactic error (unexpected token, missing delimiter, ...).
    ParserError { msg: String, span: Option<Span> },
    /// Semantic error (type mismatch, undefined variable, wrong arity, ...).
    TypeError { msg: String, span: Span },
    /// Internal error during code generation.
    CodegenError { msg: String, span: Option<Span> },
    /// File system or subprocess error.
    IoError(String),
    /// Error during the monomorphization pass.
    MonomorphizationError { msg: String, span: Span },
}

/// The span that an error carries, if any.
pub open spec fn error_span(e: CompilerError) -> Option<Span> {
    match e {
        CompilerError::LexerError { span, .. } => Some(span),
        CompilerError::ParserError { span, .. } => span,
        CompilerError::TypeError { span, .. } => Some(span),
        CompilerError::CodegenError { span, .. } => span,
        CompilerError::IoError(_) => None,
        CompilerError::MonomorphizationError { span, .. } => Some(span),
    }
}

/// The message of an error as it is displayed: a kind prefix, then the message.
pub open spec fn error_text(e: CompilerError) -> Seq<char> {
    match e {
        CompilerError::LexerError { msg, .. } => "LEXICAL: "@ + msg@,
        CompilerError::ParserError { msg, .. } => "SYNTACTIC: "@ + msg@,
        CompilerError::TypeError { msg, .. } => "SEMANTIC: "@ + msg@,
        CompilerError::CodegenError { msg, .. } => "Code generation error: "@ + msg@,
        CompilerError::IoError(msg) => "I/O error: "@ + msg@,
        CompilerError::MonomorphizationError { msg, .. } => "Monomorphization error: "@ + msg@,
    }
}

impl Clone for CompilerError {
    fn clone(&self) -> (res: Self)
        ensures
            res == *self,
    {
        match self {
            CompilerError::LexerError { msg, span } => CompilerError::LexerError {
                msg: msg.clone(),
                span: *span,
            },
            CompilerError::ParserError { msg, span } => CompilerError::ParserError {
                msg: msg.clone(),
                span: *span,
            },
            CompilerError::TypeError { msg, span } => CompilerError::TypeError {
                msg: msg.clone(),
                span: *span,
            },
            CompilerError::CodegenError { msg, span } => CompilerError::CodegenError {
                msg: msg.clone(),
                span: *span,
            },
            CompilerError::IoError(msg) => CompilerError::IoError(msg.clone()),
            CompilerError::MonomorphizationError { msg, span } => {
                CompilerError::MonomorphizationError { msg: msg.clone(), span: *span }
            },
        }
    }
}

impl CompilerError {
    /// Returns the source span of the error, if any.
    pub fn span(&self) -> (res: Option<Span>)
        ensures
            res == error_span(*self),
    {
        match self {
            CompilerError::LexerError { span, .. } => Some(*span),
            CompilerError::ParserError { span, .. } => *span,
            CompilerError::TypeError { span, .. } => Some(*span),
            CompilerError::CodegenError { span, .. } => *span,
            CompilerError::IoError(_) => None,
            CompilerError::MonomorphizationError { span, .. } => Some(*span),
        }
    }

    /// The displayed text of the error.
    pub fn message(&self) -> (res: String)
        ensures
            res@ == error_text(*self),
    {
        let (prefix, msg) = match self {
            CompilerError::LexerError { msg, .. } => ("LEXICAL: ", msg),
            CompilerError::ParserError { msg, .. } => ("SYNTACTIC: ", msg),
            CompilerError::TypeError { msg, .. } => ("SEMANTIC: ", msg),
            CompilerError::CodegenError { msg, .. } => ("Code generation error: ", msg),
            CompilerError::IoError(msg) => ("I/O error: ", msg),
            CompilerError::MonomorphizationError { msg, .. } => ("Monomorphization error: ", msg),
        };
        let mut out = String::from_str(prefix);
        out.append(msg.as_str());
        out
    }
}

/// The one-line report of an error: `(line,col) TEXT`, where the position is that of
/// the start of the error's span, or `(0,0)` when the error has no span.
pub open spec fn std_error_line(e: CompilerError, sm: SourceMap) -> Seq<char> {
    let (line, col): (int, int) = match error_span(e) {
        Some(span) => (
            sm.line_of(span.start as int),
            span.start - sm.line_start_of(span.start as int) + 1,
        ),
        None => (0, 0),
    };
    "("@ + decimal(line as nat) + ","@ + decimal(col as nat) + ") "@ + error_text(e)
}

/// Formats a single error as `(line,col) TYPE: message`; `(0,0)` when there is no span.
pub fn format_std_error(error: &CompilerError, source_map: &SourceMap) -> (res: String)
    requires
        error_span(*error) matches Some(span) ==> source_map.span_fits(span),
    ensures
        res@ == std_error_line(*error, *source_map),
{
    let (line, col) = match error.span() {
        Some(span) => {
            let (l, c, _, _) = source_map.span_to_line_col(span);
            (l, c)
        },
        None => (0, 0),
    };
    let mut out = String::from_str("(");
    push_decimal(&mut out, line);
    out.append(",");
    push_decimal(&mut out, col);
    out.append(") ");
    let text = error.message();
    out.append(text.as_str());
    proof {
        reveal_strlit("(");
        reveal_strlit(",");
        reveal_strlit(") ");
    }
    assert(out@ =~= std_error_line(*error, *source_map));
    out
}

/// The text of line `l` (1-based) of the source, without its newline.
pub open spec fn line_chars(sm: SourceMap, l: int) -> Seq<char> {
    let start = sm.starts()[l - 1] as int;
    let end: int = if l < sm.starts().len() {
        sm.starts()[l] - 1
    } else {
        sm.bytes().len() as int
    };
    decode_utf8(sm.bytes().subrange(start, end))
}

/// `n` copies of `c`.
pub open spec fn repeated(c: char, n: nat) -> Seq<char> {
    Seq::new(n, |i: int| c)
}

/// `s` right-aligned in a field of three characters.
pub open spec fn pad3(s: Seq<char>) -> Seq<char> {
    if s.len() >= 3 {
        s
    } else {
        repeated(' ', (3 - s.len()) as nat) + s
    }
}

/// The first and last columns that a located error underlines, and its line.
pub open spec fn error_columns(span: Span, sm: SourceMap) -> (int, int, int) {
    let end_pos: int = if span.end > 0 { span.end - 1 } else { 0 };
    (
        sm.line_of(span.start as int),
        span.start - sm.line_start_of(span.start as int) + 1,
        end_pos - sm.line_start_of(end_pos) + 2,
    )
}

/// The source line `line` framed for a report, with a row of `^` from column
/// `start_col` to before `end_col` (at least one).
pub open spec fn excerpt_text(sm: SourceMap, line: int, start_col: int, end_col: int) -> Seq<char> {
    let width: int = if end_col - start_col >= 1 {
        end_col - start_col
    } else {
        1
    };
    "    |\n"@ + pad3(decimal(line as nat)) + " | "@ + line_chars(sm, line) + "\n"@ + "    | "@ + repeated(
        ' ',
        (start_col - 1) as nat,
    ) + repeated('^', width as nat) + "\n"@
}

/// The detailed report of an error: its text; then, for an error with a span, the
/// file and position, the source line and a row of `^` under the span.
pub open spec fn dev_error_text(e: CompilerError, sm: SourceMap, filename: Seq<char>) -> Seq<char> {
    match error_span(e) {
        Some(span) => {
            let (line, start_col, end_col) = error_columns(span, sm);
            error_text(e) + "\n--> "@ + filename + ":"@ + decimal(line as nat) + ":"@ + decimal(start_col as nat)
                + "\n\n"@ + excerpt_text(sm, line, start_col, end_col)
        },
        None => "Error: "@ + error_text(e) + "\n"@,
    }
}

fn push_repeated(out: &mut String, c: char, n: usize)
    ensures
        final(out)@ == old(out)@ + repeated(c, n as nat),
{
    let mut k: usize = 0;
    while k < n
        invariant
            k <= n,
            out@ == old(out)@ + repeated(c, k as nat),
        decreases n - k,
    {
        push_char(out, c);
        k = k + 1;
        assert(out@ =~= old(out)@ + repeated(c, k as nat));
    }
}

fn format_excerpt(source_map: &SourceMap, line: usize, start_col: usize, end_col: usize) -> (res: String)
    requires
        1 <= line <= source_map.starts().len(),
        1 <= start_col <= end_col,
    ensures
        res@ == excerpt_text(*source_map, line as int, start_col as int, end_col as int),
{
    let mut out = String::from_str("    |\n");
    let digits = usize_to_string(line);
    let n = digits.as_str().unicode_len();
    if n < 3 {
        push_repeated(&mut out, ' ', 3 - n);
    }
    out.append(digits.as_str());
    out.append(" | ");
    match source_map.get_line(line) {
        Some(line_str) => {
            proof {
                encode_utf8_decode_utf8(line_str@);
                assert(line_str@ == line_chars(*source_map, line as int));
            }
            out.append(line_str);
        },
        None => {
            assert(false);
        },
    }
    out.append("\n    | ");
    push_repeated(&mut out, ' ', start_col - 1);
    let diff = end_col - start_col;
    let width = if diff > 1 {
        diff
    } else {
        1
    };
    push_repeated(&mut out, '^', width);
    push_char(&mut out, '\n');
    proof {
        reveal_strlit("\n    | ");
        reveal_strlit("\n");
        reveal_strlit("    | ");
        let ds = decimal(line as nat);
        if ds.len() < 3 {
            assert(pad3(ds) == repeated(' ', (3 - ds.len()) as nat) + ds);
        }
    }
    assert(out@ =~= excerpt_text(*source_map, line as int, start_col as int, end_col as int));
    out
}

/// Formats an error for a developer: the error, the file and position, the offending
/// source line and a column underline.
pub fn format_error(error: &CompilerError, source_map: &SourceMap, filename: &str) -> (res: String)
    requires
        error_span(*error) matches Some(span) ==> source_map.span_fits(span) && error_columns(span, *source_map).1
            <= error_columns(span, *source_map).2,
    ensures
        res@ == dev_error_text(*error, *source_map, filename@),
{
    let text = error.message();
    match error.span() {
        Some(span) => {
            let (start_line, start_col, _end_line, end_col) = source_map.span_to_line_col(span);
            let mut out = text;
            out.append("\n--> ");
            out.append(filename);
            out.append(":");
            push_decimal(&mut out, start_line);
            out.append(":");
            push_decimal(&mut out, start_col);
            out.append("\n\n");
            let excerpt = format_excerpt(source_map, start_line, start_col, end_col);
            out.append(excerpt.as_str());
            assert(out@ =~= dev_error_text(*error, *source_map, filename@));
            out
        },
        None => {
            let mut out = String::from_str("Error: ");
            out.append(text.as_str());
            push_char(&mut out, '\n');
            proof {
                reveal_strlit("\n");
            }
            assert(out@ =~= dev_error_text(*error, *source_map, filename@));
            out
        },
    }
}

/// The process exit code that an error stands for: 1 for a lexical error, 2 for a
/// syntactic one, 3 for any other.
pub open spec fn error_code(e: CompilerError) -> i32 {
    match e {
        CompilerError::LexerError { .. } => 1,
        CompilerError::ParserError { .. } => 2,
        _ => 3,
    }
}

/// The exit code of a failed compilation: the smallest code among the errors, 0 when
/// there are none.
pub open spec fn exit_code_of(errors: Seq<CompilerError>) -> i32
    decreases errors.len(),
{
    if errors.len() == 0 {
        0
    } else {
        let rest = exit_code_of(errors.drop_last());
        let c = error_code(errors.last());
        if rest == 0 || c < rest {
            c
        } else {
            rest
        }
    }
}

/// Exit code for a list of errors: the code of the earliest stage that failed.
pub fn exit_code(errors: &Vec<CompilerError>) -> (res: i32)
    ensures
        res == exit_code_of(errors@),
{
    let mut code: i32 = 0;
    let mut i: usize = 0;
    while i < errors.len()
        invariant
            i <= errors@.len(),
            code == exit_code_of(errors@.subrange(0, i as int)),
        decreases errors@.len() - i,
    {
        let c: i32 = match &errors[i] {
            CompilerError::LexerError { .. } => 1,
            CompilerError::ParserError { .. } => 2,
            _ => 3,
        };
        if c < code || code == 0 {
            code = c;
        }
        proof {
            let s = errors@.subrange(0, i + 1);
            assert(s.drop_last() =~= errors@.subrange(0, i as int));
            assert(s.last() == errors@[i as int]);
        }
        i = i + 1;
    }
    assert(errors@.subrange(0, i as int) =~= errors@);
    code
}

/// The exit code is 0 exactly when there is no error, and otherwise one of 1, 2, 3,
/// no larger than the code of any single error.
pub proof fn lemma_exit_code_is_minimum(errors: Seq<CompilerError>)
    ensures
        (exit_code_of(errors) == 0) <==> errors.len() == 0,
        errors.len() > 0 ==> 1 <= exit_code_of(errors) <= 3,
        forall|i: int| 0 <= i < errors.len() ==> exit_code_of(errors) <= error_code(#[trigger] errors[i]),
        errors.len() > 0 ==> exists|i: int| 0 <= i < errors.len() && exit_code_of(errors) == error_code(#[trigger] errors[i]),
    decreases errors.len(),
{
    if errors.len() > 0 {
        let d = errors.drop_last();
        lemma_exit_code_is_minimum(d);
        assert forall|i: int| 0 <= i < errors.len() implies exit_code_of(errors) <= error_code(#[trigger] errors[i]) by {
            if i < d.len() {
                assert(errors[i] == d[i]);
            }
        }
        if d.len() > 0 && exit_code_of(errors) == exit_code_of(d) {
            let w = choose|i: int| 0 <= i < d.len() && exit_code_of(d) == error_code(#[trigger] d[i]);
            assert(errors[w] == d[w]);
        } else {
            assert(exit_code_of(errors) == error_code(errors[errors.len() - 1]));
        }
    }
}

} // verus!

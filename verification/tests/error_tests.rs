use hulk::error::{exit_code, format_error, format_std_error, CompilerError};
use hulk::source_map::SourceMap;
use hulk::span::Span;

fn type_error(msg: &str, start: usize, end: usize) -> CompilerError {
    CompilerError::TypeError { msg: msg.to_string(), span: Span::new(start, end) }
}

#[test]
fn source_map_positions() {
    let sm = SourceMap::new("ab\ncd\n\nxyz".to_string());
    assert_eq!(sm.byte_to_line_col(0), (1, 1));
    assert_eq!(sm.byte_to_line_col(1), (1, 2));
    assert_eq!(sm.byte_to_line_col(3), (2, 1));
    assert_eq!(sm.byte_to_line_col(6), (3, 1));
    assert_eq!(sm.byte_to_line_col(9), (4, 3));
}

#[test]
fn source_map_span_to_line_col() {
    let sm = SourceMap::new("ab\ncd".to_string());
    assert_eq!(sm.span_to_line_col(Span::new(3, 5)), (2, 1, 2, 3));
    assert_eq!(sm.span_to_line_col(Span::new(1, 4)), (1, 2, 2, 2));
    assert_eq!(sm.span_to_line_col(Span::new(0, 0)), (1, 1, 1, 2));
}

#[test]
fn source_map_get_line() {
    let sm = SourceMap::new("first\nsecond\n".to_string());
    assert_eq!(sm.get_line(1), Some("first"));
    assert_eq!(sm.get_line(2), Some("second"));
    assert_eq!(sm.get_line(3), Some(""));
    assert_eq!(sm.get_line(4), None);
}

#[test]
fn error_spans() {
    assert_eq!(type_error("m", 1, 2).span(), Some(Span::new(1, 2)));
    assert_eq!(CompilerError::ParserError { msg: "p".to_string(), span: None }.span(), None);
    assert_eq!(CompilerError::IoError("io".to_string()).span(), None);
    let lex = CompilerError::LexerError { msg: "l".to_string(), span: Span::new(4, 5) };
    assert_eq!(lex.span(), Some(Span::new(4, 5)));
}

#[test]
fn error_messages_carry_their_kind() {
    assert_eq!(type_error("bad", 0, 1).message(), "SEMANTIC: bad");
    assert_eq!(CompilerError::LexerError { msg: "x".to_string(), span: Span::new(0, 1) }.message(), "LEXICAL: x");
    assert_eq!(CompilerError::ParserError { msg: "y".to_string(), span: None }.message(), "SYNTACTIC: y");
    assert_eq!(CompilerError::CodegenError { msg: "z".to_string(), span: None }.message(), "Code generation error: z");
    assert_eq!(CompilerError::IoError("w".to_string()).message(), "I/O error: w");
    assert_eq!(
        CompilerError::MonomorphizationError { msg: "v".to_string(), span: Span::new(0, 0) }.message(),
        "Monomorphization error: v"
    );
}

#[test]
fn std_error_format_uses_start_of_span() {
    let sm = SourceMap::new("let x = 1;\nx + true".to_string());
    let err = type_error("Cannot add Number and Boolean", 11, 19);
    assert_eq!(format_std_error(&err, &sm), "(2,1) SEMANTIC: Cannot add Number and Boolean");
    let err2 = type_error("late", 15, 16);
    assert_eq!(format_std_error(&err2, &sm), "(2,5) SEMANTIC: late");
}

#[test]
fn std_error_format_without_span() {
    let sm = SourceMap::new("abc".to_string());
    let err = CompilerError::IoError("cannot read".to_string());
    assert_eq!(format_std_error(&err, &sm), "(0,0) I/O error: cannot read");
}

#[test]
fn exit_code_is_earliest_stage() {
    assert_eq!(exit_code(&vec![]), 0);
    assert_eq!(exit_code(&vec![type_error("a", 0, 1)]), 3);
    let lex = CompilerError::LexerError { msg: "l".to_string(), span: Span::new(0, 1) };
    let parse = CompilerError::ParserError { msg: "p".to_string(), span: None };
    assert_eq!(exit_code(&vec![type_error("a", 0, 1), parse.clone()]), 2);
    assert_eq!(exit_code(&vec![parse, lex, type_error("b", 0, 1)]), 1);
    assert_eq!(exit_code(&vec![CompilerError::IoError("x".to_string())]), 3);
}

#[test]
fn developer_report_underlines_the_span() {
    let sm = SourceMap::new("let x = 1;\nx + true".to_string());
    let err = type_error("m", 15, 19);
    assert_eq!(
        format_error(&err, &sm, "f.hulk"),
        "SEMANTIC: m\n--> f.hulk:2:5\n\n    |\n  2 | x + true\n    |     ^^^^\n"
    );
}

#[test]
fn developer_report_underlines_at_least_one_column() {
    let sm = SourceMap::new("abc".to_string());
    let err = CompilerError::LexerError { msg: "bad".to_string(), span: Span::new(1, 1) };
    assert_eq!(format_error(&err, &sm, "a.hulk"), "LEXICAL: bad\n--> a.hulk:1:2\n\n    |\n  1 | abc\n    |  ^\n");
}

#[test]
fn developer_report_without_span() {
    let sm = SourceMap::new("abc".to_string());
    let err = CompilerError::IoError("gone".to_string());
    assert_eq!(format_error(&err, &sm, "a.hulk"), "Error: I/O error: gone\n");
}

#[test]
fn line_and_column_point_back_at_the_byte() {
    let source = "ab\ncd\n\nxyz";
    let sm = SourceMap::new(source.to_string());
    for (pos, byte) in source.bytes().enumerate() {
        if byte == b'\n' {
            continue;
        }
        let (line, col) = sm.byte_to_line_col(pos);
        let text = sm.get_line(line).expect("the line exists");
        assert_eq!(text.as_bytes()[col - 1], byte);
    }
}

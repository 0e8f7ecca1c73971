use p4rs::diagnostics::{check, Diagnostic, Diagnostics, Level};
use p4rs::lexer::Token;

fn found(level: Level, message: &str, line: usize) -> Diagnostic {
    Diagnostic { level, message: message.to_string(), token: Token { line, col: 4 } }
}

#[test]
fn no_error_passes() {
    let lines = vec!["header h {".to_string(), "}".to_string()];
    let mut d = Diagnostics::new();
    assert!(check(&lines, &d).is_ok());
    d.diagnostics.push(found(Level::Warning, "unused", 0));
    d.diagnostics.push(found(Level::Info, "note", 7));
    assert!(d.errors().is_empty());
    assert!(check(&lines, &d).is_ok());
}

#[test]
fn errors_come_with_their_source_line() {
    let lines = vec!["header h {".to_string(), "  bit<8> x".to_string(), "}".to_string()];
    let mut d = Diagnostics::new();
    d.diagnostics.push(found(Level::Error, "missing semicolon", 1));
    d.diagnostics.push(found(Level::Warning, "unused", 0));
    d.diagnostics.push(found(Level::Error, "unknown type", 0));
    assert_eq!(d.errors().len(), 2);
    let errors = check(&lines, &d).unwrap_err();
    assert_eq!(errors.len(), 2);
    assert_eq!(errors[0].message, "missing semicolon");
    assert_eq!(errors[0].source, "  bit<8> x");
    assert_eq!(errors[0].at, Token { line: 1, col: 4 });
    assert_eq!(errors[1].message, "unknown type");
    assert_eq!(errors[1].source, "header h {");
}

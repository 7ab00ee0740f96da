use cdm::diagnostics::{
    has_error, Diagnostic, Severity, E401_PLUGIN_NOT_FOUND, E402_INVALID_PLUGIN_CONFIG,
    E403_MISSING_PLUGIN_EXPORT, E404_PLUGIN_EXECUTION_FAILED, E405_PLUGIN_OUTPUT_TOO_LARGE,
    E406_MISSING_OUTPUT_CONFIG, E501_DUPLICATE_ENTITY_ID, E502_DUPLICATE_FIELD_ID, E503_REUSED_ID,
    W005_MISSING_ENTITY_ID, W006_MISSING_FIELD_ID,
};
use cdm::span::{Position, Span};

fn test_span() -> Span {
    Span { start: Position { line: 5, column: 10 }, end: Position { line: 5, column: 20 } }
}

#[test]
fn test_severity_equality() {
    assert_eq!(Severity::Error, Severity::Error);
    assert_eq!(Severity::Warning, Severity::Warning);
    assert_ne!(Severity::Error, Severity::Warning);
}

#[test]
fn test_severity_debug() {
    assert_eq!(format!("{:?}", Severity::Error), "Error");
    assert_eq!(format!("{:?}", Severity::Warning), "Warning");
}

#[test]
fn test_severity_copy_trait() {
    let sev1 = Severity::Error;
    let sev2 = sev1;
    assert_eq!(sev1, Severity::Error);
    assert_eq!(sev2, Severity::Error);
}

#[test]
fn test_error_codes_are_unique() {
    let codes = vec![
        E401_PLUGIN_NOT_FOUND,
        E402_INVALID_PLUGIN_CONFIG,
        E403_MISSING_PLUGIN_EXPORT,
        E404_PLUGIN_EXECUTION_FAILED,
        E405_PLUGIN_OUTPUT_TOO_LARGE,
        E406_MISSING_OUTPUT_CONFIG,
        E501_DUPLICATE_ENTITY_ID,
        E502_DUPLICATE_FIELD_ID,
        E503_REUSED_ID,
        W005_MISSING_ENTITY_ID,
        W006_MISSING_FIELD_ID,
    ];
    for (i, code1) in codes.iter().enumerate() {
        for (j, code2) in codes.iter().enumerate() {
            if i != j {
                assert_ne!(code1, code2, "Error codes {} and {} are not unique", code1, code2);
            }
        }
    }
}

#[test]
fn test_error_codes_format() {
    assert!(E401_PLUGIN_NOT_FOUND.starts_with('E'));
    assert!(E402_INVALID_PLUGIN_CONFIG.starts_with('E'));
    assert!(W005_MISSING_ENTITY_ID.starts_with('W'));
    assert!(W006_MISSING_FIELD_ID.starts_with('W'));
    assert_eq!(E401_PLUGIN_NOT_FOUND.len(), 4);
    assert_eq!(W005_MISSING_ENTITY_ID.len(), 4);
}

#[test]
fn render_counts_lines_and_columns_from_one() {
    let d = Diagnostic { message: "Test error".to_string(), severity: Severity::Error, span: test_span() };
    assert_eq!(d.render(), "error[6:11]: Test error");
    let w = Diagnostic { message: "careful".to_string(), severity: Severity::Warning, span: Span::file_start() };
    assert_eq!(w.render(), "warning[1:1]: careful");
}

#[test]
fn has_error_only_for_errors() {
    let w = Diagnostic::at_file_start(Severity::Warning, "w".to_string());
    let e = Diagnostic::at_file_start(Severity::Error, "e".to_string());
    assert!(!has_error(&[]));
    assert!(!has_error(&[w.clone()]));
    assert!(has_error(&[w, e]));
}

fn diag(message: &str, severity: Severity, span: Span) -> Diagnostic {
    Diagnostic { message: message.to_string(), severity, span }
}

fn span(sl: usize, sc: usize, el: usize, ec: usize) -> Span {
    Span { start: Position { line: sl, column: sc }, end: Position { line: el, column: ec } }
}

#[test]
fn test_diagnostic_equality() {
    assert_eq!(diag("Test error", Severity::Error, test_span()), diag("Test error", Severity::Error, test_span()));
}

#[test]
fn test_diagnostic_inequality_message() {
    assert_ne!(diag("Error 1", Severity::Error, test_span()), diag("Error 2", Severity::Error, test_span()));
}

#[test]
fn test_diagnostic_inequality_severity() {
    assert_ne!(diag("Test", Severity::Error, test_span()), diag("Test", Severity::Warning, test_span()));
}

#[test]
fn test_diagnostic_display_error() {
    let d = diag("Undefined type 'Foo'", Severity::Error, span(0, 5, 0, 10));
    assert_eq!(d.render(), "error[1:6]: Undefined type 'Foo'");
}

#[test]
fn test_diagnostic_display_warning() {
    let d = diag("Shadowing built-in type", Severity::Warning, span(10, 0, 10, 15));
    assert_eq!(d.render(), "warning[11:1]: Shadowing built-in type");
}

#[test]
fn test_diagnostic_display_multiline_span() {
    let d = diag("Syntax error", Severity::Error, span(5, 10, 7, 5));
    assert_eq!(d.render(), "error[6:11]: Syntax error");
}

#[test]
fn test_diagnostic_clone() {
    let diag1 = diag("Test error", Severity::Error, test_span());
    let diag2 = diag1.clone();
    assert_eq!(diag1, diag2);
}

#[test]
fn test_diagnostic_debug() {
    let debug_output = format!("{:?}", diag("Test", Severity::Error, test_span()));
    assert!(debug_output.contains("Test"));
    assert!(debug_output.contains("Error"));
}

#[test]
fn test_diagnostic_with_long_message() {
    let long_message = "This is a very long error message that contains a lot of information about what went wrong in the validation process. It should still be displayed correctly regardless of its length.";
    let output = diag(long_message, Severity::Error, test_span()).render();
    assert!(output.contains(long_message));
    assert!(output.starts_with("error[6:11]: "));
}

#[test]
fn test_diagnostic_with_special_characters() {
    let output = diag("Type 'User<T>' cannot extend 'Base<U>'", Severity::Error, test_span()).render();
    assert!(output.contains("User<T>"));
    assert!(output.contains("Base<U>"));
}

#[test]
fn test_diagnostic_with_newlines_in_message() {
    let output = diag("Multiple errors:\n- Error 1\n- Error 2", Severity::Error, test_span()).render();
    assert!(output.contains("Multiple errors"));
    assert!(output.contains("Error 1"));
    assert!(output.contains("Error 2"));
}

#[test]
fn test_diagnostic_span_zero_based() {
    let output = diag("Error at start of file", Severity::Error, span(0, 0, 0, 5)).render();
    assert_eq!(output, "error[1:1]: Error at start of file");
}

#[test]
fn test_diagnostic_vector_operations() {
    let mut diagnostics = Vec::new();
    diagnostics.push(diag("Error 1", Severity::Error, test_span()));
    diagnostics.push(diag("Warning 1", Severity::Warning, test_span()));
    assert_eq!(diagnostics.len(), 2);
    let errors: Vec<_> = diagnostics.iter().filter(|d| d.severity == Severity::Error).collect();
    assert_eq!(errors.len(), 1);
    assert_eq!(errors[0].message, "Error 1");
}

#[test]
fn test_diagnostic_with_unicode() {
    let output = diag("Type '用户' is undefined 🚨", Severity::Error, test_span()).render();
    assert!(output.contains("用户"));
    assert!(output.contains("🚨"));
}

use vstd::prelude::*;

use crate::span::Span;
use crate::text::{decimal, decimal_chars, push_all, push_str, string_from_chars};

verus! {

/// How serious a diagnostic is.
#[derive(Debug, Clone, Copy, PartialEq, Eq, Structural)]
pub enum Severity {
    Error,
    Warning,
}

/// A message about a location in a CDM source file.
#[derive(Debug, Clone, PartialEq, Eq)]
pub struct Diagnostic {
    pub message: String,
    pub severity: Severity,
    pub span: Span,
}

// Semantic error codes
pub const E104_RESERVED_TYPE_NAME: &'static str = "E104";

// Plugin error codes
pub const E401_PLUGIN_NOT_FOUND: &'static str = "E401";
pub const E402_INVALID_PLUGIN_CONFIG: &'static str = "E402";
pub const E403_MISSING_PLUGIN_EXPORT: &'static str = "E403";
pub const E404_PLUGIN_EXECUTION_FAILED: &'static str = "E404";
pub const E405_PLUGIN_OUTPUT_TOO_LARGE: &'static str = "E405";
pub const E406_MISSING_OUTPUT_CONFIG: &'static str = "E406";

// Entity ID error codes
pub const E501_DUPLICATE_ENTITY_ID: &'static str = "E501";
pub const E502_DUPLICATE_FIELD_ID: &'static str = "E502";
pub const E503_REUSED_ID: &'static str = "E503";

// Template error codes
pub const E601_TEMPLATE_NOT_FOUND: &'static str = "E601";
pub const E602_TEMPLATE_RESOLUTION_FAILED: &'static str = "E602";

// Entity ID warning codes
pub const W005_MISSING_ENTITY_ID: &'static str = "W005";
pub const W006_MISSING_FIELD_ID: &'static str = "W006";

/// The word that starts a rendered diagnostic.
pub open spec fn severity_word(s: Severity) -> Seq<char> {
    match s {
        Severity::Error => seq!['e', 'r', 'r', 'o', 'r'],
        Severity::Warning => seq!['w', 'a', 'r', 'n', 'i', 'n', 'g'],
    }
}

/// `severity[line:column]: message`, with the line and column counted from one.
pub open spec fn rendered(d: Diagnostic) -> Seq<char> {
    severity_word(d.severity) + seq!['['] + decimal(d.span.start.line as nat + 1) + seq![':']
        + decimal(d.span.start.column as nat + 1) + seq![']', ':', ' '] + d.message@
}

impl Diagnostic {
    /// A diagnostic with the given severity and message at the start of the file.
    pub fn at_file_start(severity: Severity, message: String) -> (d: Diagnostic)
        ensures
            d.severity == severity,
            d.message@ == message@,
            d.span == Span::spec_file_start(),
    {
        Diagnostic { message, severity, span: Span::file_start() }
    }

    /// The text that the diagnostic is shown as to users.
    pub fn render(&self) -> (s: String)
        requires
            self.span.start.line < u64::MAX,
            self.span.start.column < u64::MAX,
        ensures
            s@ == rendered(*self),
    {
        let mut out: Vec<char> = Vec::new();
        match self.severity {
            Severity::Error => push_str(&mut out, "error"),
            Severity::Warning => push_str(&mut out, "warning"),
        }
        proof {
            reveal_strlit("error");
            reveal_strlit("warning");
        }
        out.push('[');
        let line = decimal_chars(self.span.start.line as u64 + 1);
        push_all(&mut out, line.as_slice());
        out.push(':');
        let col = decimal_chars(self.span.start.column as u64 + 1);
        push_all(&mut out, col.as_slice());
        out.push(']');
        out.push(':');
        out.push(' ');
        push_str(&mut out, self.message.as_str());
        string_from_chars(out.as_slice())
    }
}

/// Whether any of the diagnostics is an error.
pub fn has_error(diagnostics: &[Diagnostic]) -> (b: bool)
    ensures
        b == exists|i: int| 0 <= i < diagnostics@.len() && diagnostics@[i].severity == Severity::Error,
{
    let mut i: usize = 0;
    while i < diagnostics.len()
        invariant
            i <= diagnostics@.len(),
            forall|j: int| 0 <= j < i ==> diagnostics@[j].severity != Severity::Error,
        decreases diagnostics@.len() - i,
    {
        if diagnostics[i].severity == Severity::Error {
            return true;
        }
        i = i + 1;
    }
    false
}

} // verus!

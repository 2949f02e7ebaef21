//! Diagnostics: every stage of the pipeline reports its failures as a
//! [`CompilerError`], a closed set of kinds each carrying one message.

use vstd::prelude::*;

use crate::text;

verus! {

/// A diagnostic produced by one stage of the pipeline.
#[derive(Debug, Clone)]
pub enum CompilerError {
    /// Lexical analysis error
    LexError(String),
    /// Parse error
    ParseError(String),
    /// Semantic analysis error
    SemanticError(String),
    /// Code generation error
    CodegenError(String),
    /// Internal error
    InternalError(String),
}

/// The model of a diagnostic: its kind and the characters of its message.
pub enum ErrorModel {
    Lex(Seq<char>),
    Parse(Seq<char>),
    Semantic(Seq<char>),
    Codegen(Seq<char>),
    Internal(Seq<char>),
}

impl DeepView for CompilerError {
    type V = ErrorModel;

    open spec fn deep_view(&self) -> ErrorModel {
        match self {
            CompilerError::LexError(m) => ErrorModel::Lex(m@),
            CompilerError::ParseError(m) => ErrorModel::Parse(m@),
            CompilerError::SemanticError(m) => ErrorModel::Semantic(m@),
            CompilerError::CodegenError(m) => ErrorModel::Codegen(m@),
            CompilerError::InternalError(m) => ErrorModel::Internal(m@),
        }
    }
}

impl View for CompilerError {
    type V = ErrorModel;

    open spec fn view(&self) -> ErrorModel {
        self.deep_view()
    }
}

/// The one-line rendering of a diagnostic: a kind prefix and the message.
pub open spec fn spec_error_display(e: ErrorModel) -> Seq<char> {
    match e {
        ErrorModel::Lex(m) => "Lexical analysis error: "@ + m,
        ErrorModel::Parse(m) => "Parse error: "@ + m,
        ErrorModel::Semantic(m) => "Semantic analysis error: "@ + m,
        ErrorModel::Codegen(m) => "Code generation error: "@ + m,
        ErrorModel::Internal(m) => "Internal error: "@ + m,
    }
}

/// The machine-readable label of a diagnostic kind.
pub open spec fn spec_error_label(e: ErrorModel) -> Seq<char> {
    match e {
        ErrorModel::Lex(_) => "lexical_error"@,
        ErrorModel::Parse(_) => "parse_error"@,
        ErrorModel::Semantic(_) => "semantic_error"@,
        ErrorModel::Codegen(_) => "codegen_error"@,
        ErrorModel::Internal(_) => "internal_error"@,
    }
}

/// The fixed detail sentence of a diagnostic kind.
pub open spec fn spec_error_details(e: ErrorModel) -> Seq<char> {
    match e {
        ErrorModel::Lex(_) => "Error occurred during tokenization"@,
        ErrorModel::Parse(_) => "Error occurred during syntax analysis"@,
        ErrorModel::Semantic(_) => "Error occurred during semantic analysis"@,
        ErrorModel::Codegen(_) => "Error occurred during code generation"@,
        ErrorModel::Internal(_) => "An unexpected internal error occurred"@,
    }
}

/// The canned suggestion attached to a diagnostic, keyed on well-known
/// substrings of its message.
pub open spec fn spec_error_suggestion(e: ErrorModel) -> Seq<char> {
    match e {
        ErrorModel::Lex(m) => if text::contains_seq(m, "Unexpected character"@) {
            "Check for typos in operators and symbols"@
        } else if text::contains_seq(m, "Unterminated string"@) {
            "Make sure string literals are properly closed with quotes"@
        } else {
            "Check the syntax of your Kururi code"@
        },
        ErrorModel::Parse(m) => if text::contains_seq(m, "Unexpected token"@) {
            "Check the syntax near the highlighted token"@
        } else {
            "Verify that your code follows Kururi syntax rules"@
        },
        ErrorModel::Semantic(m) => if text::contains_seq(m, "Undefined variable"@) {
            "Make sure the variable is declared before use"@
        } else if text::contains_seq(m, "Undefined function"@) {
            "Check function name spelling and make sure it exists"@
        } else if text::contains_seq(m, "Type mismatch"@) {
            "Check that variable types match their assigned values"@
        } else {
            "Review variable declarations and function calls"@
        },
        ErrorModel::Codegen(_) => "This is likely an internal error, please report it"@,
        ErrorModel::Internal(_) => "Please report this issue with your source code"@,
    }
}

impl CompilerError {
    /// Renders the diagnostic as one line of text, kind prefix included.
    pub fn display_text(&self) -> (r: String)
        ensures
            r@ == spec_error_display(self.deep_view()),
    {
        let mut out: Vec<char> = Vec::new();
        match self {
            CompilerError::LexError(m) => {
                text::push_str_chars(&mut out, "Lexical analysis error: ");
                text::push_str_chars(&mut out, m.as_str());
            },
            CompilerError::ParseError(m) => {
                text::push_str_chars(&mut out, "Parse error: ");
                text::push_str_chars(&mut out, m.as_str());
            },
            CompilerError::SemanticError(m) => {
                text::push_str_chars(&mut out, "Semantic analysis error: ");
                text::push_str_chars(&mut out, m.as_str());
            },
            CompilerError::CodegenError(m) => {
                text::push_str_chars(&mut out, "Code generation error: ");
                text::push_str_chars(&mut out, m.as_str());
            },
            CompilerError::InternalError(m) => {
                text::push_str_chars(&mut out, "Internal error: ");
                text::push_str_chars(&mut out, m.as_str());
            },
        }
        text::chars_to_string(&out)
    }
}

/// The shape a diagnostic takes at the service boundary: rendered message,
/// kind label, a detail sentence and suggestions.
#[derive(Debug, Clone)]
pub struct ErrorResponse {
    pub error: String,
    pub error_type: String,
    pub details: Option<String>,
    pub suggestions: Vec<String>,
}

impl ErrorResponse {
    /// Builds the response for a diagnostic: the rendered error line, the
    /// kind label, the kind's detail sentence, and one suggestion chosen by
    /// the message content.
    pub fn from_error(error: &CompilerError) -> (r: ErrorResponse)
        ensures
            r.error@ == spec_error_display(error.deep_view()),
            r.error_type@ == spec_error_label(error.deep_view()),
            r.details matches Some(d) && d@ == spec_error_details(error.deep_view()),
            r.suggestions.deep_view() =~= seq![spec_error_suggestion(error.deep_view())],
    {
        let error_text = error.display_text();
        let (label, details_text): (&str, &str) = match error {
            CompilerError::LexError(_) => ("lexical_error", "Error occurred during tokenization"),
            CompilerError::ParseError(_) => ("parse_error", "Error occurred during syntax analysis"),
            CompilerError::SemanticError(_) => (
                "semantic_error",
                "Error occurred during semantic analysis",
            ),
            CompilerError::CodegenError(_) => (
                "codegen_error",
                "Error occurred during code generation",
            ),
            CompilerError::InternalError(_) => (
                "internal_error",
                "An unexpected internal error occurred",
            ),
        };
        let suggestion: &str = match error {
            CompilerError::LexError(m) => if text::string_contains(m, "Unexpected character") {
                "Check for typos in operators and symbols"
            } else if text::string_contains(m, "Unterminated string") {
                "Make sure string literals are properly closed with quotes"
            } else {
                "Check the syntax of your Kururi code"
            },
            CompilerError::ParseError(m) => if text::string_contains(m, "Unexpected token") {
                "Check the syntax near the highlighted token"
            } else {
                "Verify that your code follows Kururi syntax rules"
            },
            CompilerError::SemanticError(m) => if text::string_contains(m, "Undefined variable") {
                "Make sure the variable is declared before use"
            } else if text::string_contains(m, "Undefined function") {
                "Check function name spelling and make sure it exists"
            } else if text::string_contains(m, "Type mismatch") {
                "Check that variable types match their assigned values"
            } else {
                "Review variable declarations and function calls"
            },
            CompilerError::CodegenError(_) => "This is likely an internal error, please report it",
            CompilerError::InternalError(_) => "Please report this issue with your source code",
        };
        let mut suggestions: Vec<String> = Vec::new();
        suggestions.push(String::from_str(suggestion));
        ErrorResponse {
            error: error_text,
            error_type: String::from_str(label),
            details: Some(String::from_str(details_text)),
            suggestions,
        }
    }
}

} // verus!

//! Error values shared by every validator: a stable code, a category, the
//! row/column coordinates where they apply, a message and structured details.
use vstd::prelude::*;

verus! {

/// High-level error category used for JSON reporting.
#[derive(Debug, Clone, Copy, PartialEq, Eq, Structural)]
pub enum ErrorCategory {
    Lexical,
    Structure,
    Semantic,
    Relational,
    Io,
}

/// The name under which a category appears in reports.
pub open spec fn category_name(c: ErrorCategory) -> Seq<char> {
    match c {
        ErrorCategory::Lexical => "lexical"@,
        ErrorCategory::Structure => "structural"@,
        ErrorCategory::Semantic => "semantic"@,
        ErrorCategory::Relational => "relational"@,
        ErrorCategory::Io => "io"@,
    }
}

impl ErrorCategory {
    /// The report name of this category.
    pub fn as_str(&self) -> (s: &'static str)
        ensures
            s@ == category_name(*self),
    {
        match self {
            ErrorCategory::Lexical => "lexical",
            ErrorCategory::Structure => "structural",
            ErrorCategory::Semantic => "semantic",
            ErrorCategory::Relational => "relational",
            ErrorCategory::Io => "io",
        }
    }
}

/// A scalar in the structured details of an error.
#[derive(Debug, Clone)]
pub enum DetailValue {
    Text(String),
    Number(u64),
}

/// The mathematical value of a [`DetailValue`].
pub enum DetailView {
    Text(Seq<char>),
    Number(u64),
}

impl View for DetailValue {
    type V = DetailView;

    open spec fn view(&self) -> DetailView {
        match self {
            DetailValue::Text(s) => DetailView::Text(s@),
            DetailValue::Number(n) => DetailView::Number(*n),
        }
    }
}

/// Structured details of an error: named scalars, in the order they are reported.
pub type Details = Vec<(&'static str, DetailValue)>;

/// The mathematical value of [`Details`].
pub open spec fn details_view(d: Seq<(&'static str, DetailValue)>) -> Seq<(Seq<char>, DetailView)> {
    d.map_values(|p: (&'static str, DetailValue)| (p.0@, p.1@))
}

/// Structured validation error used throughout the library.
#[derive(Debug, Clone)]
pub enum ValidationError {
    Schema { code: &'static str, message: String },
    Structure { code: &'static str, row: usize, column: usize, message: String },
    Semantic {
        code: &'static str,
        row: usize,
        column: usize,
        message: String,
        details: Details,
    },
    Relational {
        code: &'static str,
        row: usize,
        column: usize,
        message: String,
        details: Details,
    },
    Io { code: &'static str, path: Option<String>, message: String },
}

/// The mathematical value of a [`ValidationError`].
pub enum ErrorView {
    Schema { code: Seq<char>, message: Seq<char> },
    Structure { code: Seq<char>, row: usize, column: usize, message: Seq<char> },
    Semantic {
        code: Seq<char>,
        row: usize,
        column: usize,
        message: Seq<char>,
        details: Seq<(Seq<char>, DetailView)>,
    },
    Relational {
        code: Seq<char>,
        row: usize,
        column: usize,
        message: Seq<char>,
        details: Seq<(Seq<char>, DetailView)>,
    },
    Io { code: Seq<char>, path: Option<Seq<char>>, message: Seq<char> },
}

impl View for ValidationError {
    type V = ErrorView;

    open spec fn view(&self) -> ErrorView {
        match self {
            ValidationError::Schema { code, message } => ErrorView::Schema {
                code: code@,
                message: message@,
            },
            ValidationError::Structure { code, row, column, message } => ErrorView::Structure {
                code: code@,
                row: *row,
                column: *column,
                message: message@,
            },
            ValidationError::Semantic { code, row, column, message, details } =>
                ErrorView::Semantic {
                code: code@,
                row: *row,
                column: *column,
                message: message@,
                details: details_view(details@),
            },
            ValidationError::Relational { code, row, column, message, details } =>
                ErrorView::Relational {
                code: code@,
                row: *row,
                column: *column,
                message: message@,
                details: details_view(details@),
            },
            ValidationError::Io { code, path, message } => ErrorView::Io {
                code: code@,
                path: match path {
                    Some(p) => Some(p@),
                    None => None,
                },
                message: message@,
            },
        }
    }
}

/// The category an error is reported under.
pub open spec fn category_of(e: ErrorView) -> ErrorCategory {
    match e {
        ErrorView::Schema { .. } => ErrorCategory::Structure,
        ErrorView::Structure { .. } => ErrorCategory::Structure,
        ErrorView::Semantic { .. } => ErrorCategory::Semantic,
        ErrorView::Relational { .. } => ErrorCategory::Relational,
        ErrorView::Io { .. } => ErrorCategory::Io,
    }
}

/// The stable code of an error.
pub open spec fn code_of(e: ErrorView) -> Seq<char> {
    match e {
        ErrorView::Schema { code, .. } => code,
        ErrorView::Structure { code, .. } => code,
        ErrorView::Semantic { code, .. } => code,
        ErrorView::Relational { code, .. } => code,
        ErrorView::Io { code, .. } => code,
    }
}

/// A semantic error with no cell coordinates (row and column 0) and no details.
pub open spec fn semantic_view(code: Seq<char>, message: Seq<char>) -> ErrorView {
    ErrorView::Semantic { code, row: 0, column: 0, message, details: Seq::empty() }
}

impl ValidationError {
    /// The category this error is reported under.
    pub fn category(&self) -> (c: ErrorCategory)
        ensures
            c == category_of(self@),
    {
        match self {
            ValidationError::Schema { .. } => ErrorCategory::Structure,
            ValidationError::Structure { .. } => ErrorCategory::Structure,
            ValidationError::Semantic { .. } => ErrorCategory::Semantic,
            ValidationError::Relational { .. } => ErrorCategory::Relational,
            ValidationError::Io { .. } => ErrorCategory::Io,
        }
    }

    /// The stable code of this error.
    pub fn code(&self) -> (c: &'static str)
        ensures
            c@ == code_of(self@),
    {
        match self {
            ValidationError::Schema { code, .. } => code,
            ValidationError::Structure { code, .. } => code,
            ValidationError::Semantic { code, .. } => code,
            ValidationError::Relational { code, .. } => code,
            ValidationError::Io { code, .. } => code,
        }
    }

    /// A semantic error that concerns no particular cell.
    pub fn semantic(code: &'static str, message: String) -> (e: ValidationError)
        ensures
            e@ == semantic_view(code@, message@),
    {
        let details: Details = Vec::new();
        let e = ValidationError::Semantic { code, row: 0, column: 0, message, details };
        assert(details_view(details@) =~= Seq::empty());
        e
    }
}

/// The mathematical value of an optional error.
pub open spec fn error_opt_view(e: Option<ValidationError>) -> Option<ErrorView> {
    match e {
        Some(x) => Some(x@),
        None => None,
    }
}

/// A check result agrees with an expected outcome: `Ok` exactly when no error
/// is expected, and otherwise the expected error.
pub open spec fn outcome_is(r: Result<(), ValidationError>, expected: Option<ErrorView>) -> bool {
    match r {
        Ok(_) => expected is None,
        Err(e) => expected == Some(e@),
    }
}

/// Details with two entries, in the given order.
pub fn details2(k1: &'static str, v1: DetailValue, k2: &'static str, v2: DetailValue) -> (d: Details)
    ensures
        details_view(d@) == seq![(k1@, v1@), (k2@, v2@)],
{
    let mut d: Details = Vec::new();
    d.push((k1, v1));
    d.push((k2, v2));
    assert(details_view(d@) =~= seq![(k1@, v1@), (k2@, v2@)]);
    d
}

/// Details with three entries, in the given order.
pub fn details3(
    k1: &'static str,
    v1: DetailValue,
    k2: &'static str,
    v2: DetailValue,
    k3: &'static str,
    v3: DetailValue,
) -> (d: Details)
    ensures
        details_view(d@) == seq![(k1@, v1@), (k2@, v2@), (k3@, v3@)],
{
    let mut d: Details = Vec::new();
    d.push((k1, v1));
    d.push((k2, v2));
    d.push((k3, v3));
    assert(details_view(d@) =~= seq![(k1@, v1@), (k2@, v2@), (k3@, v3@)]);
    d
}

/// A semantic error about one cell, with details.
pub fn semantic_error(code: &'static str, row: usize, column: usize, message: String, details: Details) -> (e: ValidationError)
    ensures
        e@ == (ErrorView::Semantic { code: code@, row, column, message: message@, details: details_view(details@) }),
{
    ValidationError::Semantic { code, row, column, message, details }
}

} // verus!

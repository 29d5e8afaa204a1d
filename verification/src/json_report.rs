//! The machine-readable error report of a validation run: a versioned summary
//! with per-category counts and one entry per error.
use vstd::prelude::*;

use crate::error::{category_name, category_of, code_of, details_view, DetailView, Details, ErrorCategory, ErrorView, ValidationError};

verus! {

/// Top-level report structure.
#[derive(Debug)]
pub struct ErrorReport {
    pub version: u32,
    pub file: String,
    pub schema_id: Option<String>,
    pub summary: ErrorSummary,
    pub errors: Vec<ErrorEntry>,
}

/// Totals of a report.
#[derive(Debug)]
pub struct ErrorSummary {
    pub total_rows: usize,
    pub errors: usize,
    pub categories: CategoryCounts,
}

/// Number of errors in each category.
#[derive(Debug)]
pub struct CategoryCounts {
    pub lexical: usize,
    pub structural: usize,
    pub semantic: usize,
    pub relational: usize,
    pub io: usize,
}

impl Default for CategoryCounts {
    fn default() -> (c: Self)
        ensures
            c.lexical == 0 && c.structural == 0 && c.semantic == 0 && c.relational == 0 && c.io == 0,
    {
        CategoryCounts { lexical: 0, structural: 0, semantic: 0, relational: 0, io: 0 }
    }
}

/// One reported error.
#[derive(Debug)]
pub struct ErrorEntry {
    pub row: Option<usize>,
    pub column: Option<usize>,
    pub column_name: Option<String>,
    pub category: String,
    pub code: String,
    pub message: String,
    pub details: Option<Details>,
}

/// The mathematical value of an [`ErrorEntry`].
pub struct EntryView {
    pub row: Option<usize>,
    pub column: Option<usize>,
    pub column_name: Option<Seq<char>>,
    pub category: Seq<char>,
    pub code: Seq<char>,
    pub message: Seq<char>,
    pub details: Option<Seq<(Seq<char>, DetailView)>>,
}

/// The text of an optional string.
pub open spec fn opt_text(s: Option<String>) -> Option<Seq<char>> {
    match s {
        Some(x) => Some(x@),
        None => None,
    }
}

impl View for ErrorEntry {
    type V = EntryView;

    open spec fn view(&self) -> EntryView {
        EntryView {
            row: self.row,
            column: self.column,
            column_name: opt_text(self.column_name),
            category: self.category@,
            code: self.code@,
            message: self.message@,
            details: match self.details {
                Some(d) => Some(details_view(d@)),
                None => None,
            },
        }
    }
}

/// The report entry of error `e`, attributed to column `column_name`.
pub open spec fn entry_of(e: ErrorView, column_name: Option<Seq<char>>) -> EntryView {
    let category = category_name(category_of(e));
    let code = code_of(e);
    match e {
        ErrorView::Schema { message, .. } => EntryView {
            row: None, column: None, column_name, category, code, message, details: None,
        },
        ErrorView::Structure { row, column, message, .. } => EntryView {
            row: Some(row), column: Some(column), column_name, category, code, message, details: None,
        },
        ErrorView::Semantic { row, column, message, details, .. } => EntryView {
            row: Some(row), column: Some(column), column_name, category, code, message, details: Some(details),
        },
        ErrorView::Relational { row, column, message, details, .. } => EntryView {
            row: Some(row), column: Some(column), column_name, category, code, message, details: Some(details),
        },
        ErrorView::Io { message, .. } => EntryView {
            row: None, column: None, column_name, category, code, message, details: None,
        },
    }
}

/// The errors of a report input, as values.
pub open spec fn inputs_view(v: Seq<(ValidationError, Option<String>)>) -> Seq<(ErrorView, Option<Seq<char>>)> {
    v.map_values(|p: (ValidationError, Option<String>)| (p.0@, opt_text(p.1)))
}

/// How many of `errs` fall in category `c`.
pub open spec fn count_in(errs: Seq<(ErrorView, Option<Seq<char>>)>, c: ErrorCategory) -> nat
    decreases errs.len(),
{
    if errs.len() == 0 {
        0
    } else {
        count_in(errs.drop_last(), c) + if category_of(errs.last().0) == c { 1nat } else { 0nat }
    }
}

proof fn lemma_count_bound(errs: Seq<(ErrorView, Option<Seq<char>>)>, c: ErrorCategory)
    ensures
        count_in(errs, c) <= errs.len(),
    decreases errs.len(),
{
    if errs.len() > 0 {
        lemma_count_bound(errs.drop_last(), c);
    }
}

/// Builds the report of a validation of `file` against the schema `schema_id`
/// over `total_rows` data rows, from its errors, each with the name of the
/// column it concerns where known.
///
/// The report has version 1, one entry per error in the given order, and
/// counts the errors of each category.
pub fn build_error_report(
    file: &str,
    schema_id: Option<&str>,
    total_rows: usize,
    errors: Vec<(ValidationError, Option<String>)>,
) -> (report: ErrorReport)
    ensures
        report.version == 1,
        report.file@ == file@,
        report.schema_id is Some <==> schema_id is Some,
        schema_id matches Some(s) ==> report.schema_id->0@ == s@,
        report.summary.total_rows == total_rows,
        report.summary.errors == errors@.len(),
        report.summary.categories.lexical == count_in(inputs_view(errors@), ErrorCategory::Lexical),
        report.summary.categories.structural == count_in(inputs_view(errors@), ErrorCategory::Structure),
        report.summary.categories.semantic == count_in(inputs_view(errors@), ErrorCategory::Semantic),
        report.summary.categories.relational == count_in(inputs_view(errors@), ErrorCategory::Relational),
        report.summary.categories.io == count_in(inputs_view(errors@), ErrorCategory::Io),
        report.errors@.len() == errors@.len(),
        forall|i: int| 0 <= i < errors@.len() ==>
            #[trigger] report.errors@[i]@ == entry_of(inputs_view(errors@)[i].0, inputs_view(errors@)[i].1),
{
    let ghost inputs = inputs_view(errors@);
    let n = errors.len();
    let mut counts = CategoryCounts::default();
    let mut entries: Vec<ErrorEntry> = Vec::new();
    for pair in it: errors.into_iter()
        invariant
            inputs == inputs_view(it.seq()),
            n == it.seq().len(),
            entries@.len() == it.index(),
            it.index() <= n,
            forall|i: int| 0 <= i < entries@.len() ==> #[trigger] entries@[i]@ == entry_of(inputs[i].0, inputs[i].1),
            counts.lexical == count_in(inputs.take(it.index() as int), ErrorCategory::Lexical),
            counts.structural == count_in(inputs.take(it.index() as int), ErrorCategory::Structure),
            counts.semantic == count_in(inputs.take(it.index() as int), ErrorCategory::Semantic),
            counts.relational == count_in(inputs.take(it.index() as int), ErrorCategory::Relational),
            counts.io == count_in(inputs.take(it.index() as int), ErrorCategory::Io),
    {
        let ghost k = it.index() as int;
        let (err, column_name) = pair;
        assert(inputs[k] == (err@, opt_text(column_name)));
        assert(inputs.take(k + 1).drop_last() =~= inputs.take(k));
        assert(inputs.take(k + 1).last() == inputs[k]);
        proof {
            lemma_count_bound(inputs.take(k), ErrorCategory::Lexical);
            lemma_count_bound(inputs.take(k), ErrorCategory::Structure);
            lemma_count_bound(inputs.take(k), ErrorCategory::Semantic);
            lemma_count_bound(inputs.take(k), ErrorCategory::Relational);
            lemma_count_bound(inputs.take(k), ErrorCategory::Io);
        }
        let category = err.category();
        match category {
            ErrorCategory::Lexical => counts.lexical = counts.lexical + 1,
            ErrorCategory::Structure => counts.structural = counts.structural + 1,
            ErrorCategory::Semantic => counts.semantic = counts.semantic + 1,
            ErrorCategory::Relational => counts.relational = counts.relational + 1,
            ErrorCategory::Io => counts.io = counts.io + 1,
        }
        let category_text = String::from_str(category.as_str());
        let code = String::from_str(err.code());
        let entry = match err {
            ValidationError::Schema { message, .. } => ErrorEntry {
                row: None, column: None, column_name, category: category_text, code, message, details: None,
            },
            ValidationError::Structure { row, column, message, .. } => ErrorEntry {
                row: Some(row), column: Some(column), column_name, category: category_text, code, message,
                details: None,
            },
            ValidationError::Semantic { row, column, message, details, .. } => ErrorEntry {
                row: Some(row), column: Some(column), column_name, category: category_text, code, message,
                details: Some(details),
            },
            ValidationError::Relational { row, column, message, details, .. } => ErrorEntry {
                row: Some(row), column: Some(column), column_name, category: category_text, code, message,
                details: Some(details),
            },
            ValidationError::Io { message, .. } => ErrorEntry {
                row: None, column: None, column_name, category: category_text, code, message, details: None,
            },
        };
        entries.push(entry);
    }
    assert(inputs.take(n as int) =~= inputs);
    let summary = ErrorSummary { total_rows, errors: entries.len(), categories: counts };
    let schema_id = match schema_id {
        Some(s) => Some(String::from_str(s)),
        None => None,
    };
    ErrorReport { version: 1, file: String::from_str(file), schema_id, summary, errors: entries }
}

/// Every error falls in exactly one category, so the category counts of a
/// report add up to its number of errors.
pub proof fn law_category_counts_add_up(errs: Seq<(ErrorView, Option<Seq<char>>)>)
    ensures
        count_in(errs, ErrorCategory::Lexical) + count_in(errs, ErrorCategory::Structure)
            + count_in(errs, ErrorCategory::Semantic) + count_in(errs, ErrorCategory::Relational)
            + count_in(errs, ErrorCategory::Io) == errs.len(),
    decreases errs.len(),
{
    if errs.len() > 0 {
        law_category_counts_add_up(errs.drop_last());
    }
}

} // verus!

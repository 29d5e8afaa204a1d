//! Schema validation of a CSV text: the header must name the schema's columns
//! in order, every record must have as many fields, and each non-empty cell
//! must satisfy its column's type.
use vstd::prelude::*;

use crate::csv_read::{csv_table_of, read_csv_table, row_view, CsvTable, CsvTableView};
use crate::error::{error_opt_view, outcome_is, Details, ErrorView, ValidationError};
use crate::schema::{Column, Schema};
use crate::text::{
    debug_str, debug_text, decimal, decimal_text, parse_u64, split_on, split_text, str_eq,
    text_in, texts, trim, trimmed, u64_of_text,
};

verus! {

/// Options of a validation run.
#[derive(Debug, Clone)]
pub struct ValidationOptions {
    /// Validate at most this many data records.
    pub max_rows: Option<usize>,
    /// Where the allowed neurorights flags are configured.
    pub neurorights_flags_path: Option<String>,
}

impl Default for ValidationOptions {
    fn default() -> (o: Self)
        ensures
            o.max_rows is None,
            o.neurorights_flags_path is None,
    {
        ValidationOptions { max_rows: None, neurorights_flags_path: None }
    }
}

/// A structural error.
pub open spec fn structure_view(code: Seq<char>, row: usize, column: usize, message: Seq<char>) -> ErrorView {
    ErrorView::Structure { code, row, column, message }
}

/// A semantic error about one cell, without details.
pub open spec fn cell_view(code: Seq<char>, row: usize, column: usize, message: Seq<char>) -> ErrorView {
    ErrorView::Semantic { code, row, column, message, details: Seq::empty() }
}

/// The first header position, from `k` on, whose name differs from the schema's.
pub open spec fn header_name_outcome(h: Seq<Seq<char>>, cols: Seq<Column>, k: int) -> Option<ErrorView>
    decreases cols.len() - k,
{
    if k < 0 || k >= cols.len() {
        None
    } else if h[k] != cols[k].name@ {
        Some(structure_view(
            "CSV_HEADER_NAME_MISMATCH"@,
            0,
            (k + 1) as usize,
            "header name mismatch at index "@ + decimal_text(k as nat) + ": csv="@ + debug_text(h[k])
                + ", schema="@ + debug_text(cols[k].name@),
        ))
    } else {
        header_name_outcome(h, cols, k + 1)
    }
}

/// What the header row of a table gives against the schema columns.
pub open spec fn header_outcome(header: Result<Seq<Seq<char>>, Seq<char>>, cols: Seq<Column>) -> Option<ErrorView> {
    match header {
        Err(e) => Some(structure_view("CSV_HEADER_UNREADABLE"@, 0, 0, "failed to read header row: "@ + e)),
        Ok(h) => if h.len() != cols.len() {
            Some(structure_view(
                "CSV_HEADER_COLUMN_COUNT"@,
                0,
                0,
                "header column count mismatch: csv="@ + decimal_text(h.len()) + ", schema="@
                    + decimal_text(cols.len()),
            ))
        } else {
            header_name_outcome(h, cols, 0)
        },
    }
}

/// The first trimmed, non-empty token from position `k` on that is not allowed.
pub open spec fn first_bad_flag(tokens: Seq<Seq<char>>, allowed: Seq<Seq<char>>, k: int) -> Option<Seq<char>>
    decreases tokens.len() - k,
{
    if k < 0 || k >= tokens.len() {
        None
    } else if trimmed(tokens[k]).len() > 0 && !allowed.contains(trimmed(tokens[k])) {
        Some(trimmed(tokens[k]))
    } else {
        first_bad_flag(tokens, allowed, k + 1)
    }
}

/// What one cell (data row `row`, zero-based position `k`) gives against its column.
pub open spec fn cell_outcome(
    row: usize,
    k: int,
    value: Seq<char>,
    col: Column,
    allowed: Option<Seq<Seq<char>>>,
) -> Option<ErrorView> {
    let v = trimmed(value);
    let column = (k + 1) as usize;
    if v.len() == 0 {
        if col.required {
            Some(cell_view(
                "CSV_REQUIRED_FIELD_EMPTY"@,
                row,
                column,
                "required field '"@ + col.name@ + "' is empty at row "@ + decimal_text(row as nat),
            ))
        } else {
            None
        }
    } else if col.ty@ == "String"@ {
        None
    } else if col.ty@ == "u64"@ {
        if u64_of_text(v) is None {
            Some(cell_view(
                "CSV_U64_PARSE"@,
                row,
                column,
                "value "@ + debug_text(v) + " in column '"@ + col.name@ + "' could not be parsed as u64"@,
            ))
        } else {
            None
        }
    } else if col.ty@ == "Vec<String>"@ {
        None
    } else if col.ty@ == "NeurorightsFlags"@ {
        match allowed {
            None => None,
            Some(a) => match first_bad_flag(split_on(v, ';'), a, 0) {
                Some(t) => Some(cell_view(
                    "CSV_NEURORIGHTS_FLAG_NOT_ALLOWED"@,
                    row,
                    column,
                    "neurorights flag "@ + debug_text(t) + " is not allowed at row "@ + decimal_text(row as nat),
                )),
                None => None,
            },
        }
    } else {
        Some(cell_view(
            "CSV_UNSUPPORTED_COLUMN_TYPE"@,
            row,
            column,
            "unsupported column type "@ + debug_text(col.ty@) + " for column '"@ + col.name@ + "' in schema"@,
        ))
    }
}

/// The first failing cell of a record, from position `k` on.
pub open spec fn cells_outcome(
    row: usize,
    rec: Seq<Seq<char>>,
    cols: Seq<Column>,
    allowed: Option<Seq<Seq<char>>>,
    k: int,
) -> Option<ErrorView>
    decreases cols.len() - k,
{
    if k < 0 || k >= cols.len() {
        None
    } else {
        match cell_outcome(row, k, rec[k], cols[k], allowed) {
            Some(e) => Some(e),
            None => cells_outcome(row, rec, cols, allowed, k + 1),
        }
    }
}

/// The structural failure of one read record (data row `row`), if any: a
/// record the reader could not read, or one whose field count differs from
/// the schema's column count.
pub open spec fn record_shape_outcome(row: usize, r: Result<Seq<Seq<char>>, Seq<char>>, cols: Seq<Column>) -> Option<ErrorView> {
    match r {
        Err(e) => Some(structure_view("CSV_RECORD_UNREADABLE"@, row, 0, "failed to read record: "@ + e)),
        Ok(rec) => if rec.len() != cols.len() {
            Some(structure_view(
                "CSV_COLUMN_COUNT_MISMATCH"@,
                row,
                0,
                "column count mismatch at row "@ + decimal_text(row as nat) + ": csv="@
                    + decimal_text(rec.len()) + ", schema="@ + decimal_text(cols.len()),
            ))
        } else {
            None
        },
    }
}

/// The first failing cell of one read record (data row `row`), if it was read.
pub open spec fn record_cells_outcome(
    row: usize,
    r: Result<Seq<Seq<char>>, Seq<char>>,
    cols: Seq<Column>,
    allowed: Option<Seq<Seq<char>>>,
) -> Option<ErrorView> {
    match r {
        Err(_) => None,
        Ok(rec) => cells_outcome(row, rec, cols, allowed, 0),
    }
}

/// Whether record position `i` lies within the records validated under `limit`.
pub open spec fn within_limit(recs_len: int, limit: Option<usize>, i: int) -> bool {
    0 <= i < recs_len && !(limit matches Some(l) && i >= l)
}

/// The first structural failure among the validated records, from position `i` on.
pub open spec fn shapes_outcome(
    recs: Seq<Result<Seq<Seq<char>>, Seq<char>>>,
    cols: Seq<Column>,
    limit: Option<usize>,
    i: int,
) -> Option<ErrorView>
    decreases recs.len() - i,
{
    if !within_limit(recs.len() as int, limit, i) {
        None
    } else {
        match record_shape_outcome((i + 1) as usize, recs[i], cols) {
            Some(e) => Some(e),
            None => shapes_outcome(recs, cols, limit, i + 1),
        }
    }
}

/// The first failing cell among the validated records, from position `i` on,
/// in reading order.
pub open spec fn cell_errors_outcome(
    recs: Seq<Result<Seq<Seq<char>>, Seq<char>>>,
    cols: Seq<Column>,
    allowed: Option<Seq<Seq<char>>>,
    limit: Option<usize>,
    i: int,
) -> Option<ErrorView>
    decreases recs.len() - i,
{
    if !within_limit(recs.len() as int, limit, i) {
        None
    } else {
        match record_cells_outcome((i + 1) as usize, recs[i], cols, allowed) {
            Some(e) => Some(e),
            None => cell_errors_outcome(recs, cols, allowed, limit, i + 1),
        }
    }
}

/// What the validated records (the first `limit`, or all) give: structural
/// rules first, over all of them, then the schema's cell rules.
pub open spec fn records_outcome(
    recs: Seq<Result<Seq<Seq<char>>, Seq<char>>>,
    cols: Seq<Column>,
    allowed: Option<Seq<Seq<char>>>,
    limit: Option<usize>,
) -> Option<ErrorView> {
    match shapes_outcome(recs, cols, limit, 0) {
        Some(e) => Some(e),
        None => cell_errors_outcome(recs, cols, allowed, limit, 0),
    }
}

/// The allowed flags, as texts.
pub open spec fn allowed_view(allowed: Option<Vec<String>>) -> Option<Seq<Seq<char>>> {
    match allowed {
        Some(v) => Some(texts(v@)),
        None => None,
    }
}

/// What validating a read table against `schema` gives: the header error, if
/// any; else the first structural error of the validated records; else their
/// first cell error.
pub open spec fn table_outcome(
    t: CsvTableView,
    schema: Schema,
    options: ValidationOptions,
    allowed: Option<Seq<Seq<char>>>,
) -> Option<ErrorView> {
    match header_outcome(t.header, schema.columns@) {
        Some(e) => Some(e),
        None => records_outcome(t.records, schema.columns@, allowed, options.max_rows),
    }
}

/// What validating the CSV text `bytes` against `schema` gives: the outcome of
/// the table the `csv` reader makes of it (comma-delimited, not flexible).
pub open spec fn csv_outcome(
    bytes: Seq<u8>,
    schema: Schema,
    options: ValidationOptions,
    allowed: Option<Seq<Seq<char>>>,
) -> Option<ErrorView> {
    table_outcome(csv_table_of(bytes, 44, false), schema, options, allowed)
}

fn structure_error(code: &'static str, row: usize, column: usize, message: String) -> (e: ValidationError)
    ensures
        e@ == structure_view(code@, row, column, message@),
{
    ValidationError::Structure { code, row, column, message }
}

fn cell_error(code: &'static str, row: usize, column: usize, message: String) -> (e: ValidationError)
    ensures
        e@ == cell_view(code@, row, column, message@),
{
    let details: Details = Vec::new();
    let e = ValidationError::Semantic { code, row, column, message, details };
    assert(crate::error::details_view(details@) =~= Seq::empty());
    e
}

fn check_header(header: &Result<Vec<String>, String>, cols: &Vec<Column>) -> (r: Option<ValidationError>)
    ensures
        error_opt_view(r) == header_outcome(row_view(*header), cols@),
{
    match header {
        Err(e) => {
            let mut m = String::from_str("failed to read header row: ");
            m.append(e.as_str());
            Some(structure_error("CSV_HEADER_UNREADABLE", 0, 0, m))
        },
        Ok(h) => {
            let ghost hv = texts(h@);
            if h.len() != cols.len() {
                let mut m = String::from_str("header column count mismatch: csv=");
                m.append(decimal(h.len() as u64).as_str());
                m.append(", schema=");
                m.append(decimal(cols.len() as u64).as_str());
                return Some(structure_error("CSV_HEADER_COLUMN_COUNT", 0, 0, m));
            }
            let mut k: usize = 0;
            while k < cols.len()
                invariant
                    hv == texts(h@),
                    row_view(*header) == Ok::<Seq<Seq<char>>, Seq<char>>(hv),
                    h.len() == cols.len(),
                    k <= cols.len(),
                    header_name_outcome(hv, cols@, 0) == header_name_outcome(hv, cols@, k as int),
                decreases cols.len() - k,
            {
                assert(hv[k as int] == h@[k as int]@);
                if !str_eq(h[k].as_str(), cols[k].name.as_str()) {
                    let mut m = String::from_str("header name mismatch at index ");
                    m.append(decimal(k as u64).as_str());
                    m.append(": csv=");
                    m.append(debug_str(h[k].as_str()).as_str());
                    m.append(", schema=");
                    m.append(debug_str(cols[k].name.as_str()).as_str());
                    return Some(structure_error("CSV_HEADER_NAME_MISMATCH", 0, k + 1, m));
                }
                k = k + 1;
            }
            None
        },
    }
}

fn find_bad_flag(value: &str, allowed: &Vec<String>) -> (r: Option<String>)
    ensures
        match r {
            Some(t) => first_bad_flag(split_on(value@, ';'), texts(allowed@), 0) == Some(t@),
            None => first_bad_flag(split_on(value@, ';'), texts(allowed@), 0) is None,
        },
{
    let tokens = split_text(value, ';');
    let ghost toks = split_on(value@, ';');
    let mut k: usize = 0;
    while k < tokens.len()
        invariant
            toks == split_on(value@, ';'),
            tokens@.len() == toks.len(),
            forall|j: int| 0 <= j < tokens@.len() ==> #[trigger] tokens@[j]@ == toks[j],
            k <= tokens.len(),
            first_bad_flag(toks, texts(allowed@), 0) == first_bad_flag(toks, texts(allowed@), k as int),
        decreases tokens.len() - k,
    {
        let t = trim(tokens[k]);
        assert(t@ == trimmed(toks[k as int]));
        if !t.is_empty() && !text_in(allowed, t) {
            return Some(String::from_str(t));
        }
        k = k + 1;
    }
    None
}

fn check_cell(row: usize, k: usize, value: &str, col: &Column, allowed: &Option<Vec<String>>) -> (r: Option<ValidationError>)
    requires
        k < usize::MAX,
    ensures
        error_opt_view(r) == cell_outcome(row, k as int, value@, *col, allowed_view(*allowed)),
{
    let v = trim(value);
    let column = k + 1;
    if v.is_empty() {
        if col.required {
            let mut m = String::from_str("required field '");
            m.append(col.name.as_str());
            m.append("' is empty at row ");
            m.append(decimal(row as u64).as_str());
            return Some(cell_error("CSV_REQUIRED_FIELD_EMPTY", row, column, m));
        }
        return None;
    }
    let ty = col.ty.as_str();
    if str_eq(ty, "String") {
        None
    } else if str_eq(ty, "u64") {
        if parse_u64(v).is_none() {
            let mut m = String::from_str("value ");
            m.append(debug_str(v).as_str());
            m.append(" in column '");
            m.append(col.name.as_str());
            m.append("' could not be parsed as u64");
            Some(cell_error("CSV_U64_PARSE", row, column, m))
        } else {
            None
        }
    } else if str_eq(ty, "Vec<String>") {
        None
    } else if str_eq(ty, "NeurorightsFlags") {
        match allowed {
            None => None,
            Some(a) => match find_bad_flag(v, a) {
                Some(t) => {
                    let mut m = String::from_str("neurorights flag ");
                    m.append(debug_str(t.as_str()).as_str());
                    m.append(" is not allowed at row ");
                    m.append(decimal(row as u64).as_str());
                    Some(cell_error("CSV_NEURORIGHTS_FLAG_NOT_ALLOWED", row, column, m))
                },
                None => None,
            },
        }
    } else {
        let mut m = String::from_str("unsupported column type ");
        m.append(debug_str(ty).as_str());
        m.append(" for column '");
        m.append(col.name.as_str());
        m.append("' in schema");
        Some(cell_error("CSV_UNSUPPORTED_COLUMN_TYPE", row, column, m))
    }
}

fn check_shape(row: usize, rec: &Result<Vec<String>, String>, cols: &Vec<Column>) -> (r: Option<ValidationError>)
    ensures
        error_opt_view(r) == record_shape_outcome(row, row_view(*rec), cols@),
{
    match rec {
        Err(e) => {
            let mut m = String::from_str("failed to read record: ");
            m.append(e.as_str());
            Some(structure_error("CSV_RECORD_UNREADABLE", row, 0, m))
        },
        Ok(fields) => {
            if fields.len() != cols.len() {
                let mut m = String::from_str("column count mismatch at row ");
                m.append(decimal(row as u64).as_str());
                m.append(": csv=");
                m.append(decimal(fields.len() as u64).as_str());
                m.append(", schema=");
                m.append(decimal(cols.len() as u64).as_str());
                return Some(structure_error("CSV_COLUMN_COUNT_MISMATCH", row, 0, m));
            }
            None
        },
    }
}

fn check_cells(
    row: usize,
    rec: &Result<Vec<String>, String>,
    cols: &Vec<Column>,
    allowed: &Option<Vec<String>>,
) -> (r: Option<ValidationError>)
    requires
        record_shape_outcome(row, row_view(*rec), cols@) is None,
    ensures
        error_opt_view(r) == record_cells_outcome(row, row_view(*rec), cols@, allowed_view(*allowed)),
{
    match rec {
        Err(_) => None,
        Ok(fields) => {
            let ghost fv = texts(fields@);
            let mut k: usize = 0;
            while k < cols.len()
                invariant
                    fv == texts(fields@),
                    row_view(*rec) == Ok::<Seq<Seq<char>>, Seq<char>>(fv),
                    fields.len() == cols.len(),
                    k <= cols.len(),
                    cells_outcome(row, fv, cols@, allowed_view(*allowed), 0)
                        == cells_outcome(row, fv, cols@, allowed_view(*allowed), k as int),
                decreases cols.len() - k,
            {
                assert(fv[k as int] == fields@[k as int]@);
                let c = check_cell(row, k, fields[k].as_str(), &cols[k], allowed);
                if c.is_some() {
                    return c;
                }
                k = k + 1;
            }
            None
        },
    }
}

/// Validates a read table against `schema`.
///
/// The header row must name the schema's columns, in order. Then the
/// structural rules are checked over every validated record (the first
/// `options.max_rows`, or all of them when it is `None`): each must have been
/// read and have one field per column. Only when no validated record breaks
/// them are the schema's cell rules checked, record by record: a required
/// cell may not be blank, a `u64` cell must parse as one, and a
/// `NeurorightsFlags` cell may only list flags of `neurorights_allowed` (when
/// that list is given), separated by `;`. The first failure in this order is
/// returned. `options.neurorights_flags_path` is not read here: the caller
/// loads the allowed flags and hands them over as `neurorights_allowed`.
pub fn validate_table(
    table: &CsvTable,
    schema: &Schema,
    options: &ValidationOptions,
    neurorights_allowed: &Option<Vec<String>>,
) -> (r: Result<(), ValidationError>)
    ensures
        outcome_is(r, table_outcome(table@, *schema, *options, allowed_view(*neurorights_allowed))),
{
    let ghost tv = table@;
    let ghost allowed = allowed_view(*neurorights_allowed);
    let cols = &schema.columns;
    match check_header(&table.header, cols) {
        Some(e) => return Err(e),
        None => {},
    }
    let ghost recs = tv.records;
    let n = table.records.len();
    let mut i: usize = 0;
    while i < n && (options.max_rows.is_none() || i < options.max_rows.unwrap())
        invariant
            tv == table@,
            cols@ == schema.columns@,
            header_outcome(tv.header, schema.columns@) is None,
            recs == tv.records,
            n == recs.len(),
            n == table.records@.len(),
            i <= n,
            shapes_outcome(recs, cols@, options.max_rows, 0) == shapes_outcome(recs, cols@, options.max_rows, i as int),
        decreases n - i,
    {
        assert(recs[i as int] == row_view(table.records@[i as int]));
        match check_shape(i + 1, &table.records[i], cols) {
            Some(e) => return Err(e),
            None => {},
        }
        i = i + 1;
    }
    assert(shapes_outcome(recs, cols@, options.max_rows, i as int) is None);
    let mut i: usize = 0;
    while i < n && (options.max_rows.is_none() || i < options.max_rows.unwrap())
        invariant
            tv == table@,
            cols@ == schema.columns@,
            header_outcome(tv.header, schema.columns@) is None,
            recs == tv.records,
            n == recs.len(),
            n == table.records@.len(),
            i <= n,
            allowed == allowed_view(*neurorights_allowed),
            shapes_outcome(recs, cols@, options.max_rows, 0) is None,
            shapes_outcome(recs, cols@, options.max_rows, i as int) is None,
            cell_errors_outcome(recs, cols@, allowed, options.max_rows, 0)
                == cell_errors_outcome(recs, cols@, allowed, options.max_rows, i as int),
        decreases n - i,
    {
        assert(recs[i as int] == row_view(table.records@[i as int]));
        match check_cells(i + 1, &table.records[i], cols, neurorights_allowed) {
            Some(e) => return Err(e),
            None => {},
        }
        i = i + 1;
    }
    Ok(())
}

/// Validates the CSV text `csv_bytes` against `schema`: reads it with the
/// `csv` reader (comma-delimited, header row first, every record as wide as
/// the header) and validates the table as [`validate_table`] states.
///
/// Structural (RFC 4180) violations of the validated records are reported
/// before any schema-based cell check runs. `options.neurorights_flags_path`
/// is not read here: the caller loads the allowed flags from it and hands
/// them over as `neurorights_allowed`.
pub fn validate_csv_with_schema(
    csv_bytes: &[u8],
    schema: &Schema,
    options: &ValidationOptions,
    neurorights_allowed: &Option<Vec<String>>,
) -> (r: Result<(), ValidationError>)
    ensures
        outcome_is(r, csv_outcome(csv_bytes@, *schema, *options, allowed_view(*neurorights_allowed))),
{
    let table = read_csv_table(csv_bytes, 44, false);
    validate_table(&table, schema, options, neurorights_allowed)
}

/// How many data records of `bytes` a validation under `options` reads:
/// every record, or the first `max_rows` of them when a limit is given.
pub open spec fn validated_rows(bytes: Seq<u8>, options: ValidationOptions) -> int {
    let n = csv_table_of(bytes, 44, false).records.len() as int;
    match options.max_rows {
        Some(l) => if (l as int) < n { l as int } else { n },
        None => n,
    }
}

/// The number of data records that `validate_csv_with_schema` looks at for
/// `csv_bytes` under `options`: the number of records the reader yields,
/// capped by `options.max_rows`.
pub fn validated_row_count(csv_bytes: &[u8], options: &ValidationOptions) -> (n: usize)
    ensures
        n as int == validated_rows(csv_bytes@, *options),
{
    let table = read_csv_table(csv_bytes, 44, false);
    let total = table.records.len();
    match options.max_rows {
        Some(l) => if l < total { l } else { total },
        None => total,
    }
}

proof fn lemma_limited_shapes(recs: Seq<Result<Seq<Seq<char>>, Seq<char>>>, cols: Seq<Column>, l: usize, i: int)
    requires
        0 <= i,
    ensures
        shapes_outcome(recs, cols, None, i) is None ==> shapes_outcome(recs, cols, Some(l), i) is None,
        shapes_outcome(recs, cols, Some(l), i) is Some
            ==> shapes_outcome(recs, cols, Some(l), i) == shapes_outcome(recs, cols, None, i),
    decreases recs.len() - i,
{
    if i < recs.len() && i < l {
        lemma_limited_shapes(recs, cols, l, i + 1);
    }
}

proof fn lemma_limited_cells(
    recs: Seq<Result<Seq<Seq<char>>, Seq<char>>>,
    cols: Seq<Column>,
    allowed: Option<Seq<Seq<char>>>,
    l: usize,
    i: int,
)
    requires
        0 <= i,
    ensures
        cell_errors_outcome(recs, cols, allowed, None, i) is None
            ==> cell_errors_outcome(recs, cols, allowed, Some(l), i) is None,
    decreases recs.len() - i,
{
    if i < recs.len() && i < l {
        lemma_limited_cells(recs, cols, allowed, l, i + 1);
    }
}

proof fn lemma_cell_errors_are_semantic(
    recs: Seq<Result<Seq<Seq<char>>, Seq<char>>>,
    cols: Seq<Column>,
    allowed: Option<Seq<Seq<char>>>,
    limit: Option<usize>,
    i: int,
)
    requires
        0 <= i,
    ensures
        cell_errors_outcome(recs, cols, allowed, limit, i) matches Some(e) ==> e is Semantic,
    decreases recs.len() - i,
{
    if within_limit(recs.len() as int, limit, i) {
        lemma_cell_errors_are_semantic(recs, cols, allowed, limit, i + 1);
        if let Ok(rec) = recs[i] {
            lemma_cells_are_semantic((i + 1) as usize, rec, cols, allowed, 0);
        }
    }
}

proof fn lemma_cells_are_semantic(row: usize, rec: Seq<Seq<char>>, cols: Seq<Column>, allowed: Option<Seq<Seq<char>>>, k: int)
    requires
        0 <= k,
    ensures
        cells_outcome(row, rec, cols, allowed, k) matches Some(e) ==> e is Semantic,
    decreases cols.len() - k,
{
    if k < cols.len() {
        lemma_cells_are_semantic(row, rec, cols, allowed, k + 1);
    }
}

/// Limiting the number of records validated only hides errors: a file that
/// passes in full passes under every limit, and a structural error found
/// under a limit is exactly the error the unlimited validation reports. A
/// limited run may report a cell error where the unlimited run reports a
/// structural error in a record beyond the limit, since structural rules
/// come first.
pub proof fn law_row_limit_only_hides_errors(
    bytes: Seq<u8>,
    schema: Schema,
    limit: usize,
    path: Option<String>,
    allowed: Option<Seq<Seq<char>>>,
)
    ensures
        ({
            let limited = csv_outcome(bytes, schema, ValidationOptions { max_rows: Some(limit), neurorights_flags_path: path }, allowed);
            let full = csv_outcome(bytes, schema, ValidationOptions { max_rows: None, neurorights_flags_path: path }, allowed);
            &&& (full is None ==> limited is None)
            &&& (limited matches Some(e) && e is Structure ==> limited == full)
        }),
{
    let t = csv_table_of(bytes, 44, false);
    lemma_limited_shapes(t.records, schema.columns@, limit, 0);
    lemma_limited_cells(t.records, schema.columns@, allowed, limit, 0);
    lemma_cell_errors_are_semantic(t.records, schema.columns@, allowed, Some(limit), 0);
}

proof fn lemma_header_names(h: Seq<Seq<char>>, cols: Seq<Column>, k: int)
    requires
        0 <= k,
        h.len() == cols.len(),
        header_name_outcome(h, cols, k) is None,
    ensures
        forall|j: int| k <= j < cols.len() ==> #[trigger] h[j] == cols[j].name@,
    decreases cols.len() - k,
{
    if k < cols.len() {
        lemma_header_names(h, cols, k + 1);
    }
}

proof fn lemma_flags_allowed(tokens: Seq<Seq<char>>, allowed: Seq<Seq<char>>, k: int)
    requires
        0 <= k,
        first_bad_flag(tokens, allowed, k) is None,
    ensures
        forall|j: int| k <= j < tokens.len() && trimmed(#[trigger] tokens[j]).len() > 0
            ==> allowed.contains(trimmed(tokens[j])),
    decreases tokens.len() - k,
{
    if k < tokens.len() {
        lemma_flags_allowed(tokens, allowed, k + 1);
    }
}

proof fn lemma_cells_pass(row: usize, rec: Seq<Seq<char>>, cols: Seq<Column>, allowed: Option<Seq<Seq<char>>>, k: int)
    requires
        0 <= k,
        cells_outcome(row, rec, cols, allowed, k) is None,
    ensures
        forall|j: int| k <= j < cols.len() ==> (#[trigger] cell_outcome(row, j, rec[j], cols[j], allowed)) is None,
    decreases cols.len() - k,
{
    if k < cols.len() {
        lemma_cells_pass(row, rec, cols, allowed, k + 1);
    }
}

proof fn lemma_records_pass(
    recs: Seq<Result<Seq<Seq<char>>, Seq<char>>>,
    cols: Seq<Column>,
    allowed: Option<Seq<Seq<char>>>,
    limit: Option<usize>,
    i: int,
)
    requires
        0 <= i,
        shapes_outcome(recs, cols, limit, i) is None,
        cell_errors_outcome(recs, cols, allowed, limit, i) is None,
    ensures
        forall|j: int| i <= j && within_limit(recs.len() as int, limit, j) ==> {
            &&& (#[trigger] record_shape_outcome((j + 1) as usize, recs[j], cols)) is None
            &&& record_cells_outcome((j + 1) as usize, recs[j], cols, allowed) is None
        },
    decreases recs.len() - i,
{
    if within_limit(recs.len() as int, limit, i) {
        lemma_records_pass(recs, cols, allowed, limit, i + 1);
    }
}

/// What a validation that passes promises of the table: its header names the
/// schema's columns, in order; each record validated (the first `max_rows`,
/// or all) was read and has one field per column; no required cell is blank;
/// and each non-blank cell is of a known type and fits it: a `u64` cell
/// parses as one, and a `NeurorightsFlags` cell lists only allowed flags
/// (when an allowed list is given).
pub proof fn law_accepted_tables_match_schema(
    bytes: Seq<u8>,
    schema: Schema,
    options: ValidationOptions,
    allowed: Option<Seq<Seq<char>>>,
)
    requires
        csv_outcome(bytes, schema, options, allowed) is None,
    ensures
        ({
            let t = csv_table_of(bytes, 44, false);
            let cols = schema.columns@;
            &&& t.header is Ok
            &&& t.header->Ok_0.len() == cols.len()
            &&& forall|k: int| 0 <= k < cols.len() ==> #[trigger] t.header->Ok_0[k] == cols[k].name@
            &&& forall|i: int| 0 <= i < validated_rows(bytes, options) ==> {
                &&& (#[trigger] t.records[i]) is Ok
                &&& t.records[i]->Ok_0.len() == cols.len()
                &&& forall|k: int| 0 <= k < cols.len() ==> {
                    let v = trimmed(t.records[i]->Ok_0[k]);
                    let col = #[trigger] cols[k];
                    &&& (col.required ==> v.len() > 0)
                    &&& (v.len() > 0 ==> {
                        &&& (col.ty@ == "String"@ || col.ty@ == "u64"@ || col.ty@ == "Vec<String>"@
                            || col.ty@ == "NeurorightsFlags"@)
                        &&& (col.ty@ == "u64"@ ==> u64_of_text(v) is Some)
                        &&& (col.ty@ == "NeurorightsFlags"@ && allowed is Some ==> forall|j: int|
                            0 <= j < split_on(v, ';').len() && trimmed(#[trigger] split_on(v, ';')[j]).len() > 0
                                ==> allowed->0.contains(trimmed(split_on(v, ';')[j])))
                    })
                }
            }
        }),
{
    let t = csv_table_of(bytes, 44, false);
    let cols = schema.columns@;
    let h = t.header->Ok_0;
    lemma_header_names(h, cols, 0);
    lemma_records_pass(t.records, cols, allowed, options.max_rows, 0);
    assert forall|i: int| 0 <= i < validated_rows(bytes, options) implies {
        &&& (#[trigger] t.records[i]) is Ok
        &&& t.records[i]->Ok_0.len() == cols.len()
        &&& forall|k: int| 0 <= k < cols.len() ==> {
            let v = trimmed(t.records[i]->Ok_0[k]);
            let col = #[trigger] cols[k];
            &&& (col.required ==> v.len() > 0)
            &&& (v.len() > 0 ==> {
                &&& (col.ty@ == "String"@ || col.ty@ == "u64"@ || col.ty@ == "Vec<String>"@
                    || col.ty@ == "NeurorightsFlags"@)
                &&& (col.ty@ == "u64"@ ==> u64_of_text(v) is Some)
                &&& (col.ty@ == "NeurorightsFlags"@ && allowed is Some ==> forall|j: int|
                    0 <= j < split_on(v, ';').len() && trimmed(#[trigger] split_on(v, ';')[j]).len() > 0
                        ==> allowed->0.contains(trimmed(split_on(v, ';')[j])))
            })
        }
    } by {
        assert(within_limit(t.records.len() as int, options.max_rows, i));
        assert(record_shape_outcome((i + 1) as usize, t.records[i], cols) is None);
        let rec = t.records[i]->Ok_0;
        lemma_cells_pass((i + 1) as usize, rec, cols, allowed, 0);
        assert forall|k: int| 0 <= k < cols.len() implies {
            let v = trimmed(rec[k]);
            let col = #[trigger] cols[k];
            &&& (col.required ==> v.len() > 0)
            &&& (v.len() > 0 ==> {
                &&& (col.ty@ == "String"@ || col.ty@ == "u64"@ || col.ty@ == "Vec<String>"@
                    || col.ty@ == "NeurorightsFlags"@)
                &&& (col.ty@ == "u64"@ ==> u64_of_text(v) is Some)
                &&& (col.ty@ == "NeurorightsFlags"@ && allowed is Some ==> forall|j: int|
                    0 <= j < split_on(v, ';').len() && trimmed(#[trigger] split_on(v, ';')[j]).len() > 0
                        ==> allowed->0.contains(trimmed(split_on(v, ';')[j])))
            })
        } by {
            assert(cell_outcome((i + 1) as usize, k, rec[k], cols[k], allowed) is None);
            reveal_strlit("String");
            reveal_strlit("u64");
            reveal_strlit("Vec<String>");
            reveal_strlit("NeurorightsFlags");
            assert("String"@.len() == 6 && "u64"@.len() == 3 && "Vec<String>"@.len() == 11);
            assert("NeurorightsFlags"@.len() == 16);
            let v = trimmed(rec[k]);
            if v.len() > 0 && cols[k].ty@ == "NeurorightsFlags"@ && allowed is Some {
                lemma_flags_allowed(split_on(v, ';'), allowed->0, 0);
            }
        }
    }
}

/// A cell meets its column: a blank cell (white space only) is allowed
/// exactly in an optional column; a non-blank cell must be of a known type
/// and fit it: any text for `String` and `Vec<String>`, a decimal `u64` for
/// `u64`, and for `NeurorightsFlags`, when an allowed list is given, only
/// allowed flags among its non-blank `;`-separated pieces.
pub open spec fn cell_meets_column(value: Seq<char>, col: Column, allowed: Option<Seq<Seq<char>>>) -> bool {
    let v = trimmed(value);
    if v.len() == 0 {
        !col.required
    } else {
        ||| col.ty@ == "String"@
        ||| col.ty@ == "Vec<String>"@
        ||| (col.ty@ == "u64"@ && u64_of_text(v) is Some)
        ||| (col.ty@ == "NeurorightsFlags"@ && (allowed is None || forall|j: int|
            0 <= j < split_on(v, ';').len() && trimmed(#[trigger] split_on(v, ';')[j]).len() > 0
                ==> allowed->0.contains(trimmed(split_on(v, ';')[j]))))
    }
}

proof fn lemma_names_pass(h: Seq<Seq<char>>, cols: Seq<Column>, k: int)
    requires
        0 <= k,
        h.len() == cols.len(),
        forall|j: int| 0 <= j < cols.len() ==> #[trigger] h[j] == cols[j].name@,
    ensures
        header_name_outcome(h, cols, k) is None,
    decreases cols.len() - k,
{
    if k < cols.len() {
        lemma_names_pass(h, cols, k + 1);
    }
}

proof fn lemma_flags_pass(tokens: Seq<Seq<char>>, allowed: Seq<Seq<char>>, k: int)
    requires
        0 <= k,
        forall|j: int| 0 <= j < tokens.len() && trimmed(#[trigger] tokens[j]).len() > 0
            ==> allowed.contains(trimmed(tokens[j])),
    ensures
        first_bad_flag(tokens, allowed, k) is None,
    decreases tokens.len() - k,
{
    if k < tokens.len() {
        lemma_flags_pass(tokens, allowed, k + 1);
    }
}

proof fn lemma_cell_meets(row: usize, k: int, value: Seq<char>, col: Column, allowed: Option<Seq<Seq<char>>>)
    requires
        cell_meets_column(value, col, allowed),
    ensures
        cell_outcome(row, k, value, col, allowed) is None,
{
    reveal_strlit("String");
    reveal_strlit("u64");
    reveal_strlit("Vec<String>");
    reveal_strlit("NeurorightsFlags");
    assert("String"@.len() == 6 && "u64"@.len() == 3 && "Vec<String>"@.len() == 11);
    assert("NeurorightsFlags"@.len() == 16);
    let v = trimmed(value);
    if v.len() > 0 && col.ty@ == "NeurorightsFlags"@ && allowed is Some {
        lemma_flags_pass(split_on(v, ';'), allowed->0, 0);
    }
}

proof fn lemma_cells_meet(row: usize, rec: Seq<Seq<char>>, cols: Seq<Column>, allowed: Option<Seq<Seq<char>>>, k: int)
    requires
        0 <= k,
        rec.len() == cols.len(),
        forall|j: int| 0 <= j < cols.len() ==> cell_meets_column(rec[j], #[trigger] cols[j], allowed),
    ensures
        cells_outcome(row, rec, cols, allowed, k) is None,
    decreases cols.len() - k,
{
    if k < cols.len() {
        lemma_cell_meets(row, k, rec[k], cols[k], allowed);
        lemma_cells_meet(row, rec, cols, allowed, k + 1);
    }
}

proof fn lemma_records_meet(
    recs: Seq<Result<Seq<Seq<char>>, Seq<char>>>,
    cols: Seq<Column>,
    allowed: Option<Seq<Seq<char>>>,
    limit: Option<usize>,
    i: int,
)
    requires
        0 <= i,
        forall|j: int| 0 <= j < recs.len() && (limit is None || j < limit->0) ==> {
            &&& (#[trigger] recs[j]) is Ok
            &&& recs[j]->Ok_0.len() == cols.len()
            &&& forall|c: int| 0 <= c < cols.len() ==> cell_meets_column(recs[j]->Ok_0[c], #[trigger] cols[c], allowed)
        },
    ensures
        shapes_outcome(recs, cols, limit, i) is None,
        cell_errors_outcome(recs, cols, allowed, limit, i) is None,
    decreases recs.len() - i,
{
    if within_limit(recs.len() as int, limit, i) {
        let r = recs[i];
        lemma_cells_meet((i + 1) as usize, r->Ok_0, cols, allowed, 0);
        lemma_records_meet(recs, cols, allowed, limit, i + 1);
    }
}

/// A table that meets the schema passes: when its header names the schema's
/// columns in order, and each record within the limit was read, has one field
/// per column, and has every cell meeting its column (blank only where
/// optional; non-blank cells of a known type that they fit, flag cells
/// listing only allowed flags between `;` separators, blank pieces aside),
/// validation accepts it.
pub proof fn law_tables_meeting_the_schema_pass(
    t: CsvTableView,
    schema: Schema,
    options: ValidationOptions,
    allowed: Option<Seq<Seq<char>>>,
)
    requires
        t.header is Ok,
        t.header->Ok_0.len() == schema.columns@.len(),
        forall|k: int| 0 <= k < schema.columns@.len() ==> #[trigger] t.header->Ok_0[k] == schema.columns@[k].name@,
        forall|i: int| 0 <= i < t.records.len() && (options.max_rows is None || i < options.max_rows->0) ==> {
            &&& (#[trigger] t.records[i]) is Ok
            &&& t.records[i]->Ok_0.len() == schema.columns@.len()
            &&& forall|c: int| 0 <= c < schema.columns@.len()
                ==> cell_meets_column(t.records[i]->Ok_0[c], #[trigger] schema.columns@[c], allowed)
        },
    ensures
        table_outcome(t, schema, options, allowed) is None,
{
    lemma_names_pass(t.header->Ok_0, schema.columns@, 0);
    lemma_records_meet(t.records, schema.columns@, allowed, options.max_rows, 0);
}

} // verus!

use csv_render::error::ValidationError;
use csv_render::schema::{Column, Schema};
use csv_render::csv_read::CsvTable;
use csv_render::validator::{validate_csv_with_schema, validate_table, validated_row_count, ValidationOptions};

fn col(name: &str, ty: &str, required: bool) -> Column {
    Column { name: name.to_string(), ty: ty.to_string(), required, separator: None }
}

fn governance_schema() -> Schema {
    Schema {
        table: "governance_particle".to_string(),
        columns: vec![
            col("host_did", "String", true),
            col("consent_ledger_refs", "Vec<String>", false),
            col("timestamp", "u64", true),
            col("neurorights_flags", "NeurorightsFlags", false),
            col("notes", "String", false),
        ],
    }
}

fn allowed() -> Option<Vec<String>> {
    Some(vec!["cognitive_liberty".to_string(), "mental_privacy".to_string()])
}

const HEADER: &str = "host_did,consent_ledger_refs,timestamp,neurorights_flags,notes\n";

fn run(body: &str, options: &ValidationOptions) -> Result<(), ValidationError> {
    let text = format!("{}{}", HEADER, body);
    validate_csv_with_schema(text.as_bytes(), &governance_schema(), options, &allowed())
}

#[test]
fn valid_governance_record_passes() {
    let body = "did:example:host1,https://ledger.example/consent/abc123;https://ledger.example/consent/def456,1713825600,cognitive_liberty;mental_privacy,\"Initial governance record.\"\n";
    assert!(run(body, &ValidationOptions::default()).is_ok());
}

#[test]
fn header_only_file_passes() {
    assert!(run("", &ValidationOptions::default()).is_ok());
}

#[test]
fn reordered_header_is_a_name_mismatch() {
    let text = "host_did,timestamp,consent_ledger_refs,neurorights_flags,notes\n";
    match validate_csv_with_schema(text.as_bytes(), &governance_schema(), &ValidationOptions::default(), &None) {
        Err(ValidationError::Structure { code, row, column, message }) => {
            assert_eq!(code, "CSV_HEADER_NAME_MISMATCH");
            assert_eq!((row, column), (0, 2));
            assert_eq!(message, "header name mismatch at index 1: csv=\"timestamp\", schema=\"consent_ledger_refs\"");
        }
        other => panic!("unexpected {:?}", other),
    }
}

#[test]
fn missing_header_column_is_a_count_mismatch() {
    let text = "host_did,consent_ledger_refs,timestamp,neurorights_flags\n";
    match validate_csv_with_schema(text.as_bytes(), &governance_schema(), &ValidationOptions::default(), &None) {
        Err(ValidationError::Structure { code, row, column, message }) => {
            assert_eq!(code, "CSV_HEADER_COLUMN_COUNT");
            assert_eq!((row, column), (0, 0));
            assert_eq!(message, "header column count mismatch: csv=4, schema=5");
        }
        other => panic!("unexpected {:?}", other),
    }
}

#[test]
fn extra_field_is_an_unreadable_record() {
    let body = "did:example:host1,ref,1713825600,cognitive_liberty,\"Extra field\",\"Oops\"\n";
    match run(body, &ValidationOptions::default()) {
        Err(ValidationError::Structure { code, row, column, message }) => {
            assert_eq!(code, "CSV_RECORD_UNREADABLE");
            assert_eq!((row, column), (1, 0));
            assert!(message.starts_with("failed to read record: "), "{}", message);
        }
        other => panic!("unexpected {:?}", other),
    }
}

#[test]
fn empty_required_field_is_semantic() {
    let body = "  ,ref,1713825600,,\n";
    match run(body, &ValidationOptions::default()) {
        Err(ValidationError::Semantic { code, row, column, message, details }) => {
            assert_eq!(code, "CSV_REQUIRED_FIELD_EMPTY");
            assert_eq!((row, column), (1, 1));
            assert_eq!(message, "required field 'host_did' is empty at row 1");
            assert!(details.is_empty());
        }
        other => panic!("unexpected {:?}", other),
    }
}

#[test]
fn non_numeric_timestamp_is_semantic() {
    let body = "did:a,ref,1713825600,,\ndid:b,ref,not-a-timestamp,,\n";
    match run(body, &ValidationOptions::default()) {
        Err(ValidationError::Semantic { code, row, column, message, .. }) => {
            assert_eq!(code, "CSV_U64_PARSE");
            assert_eq!((row, column), (2, 3));
            assert_eq!(message, "value \"not-a-timestamp\" in column 'timestamp' could not be parsed as u64");
        }
        other => panic!("unexpected {:?}", other),
    }
}

#[test]
fn unknown_neurorights_flag_is_semantic() {
    let body = "did:a,ref,1713825600, cognitive_liberty ; unknown_flag ;,\n";
    match run(body, &ValidationOptions::default()) {
        Err(ValidationError::Semantic { code, row, column, message, .. }) => {
            assert_eq!(code, "CSV_NEURORIGHTS_FLAG_NOT_ALLOWED");
            assert_eq!((row, column), (1, 4));
            assert_eq!(message, "neurorights flag \"unknown_flag\" is not allowed at row 1");
        }
        other => panic!("unexpected {:?}", other),
    }
}

#[test]
fn flags_are_not_checked_without_an_allowed_list() {
    let text = format!("{}did:a,ref,1713825600,unknown_flag,\n", HEADER);
    let r = validate_csv_with_schema(text.as_bytes(), &governance_schema(), &ValidationOptions::default(), &None);
    assert!(r.is_ok());
}

#[test]
fn unsupported_type_is_reported_for_non_empty_cells() {
    let schema = Schema { table: "t".to_string(), columns: vec![col("a", "f32", false)] };
    let ok = validate_csv_with_schema(b"a\n\n", &schema, &ValidationOptions::default(), &None);
    assert!(ok.is_ok());
    match validate_csv_with_schema(b"a\n1.5\n", &schema, &ValidationOptions::default(), &None) {
        Err(ValidationError::Semantic { code, row, column, message, .. }) => {
            assert_eq!(code, "CSV_UNSUPPORTED_COLUMN_TYPE");
            assert_eq!((row, column), (1, 1));
            assert_eq!(message, "unsupported column type \"f32\" for column 'a' in schema");
        }
        other => panic!("unexpected {:?}", other),
    }
}

#[test]
fn row_limit_stops_before_later_errors() {
    let body = "did:a,ref,1,,\ndid:b,ref,bad,,\n";
    let limited = ValidationOptions { max_rows: Some(1), neurorights_flags_path: None };
    assert!(run(body, &limited).is_ok());
    let wide = ValidationOptions { max_rows: Some(2), neurorights_flags_path: None };
    assert!(run(body, &wide).is_err());
}

#[test]
fn default_options_have_no_limit() {
    let o = ValidationOptions::default();
    assert_eq!(o.max_rows, None);
    assert_eq!(o.neurorights_flags_path, None);
}

#[test]
fn validated_row_count_is_capped_by_the_limit() {
    let text = format!("{}{}", HEADER, "a,,1,,\nb,,2,,\nc,,3,,\n");
    let bytes = text.as_bytes();
    assert_eq!(validated_row_count(bytes, &ValidationOptions::default()), 3);
    let limited = ValidationOptions { max_rows: Some(2), neurorights_flags_path: None };
    assert_eq!(validated_row_count(bytes, &limited), 2);
    let wide = ValidationOptions { max_rows: Some(10), neurorights_flags_path: None };
    assert_eq!(validated_row_count(bytes, &wide), 3);
    assert_eq!(validated_row_count(HEADER.as_bytes(), &ValidationOptions::default()), 0);
}

#[test]
fn structural_errors_come_before_cell_errors() {
    // Row 1 is well formed but blank in a required column; row 2 is too wide.
    let body = ",ref,1713825600,,\ndid:b,ref,1713825600,,notes,extra\n";
    match run(body, &ValidationOptions::default()) {
        Err(ValidationError::Structure { code, row, column, message }) => {
            assert_eq!(code, "CSV_RECORD_UNREADABLE");
            assert_eq!((row, column), (2, 0));
            assert!(message.starts_with("failed to read record: "), "{}", message);
        }
        other => panic!("unexpected {:?}", other),
    }
    // Under a limit that stops before row 2 the cell error is what remains.
    let limited = ValidationOptions { max_rows: Some(1), neurorights_flags_path: None };
    match run(body, &limited) {
        Err(ValidationError::Semantic { code, row, .. }) => {
            assert_eq!(code, "CSV_REQUIRED_FIELD_EMPTY");
            assert_eq!(row, 1);
        }
        other => panic!("unexpected {:?}", other),
    }
}

fn fields(v: &[&str]) -> Vec<String> {
    v.iter().map(|s| s.to_string()).collect()
}

#[test]
fn validate_table_checks_a_given_table() {
    let schema = Schema { table: "t".to_string(), columns: vec![col("a", "u64", true), col("b", "String", false)] };
    let good = CsvTable { header: Ok(fields(&["a", "b"])), records: vec![Ok(fields(&["1", "x"])), Ok(fields(&[" 2 ", ""]))] };
    assert!(validate_table(&good, &schema, &ValidationOptions::default(), &None).is_ok());

    let table = CsvTable {
        header: Ok(fields(&["a", "b"])),
        records: vec![Ok(fields(&["x", "y"])), Ok(fields(&["1"])), Err("broken".to_string())],
    };
    match validate_table(&table, &schema, &ValidationOptions::default(), &None) {
        Err(ValidationError::Structure { code, row, column, message }) => {
            assert_eq!(code, "CSV_COLUMN_COUNT_MISMATCH");
            assert_eq!((row, column), (2, 0));
            assert_eq!(message, "column count mismatch at row 2: csv=1, schema=2");
        }
        other => panic!("unexpected {:?}", other),
    }
    let one = ValidationOptions { max_rows: Some(1), neurorights_flags_path: None };
    match validate_table(&table, &schema, &one, &None) {
        Err(ValidationError::Semantic { code, row, column, message, .. }) => {
            assert_eq!(code, "CSV_U64_PARSE");
            assert_eq!((row, column), (1, 1));
            assert_eq!(message, "value \"x\" in column 'a' could not be parsed as u64");
        }
        other => panic!("unexpected {:?}", other),
    }
    let bad_header = CsvTable { header: Err("no header".to_string()), records: vec![] };
    match validate_table(&bad_header, &schema, &ValidationOptions::default(), &None) {
        Err(ValidationError::Structure { code, message, .. }) => {
            assert_eq!(code, "CSV_HEADER_UNREADABLE");
            assert_eq!(message, "failed to read header row: no header");
        }
        other => panic!("unexpected {:?}", other),
    }
}

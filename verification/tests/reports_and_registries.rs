use csv_render::digest::digest_hex8;
use csv_render::error::{DetailValue, ValidationError};
use csv_render::evidence::EvidenceBinding;
use csv_render::inventory::{analyze_csv, build_inventory, inventory_paths, normalize_newlines};
use csv_render::json_report::build_error_report;
use csv_render::kernel_registry::{KernelDescriptor, KernelRegistry};
use csv_render::normalization::{NormalizationRegistry, ProfileBinding};
use csv_render::risk::{normalization_id_str, NormalizationKind};
use csv_render::scan::{CsvFileEntry, RepoIndex};

fn s(x: &str) -> String {
    x.to_string()
}

#[test]
fn report_counts_categories_and_keeps_order() {
    let errors = vec![
        (ValidationError::Schema { code: "SCHEMA_LOAD_FAILED", message: s("bad schema") }, None),
        (
            ValidationError::Semantic {
                code: "T2_TIME_PARSE",
                row: 4,
                column: 2,
                message: s("timestamp 'x' is not a valid u64"),
                details: vec![("value", DetailValue::Text(s("x")))],
            },
            Some(s("timestamp")),
        ),
        (ValidationError::Io { code: "IO_RENAME_FAILED", path: Some(s("/tmp/a")), message: s("rename") }, None),
        (ValidationError::Structure { code: "CSV_RECORD_UNREADABLE", row: 7, column: 0, message: s("r") }, None),
    ];
    let report = build_error_report("examples/governance_particle.csv", Some("governance-particle-v1"), 250, errors);
    assert_eq!(report.version, 1);
    assert_eq!(report.file, "examples/governance_particle.csv");
    assert_eq!(report.schema_id, Some(s("governance-particle-v1")));
    assert_eq!(report.summary.total_rows, 250);
    assert_eq!(report.summary.errors, 4);
    let c = &report.summary.categories;
    assert_eq!((c.lexical, c.structural, c.semantic, c.relational, c.io), (0, 2, 1, 0, 1));
    let e = &report.errors[1];
    assert_eq!((e.row, e.column), (Some(4), Some(2)));
    assert_eq!(e.column_name, Some(s("timestamp")));
    assert_eq!(e.category, "semantic");
    assert_eq!(e.code, "T2_TIME_PARSE");
    assert!(e.details.is_some());
    let schema_entry = &report.errors[0];
    assert_eq!((schema_entry.row, schema_entry.column), (None, None));
    assert_eq!(schema_entry.category, "structural");
    assert!(schema_entry.details.is_none());
    assert_eq!(report.errors[2].category, "io");
    assert_eq!(report.errors[3].row, Some(7));
}

#[test]
fn empty_report() {
    let report = build_error_report("f.csv", None, 0, vec![]);
    assert_eq!(report.schema_id, None);
    assert_eq!(report.summary.errors, 0);
    assert!(report.errors.is_empty());
}

#[test]
fn newlines_are_normalized() {
    assert_eq!(normalize_newlines(b"a\r\nb\rc\n".to_vec()), b"a\nb\nc\n".to_vec());
    assert_eq!(normalize_newlines(b"\r\r\n\r".to_vec()), b"\n\n\n".to_vec());
    let once = normalize_newlines(b"x\r\ny\r".to_vec());
    assert_eq!(normalize_newlines(once.clone()), once);
}

#[test]
fn digest_is_sha256_prefix() {
    assert_eq!(digest_hex8(b"abc"), "ba7816bf");
    assert_eq!(digest_hex8(b""), "e3b0c442");
}

#[test]
fn analyze_counts_non_blank_lines() {
    let (cols, n) = analyze_csv(b"a,b\r\n1,2\n\n  \n3,4").unwrap();
    assert_eq!(cols, vec![s("a"), s("b")]);
    assert_eq!(n, 3);
    let (cols, n) = analyze_csv(b"").unwrap();
    assert!(cols.is_empty());
    assert_eq!(n, 0);
    assert_eq!(analyze_csv(b"\"q,r\",s\n").unwrap().0, vec![s("q,r"), s("s")]);
    assert_eq!(analyze_csv(b"a\n\xff\n").unwrap_err(), "stream did not contain valid UTF-8");
}

fn index() -> RepoIndex {
    RepoIndex {
        version: 1,
        root: Some(s("data")),
        csv_files: vec![
            CsvFileEntry { id: s("one"), path: s("one.csv"), schema: None, status: None, description: None, tags: None },
            CsvFileEntry { id: s("two"), path: s("two.csv"), schema: None, status: None, description: None, tags: None },
        ],
        rules: None,
    }
}

#[test]
fn inventory_rows_describe_each_file() {
    assert_eq!(inventory_paths("/repo", &index()), vec![s("/repo/data/one.csv"), s("/repo/data/two.csv")]);
    let contents = vec![Ok(b"id,name\r\n1,x\r\n".to_vec()), Ok(b"k\n".to_vec())];
    let rows = build_inventory(&index(), &contents).unwrap();
    assert_eq!(rows.len(), 2);
    assert_eq!(rows[0].id, "one");
    assert_eq!(rows[0].path, "one.csv");
    assert_eq!(rows[0].columns, "id|name");
    assert_eq!(rows[0].row_count, 2);
    assert_eq!(rows[0].digest_hex8, digest_hex8(b"id,name\n1,x\n"));
    assert_eq!(rows[0].algorithm, "sha256");
    assert_eq!(rows[1].columns, "k");
    assert_eq!(rows[1].row_count, 1);
}

#[test]
fn inventory_stops_at_the_first_error() {
    let contents = vec![Err(s("No such file or directory (os error 2)")), Ok(b"\xff".to_vec())];
    assert_eq!(build_inventory(&index(), &contents).unwrap_err(), "No such file or directory (os error 2)");
    let contents = vec![Ok(b"k\n".to_vec()), Ok(b"\xff".to_vec())];
    let err = build_inventory(&index(), &contents).unwrap_err();
    assert_eq!(err, std::str::from_utf8(b"\xff").unwrap_err().to_string());
}

fn binding() -> EvidenceBinding {
    EvidenceBinding {
        shard_id: s("shard-1"),
        kernel_module: s("titan_kernel"),
        kernel_version: s("1.0"),
        proof_module: s("proof_x"),
        proof_hash: s("ph"),
        evidence_hex: s("AB01ff"),
    }
}

#[test]
fn canonical_bytes_join_fields_with_bars() {
    assert_eq!(binding().canonical_bytes("h123"), b"shard-1|titan_kernel|1.0|proof_x|ph|h123".to_vec());
}

#[test]
fn evidence_hex_is_compared_case_insensitively() {
    assert!(binding().verify(&[0xab, 0x01, 0xff]).is_ok());
    assert_eq!(binding().verify(&[0xab, 0x02, 0xff]).unwrap_err(), "evidence_hex mismatch for shard binding");
}

fn kernel() -> KernelDescriptor {
    KernelDescriptor {
        name: "titan_kernel",
        version: "1.0",
        invariants: vec!["titan_lyapunov_nonexpansion", "cross_plane_envelope_containment"],
        proof_modules: vec!["proof_x"],
    }
}

fn message(r: Result<(), ValidationError>) -> (&'static str, String) {
    match r {
        Err(ValidationError::Semantic { code, message, .. }) => (code, message),
        other => panic!("unexpected {:?}", other),
    }
}

#[test]
fn kernel_requirements() {
    let mut reg = KernelRegistry::default();
    reg.register(kernel());
    let ids = vec![s("titan_lyapunov_nonexpansion")];
    assert!(reg.require("titan_kernel", "1.0", "proof_x", &ids).is_ok());
    assert_eq!(
        message(reg.require("titan_kernel", "2.0", "proof_x", &ids)),
        ("TITAN_KERNEL_UNKNOWN", s("kernel titan_kernel@2.0 is not registered"))
    );
    assert_eq!(
        message(reg.require("titan_kernel", "1.0", "proof_y", &ids)),
        ("TITAN_PROOF_MODULE_MISMATCH", s("proof module proof_y not registered for kernel titan_kernel@1.0"))
    );
    assert_eq!(
        message(reg.require("titan_kernel", "1.0", "proof_x", &[s("titan_lyapunov_nonexpansion"), s("other")])),
        ("TITAN_INVARIANT_UNSUPPORTED", s("invariant other not supported by kernel titan_kernel@1.0"))
    );
}

#[test]
fn registering_again_replaces_the_descriptor() {
    let mut reg = KernelRegistry::default();
    reg.register(kernel());
    let mut newer = kernel();
    newer.proof_modules = vec!["proof_z"];
    reg.register(newer);
    assert!(reg.require("titan_kernel", "1.0", "proof_z", &[]).is_ok());
    assert!(reg.require("titan_kernel", "1.0", "proof_x", &[]).is_err());
}

#[test]
fn corridor_bindings_need_profiles_with_coordinates() {
    let mut reg = NormalizationRegistry::default();
    reg.register(ProfileBinding { id: s("norm-a"), risk_coordinate: s("rlatency") });
    reg.register(ProfileBinding { id: s("norm-b"), risk_coordinate: s("") });
    assert_eq!(reg.get("norm-a").map(|p| p.risk_coordinate.clone()), Some(s("rlatency")));
    assert!(reg.get("norm-c").is_none());
    assert!(reg.validate_corridor(&[("latency", "norm-a")]).is_ok());
    assert_eq!(
        reg.validate_corridor(&[("latency", "norm-a"), ("loss", "norm-c")]).unwrap_err(),
        "Missing normalization profile norm-c"
    );
    assert_eq!(
        reg.validate_corridor(&[("jitter", "norm-b")]).unwrap_err(),
        "Field jitter bound to profile norm-b without risk_coordinate"
    );
}

#[test]
fn normalization_ids() {
    assert_eq!(normalization_id_str(NormalizationKind::Linear01Clamp), "norm-linear-01-clamp");
    assert_eq!(normalization_id_str(NormalizationKind::Logit01Clamp), "norm-logit-01-clamp");
    assert_eq!(normalization_id_str(NormalizationKind::Custom("norm-x")), "norm-x");
}

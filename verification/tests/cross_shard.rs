use csv_render::cross_plane::corridor_cap_pairs;
use csv_render::cross_shard::{join_by_key, join_envelope, join_lyapunov, ContextConfig, ShardConfig, ShardRole};
use csv_render::error::ValidationError;

fn keys(v: &[&str]) -> Vec<String> {
    v.iter().map(|s| s.to_string()).collect()
}

fn shard(doctype: &str) -> ShardConfig {
    ShardConfig { doctype: doctype.to_string(), path: format!("{}.csv", doctype), key_column: "basin_id".to_string() }
}

fn semantic_parts(e: &ValidationError) -> (&'static str, usize, usize, String) {
    match e {
        ValidationError::Semantic { code, row, column, message, details } => {
            assert!(details.is_empty());
            (code, *row, *column, message.clone())
        }
        other => panic!("expected a semantic error, got {:?}", other),
    }
}

#[test]
fn shard_lookup_reports_missing_role() {
    let mut cfg = ContextConfig::new("titan".to_string(), "basin_id".to_string());
    cfg.insert_shard(ShardRole("plan".to_string()), shard("RegionLinkPlan2026v1"));
    assert_eq!(cfg.shard("plan").unwrap().doctype, "RegionLinkPlan2026v1");
    let err = cfg.shard("titan_delay").unwrap_err();
    assert_eq!(
        semantic_parts(&err),
        ("CONTEXT_SHARD_MISSING", 0, 0, "context missing shard 'titan_delay'".to_string())
    );
}

#[test]
fn lyapunov_shards_checks_roles_in_order() {
    let mut cfg = ContextConfig::new("titan".to_string(), "basin_id".to_string());
    cfg.insert_shard(ShardRole("titan_metrics".to_string()), shard("TitanMetrics2026v1"));
    let err = cfg.lyapunov_shards().unwrap_err();
    assert_eq!(semantic_parts(&err).3, "context missing shard 'plan'");
    cfg.insert_shard(ShardRole("plan".to_string()), shard("RegionLinkPlan2026v1"));
    let err = cfg.lyapunov_shards().unwrap_err();
    assert_eq!(semantic_parts(&err).3, "context missing shard 'titan_delay'");
    cfg.insert_shard(ShardRole("titan_delay".to_string()), shard("EFDelayBound2026v1"));
    let (p, d, m) = cfg.lyapunov_shards().unwrap();
    assert_eq!(p.doctype, "RegionLinkPlan2026v1");
    assert_eq!(d.doctype, "EFDelayBound2026v1");
    assert_eq!(m.doctype, "TitanMetrics2026v1");
}

#[test]
fn envelope_shards_checks_roles_in_order() {
    let mut cfg = ContextConfig::new("titan".to_string(), "basin_id".to_string());
    cfg.insert_shard(ShardRole("titan_metrics".to_string()), shard("TitanMetrics2026v1"));
    cfg.insert_shard(ShardRole("sewer_corridor".to_string()), shard("Sewer"));
    let err = cfg.envelope_shards().unwrap_err();
    assert_eq!(semantic_parts(&err).3, "context missing shard 'water_corridor'");
    cfg.insert_shard(ShardRole("water_corridor".to_string()), shard("Water"));
    let (m, w, s) = cfg.envelope_shards().unwrap();
    assert_eq!((m.doctype.as_str(), w.doctype.as_str(), s.doctype.as_str()), ("TitanMetrics2026v1", "Water", "Sewer"));
}

#[test]
fn insert_shard_replaces_role() {
    let mut cfg = ContextConfig::new("titan".to_string(), "basin_id".to_string());
    cfg.insert_shard(ShardRole("plan".to_string()), shard("A"));
    cfg.insert_shard(ShardRole("plan".to_string()), shard("B"));
    assert_eq!(cfg.shard("plan").unwrap().doctype, "B");
    assert_eq!(cfg.name, "titan");
    assert_eq!(cfg.key_field, "basin_id");
}

#[test]
fn join_uses_last_row_of_each_key() {
    let metrics = keys(&["b1", "b2", "b1"]);
    let delay = keys(&["b2", "b1", "b1"]);
    let plan = keys(&["b1", "b2"]);
    let j = join_lyapunov(&metrics, &delay, &plan);
    assert!(j.missing.is_none());
    assert_eq!(j.rows, vec![(1, 0, 1), (2, 2, 0)]);
}

#[test]
fn join_stops_at_missing_delay_row() {
    let metrics = keys(&["b1", "b2", "b3"]);
    let delay = keys(&["b1", "b3"]);
    let plan = keys(&["b1", "b2", "b3"]);
    let j = join_lyapunov(&metrics, &delay, &plan);
    assert_eq!(j.rows, vec![(0, 0, 0)]);
    let err = j.missing.expect("b2 has no delay row");
    assert_eq!(
        semantic_parts(&err),
        ("CONTEXT_ROW_MISSING", 0, 0, "missing titan_delay row for key b2".to_string())
    );
}

#[test]
fn join_reports_missing_plan_row_after_delay() {
    let metrics = keys(&["b1"]);
    let j = join_lyapunov(&metrics, &keys(&["b1"]), &keys(&[]));
    assert!(j.rows.is_empty());
    assert_eq!(semantic_parts(&j.missing.unwrap()).3, "missing RegionLinkPlan row for key b1");
    let j = join_lyapunov(&metrics, &keys(&[]), &keys(&[]));
    assert_eq!(semantic_parts(&j.missing.unwrap()).3, "missing titan_delay row for key b1");
}

#[test]
fn envelope_join_names_water_and_sewer() {
    let metrics = keys(&["b1", "b2"]);
    let j = join_envelope(&metrics, &keys(&["b1", "b2"]), &keys(&["b2"]));
    assert!(j.rows.is_empty());
    assert_eq!(semantic_parts(&j.missing.unwrap()).3, "missing SEWER corridor row for key b1");
    let j = join_envelope(&metrics, &keys(&["b2"]), &keys(&["b1", "b2"]));
    assert_eq!(semantic_parts(&j.missing.unwrap()).3, "missing WATER corridor row for key b1");
    let j = join_envelope(&metrics, &keys(&["b2", "b1"]), &keys(&["b1", "b2"]));
    assert!(j.missing.is_none());
    assert_eq!(j.rows, vec![(0, 1, 0), (1, 0, 1)]);
}

#[test]
fn joined_rows_share_their_key() {
    let p = keys(&["x", "y", "x", "z", "y"]);
    let a = keys(&["z", "y", "x", "y"]);
    let b = keys(&["y", "z", "x"]);
    let j = join_by_key(&p, &a, "first", &b, "second");
    assert!(j.missing.is_none());
    assert_eq!(j.rows.len(), 3);
    for (x, y, z) in &j.rows {
        assert_eq!(p[*x], a[*y]);
        assert_eq!(p[*x], b[*z]);
    }
    let mut joined: Vec<&String> = j.rows.iter().map(|(x, _, _)| &p[*x]).collect();
    joined.sort();
    assert_eq!(joined, vec!["x", "y", "z"]);
}

#[test]
fn empty_primary_joins_nothing() {
    let j = join_by_key(&keys(&[]), &keys(&["a"]), "first", &keys(&[]), "second");
    assert!(j.rows.is_empty());
    assert!(j.missing.is_none());
}

#[test]
fn corridor_pairs_follow_titan_bounds_then_planes() {
    let titan = keys(&["rlatency", "rloss", "roh"]);
    let planes = vec![keys(&["rloss", "rlatency", "rloss"]), keys(&["roh"]), keys(&[])];
    let pairs = corridor_cap_pairs(&titan, &planes);
    assert_eq!(pairs, vec![(0, 0, 1), (1, 0, 0), (2, 1, 0)]);
    for (i, j, k) in &pairs {
        assert_eq!(titan[*i], planes[*j][*k]);
    }
}

#[test]
fn corridor_pairs_empty_without_shared_coordinates() {
    let pairs = corridor_cap_pairs(&keys(&["a"]), &vec![keys(&["b"]), keys(&["c"])]);
    assert!(pairs.is_empty());
    assert!(corridor_cap_pairs(&keys(&[]), &vec![keys(&["a"])]).is_empty());
}

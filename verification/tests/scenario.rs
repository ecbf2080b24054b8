use rine::scenario::{compute_id, fnv1a_64, short_target, Scenario, SCHEMA};

#[test]
fn fnv_is_stable_vector() {
    assert_eq!(fnv1a_64(b""), 0xcbf29ce484222325);
    assert_eq!(fnv1a_64(b"a"), 0xaf63dc4c8601ec8c);
}

#[test]
fn id_is_deterministic_and_versioned() {
    let a = Scenario::new("fileops", "CreateFileA", 123, "{\"x\":1}".to_string(), "{}".to_string());
    let b = Scenario::new("fileops", "CreateFileA", 123, "{\"x\":1}".to_string(), "{}".to_string());
    assert_eq!(a.scenario_id, b.scenario_id);
    assert_eq!(a.schema, SCHEMA);
    let c = Scenario::new("fileops", "CreateFileA", 124, "{\"x\":1}".to_string(), "{}".to_string());
    assert_ne!(a.scenario_id, c.scenario_id);
}

#[test]
fn id_shape_is_target_dash_twelve_hex() {
    let id = compute_id("memory-allocations", 7, "[1,2]");
    let expect = format!("memory-a-{:012x}", fnv1a_64(b"memory-allocations:7:[1,2]") & 0xFFFFFFFFFFFF);
    assert_eq!(id, expect);
    assert_eq!(short_target("pe"), "pe");
    assert_eq!(short_target("handles-x"), "handles-");
}

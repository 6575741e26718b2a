use teshi::explorer::ScenarioMark;
use teshi::status::ScenarioStatusMap;

fn mark(f: usize, s: usize, st: &str) -> ScenarioMark {
    ScenarioMark { feature_idx: f, scenario_idx: s, status: st.to_string() }
}

#[test]
fn new_map_is_empty() {
    let m = ScenarioStatusMap::new();
    assert_eq!(m.get(0, 0), None);
    assert_eq!(m.count("passed"), 0);
}

#[test]
fn insert_replaces_a_status() {
    let mut m = ScenarioStatusMap::new();
    m.insert(1, 2, "running".to_string());
    m.insert(0, 0, "passed".to_string());
    m.insert(1, 2, "failed".to_string());
    assert_eq!(m.get(1, 2), Some("failed".to_string()));
    assert_eq!(m.get(0, 0), Some("passed".to_string()));
    assert_eq!(m.get(2, 1), None);
    assert_eq!(m.count("failed"), 1);
    assert_eq!(m.count("running"), 0);
    assert_eq!(m.count("passed"), 1);
}

#[test]
fn marks_apply_in_order() {
    let mut m = ScenarioStatusMap::new();
    m.apply(&vec![mark(0, 0, "running"), mark(0, 1, "passed"), mark(0, 0, "failed"), mark(3, 4, "passed")]);
    assert_eq!(m.get(0, 0), Some("failed".to_string()));
    assert_eq!(m.count("passed"), 2);
    assert_eq!(m.count("failed"), 1);
    assert_eq!(m.count("running"), 0);
}

use teshi::gherkin::{parse_feature, BddProject};
use teshi::step_index::StepIndex;

fn sample_project() -> BddProject {
    let a = parse_feature(
        "\
Feature: A
  Scenario: S1
    Given I am on the login page
    When I click submit

  Scenario: S2
    Given I am on the login page
    Then I see the dashboard
",
        String::from("a.feature"),
    );
    let b = parse_feature(
        "\
Feature: B
  Scenario: S3
    When I am on the login page
    And I click submit
",
        String::from("b.feature"),
    );
    BddProject { root_dir: String::from("."), features: vec![a, b] }
}

#[test]
fn counts_cross_feature_reuse() {
    let project = sample_project();
    let index = StepIndex::build(&project);
    // "I am on the login page" appears in S1, S2, S3 → 3 uses
    assert_eq!(index.reuse_count("I am on the login page"), 3);
    // "I click submit" appears in S1 and S3 → 2 uses
    assert_eq!(index.reuse_count("I click submit"), 2);
    // "I see the dashboard" appears only once
    assert_eq!(index.reuse_count("I see the dashboard"), 1);
}

#[test]
fn normalization_is_case_and_whitespace_insensitive() {
    let project = sample_project();
    let index = StepIndex::build(&project);
    assert_eq!(index.reuse_count("i am on the login page"), 3);
    assert_eq!(index.reuse_count("I  am  on  the  login  page"), 3);
}

// ── Further cases ──

#[test]
fn background_steps_count_with_sentinel_scenario() {
    let f = parse_feature(
        "Feature: C\n  Background:\n    Given I am on the login page\n  Scenario: S\n    Then I see the dashboard\n",
        String::from("c.feature"),
    );
    let project = BddProject { root_dir: String::from("."), features: vec![f] };
    let index = StepIndex::build(&project);
    assert_eq!(index.reuse_count("I AM ON THE LOGIN PAGE"), 1);
    assert_eq!(index.reuse_count("unknown step"), 0);
    let usage = index.usages.iter().find(|u| u.key == "i am on the login page").unwrap();
    assert_eq!(usage.locations[0].scenario_idx, usize::MAX);
    assert_eq!(usage.locations[0].step_idx, 0);
    assert_eq!(index.usages.len(), 2);
}

#[test]
fn locations_are_in_project_order() {
    let index = StepIndex::build(&sample_project());
    let usage = index.usages.iter().find(|u| u.key == "i am on the login page").unwrap();
    let locs: Vec<(usize, usize, usize)> =
        usage.locations.iter().map(|l| (l.feature_idx, l.scenario_idx, l.step_idx)).collect();
    assert_eq!(locs, vec![(0, 0, 0), (0, 1, 0), (1, 0, 0)]);
    assert_eq!(index.usages[0].key, "i am on the login page");
}

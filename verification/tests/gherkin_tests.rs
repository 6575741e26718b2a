use teshi::gherkin::{feature_stem, feature_stems, parse_feature, BddProject, ScenarioKind, StepKeywordType};

const SAMPLE: &str = "\
@auth @smoke
Feature: User login
  As a registered user
  I want to sign in

  Background:
    Given I am on the login page

  @happy
  Scenario: Successful login
    When I enter username \"alice\"
    And I enter password \"correct\"
    Then I should see \"Welcome\"

  Scenario Outline: Failed login
    When I enter username \"<user>\"
    And I enter password \"<pass>\"
    Then I should see \"Error\"

    Examples:
      | user  | pass  |
      | bob   | wrong |
      | carol | bad   |
";

#[test]
fn parses_feature_name_and_tags() {
    let f = parse_feature(SAMPLE, String::from("login.feature"));
    assert_eq!(f.name, "User login");
    assert_eq!(f.tags, vec!["@auth", "@smoke"]);
}

#[test]
fn parses_feature_description() {
    let f = parse_feature(SAMPLE, String::from("login.feature"));
    assert_eq!(f.description.len(), 2);
    assert!(f.description[0].contains("registered user"));
}

#[test]
fn parses_background() {
    let f = parse_feature(SAMPLE, String::from("login.feature"));
    let bg = f.background.as_ref().expect("background should exist");
    assert_eq!(bg.steps.len(), 1);
    assert_eq!(bg.steps[0].keyword, "Given");
    assert_eq!(bg.steps[0].text, "I am on the login page");
}

#[test]
fn parses_scenarios() {
    let f = parse_feature(SAMPLE, String::from("login.feature"));
    assert_eq!(f.scenarios.len(), 2);
    assert_eq!(f.scenarios[0].name, "Successful login");
    assert_eq!(f.scenarios[0].kind, ScenarioKind::Scenario);
    assert_eq!(f.scenarios[0].tags, vec!["@happy"]);
    assert_eq!(f.scenarios[0].steps.len(), 3);
    assert_eq!(f.scenarios[1].name, "Failed login");
    assert_eq!(f.scenarios[1].kind, ScenarioKind::ScenarioOutline);
}

#[test]
fn parses_steps_with_keyword_and_body() {
    let f = parse_feature(SAMPLE, String::from("login.feature"));
    let s = &f.scenarios[0].steps[0];
    assert_eq!(s.keyword, "When");
    assert_eq!(s.keyword_type, StepKeywordType::When);
    assert_eq!(s.text, "I enter username \"alice\"");
    assert!(s.line_number > 0);
}

#[test]
fn parses_examples_table() {
    let f = parse_feature(SAMPLE, String::from("login.feature"));
    assert_eq!(f.scenarios[1].examples.len(), 1);
    let ex = &f.scenarios[1].examples[0];
    assert_eq!(ex.headers, vec!["user", "pass"]);
    assert_eq!(ex.rows.len(), 2);
    assert_eq!(ex.rows[0], vec!["bob", "wrong"]);
}

#[test]
fn empty_content_produces_empty_feature() {
    let f = parse_feature("", String::from("empty.feature"));
    assert!(f.name.is_empty());
    assert!(f.scenarios.is_empty());
    assert!(f.background.is_none());
}

#[test]
fn line_numbers_are_1_based() {
    let f = parse_feature(SAMPLE, String::from("login.feature"));
    assert!(f.background.as_ref().unwrap().line_number >= 1);
    for sc in &f.scenarios {
        assert!(sc.line_number >= 1);
        for step in &sc.steps {
            assert!(step.line_number >= 1);
        }
    }
}

// ── Further cases ──

#[test]
fn line_numbers_point_at_the_keyword_lines() {
    let f = parse_feature(SAMPLE, String::from("login.feature"));
    assert_eq!(f.line_count, 23);
    assert_eq!(f.background.as_ref().unwrap().line_number, 6);
    assert_eq!(f.background.as_ref().unwrap().steps[0].line_number, 7);
    assert_eq!(f.scenarios[0].line_number, 10);
    assert_eq!(f.scenarios[0].steps[2].line_number, 13);
    assert_eq!(f.scenarios[1].line_number, 15);
    assert_eq!(f.scenarios[1].examples[0].line_number, 20);
    assert_eq!(f.file_path, String::from("login.feature"));
}

#[test]
fn doc_strings_and_tables_after_steps_are_skipped() {
    let src = "Feature: F\n  Scenario: S\n    Given a doc\n      \"\"\"\n      Then not a step\n      \"\"\"\n    When a table\n      | a | b |\n      | 1 | 2 |\n    Then done\n";
    let f = parse_feature(src, String::from("f.feature"));
    let steps = &f.scenarios[0].steps;
    assert_eq!(steps.len(), 3);
    assert_eq!(steps[0].text, "a doc");
    assert_eq!(steps[1].keyword_type, StepKeywordType::When);
    assert_eq!(steps[2].text, "done");
    assert!(f.scenarios[0].examples.is_empty());
}

#[test]
fn keyword_needs_a_following_space() {
    let src = "Feature: F\nScenario: S\n  Givenness is not a step\n";
    let f = parse_feature(src, String::from("f.feature"));
    assert!(f.scenarios[0].steps.is_empty());
    let src = "Feature: F\nScenario: S\n  But\n";
    let f = parse_feature(src, String::from("f.feature"));
    assert_eq!(f.scenarios[0].steps.len(), 1);
    assert_eq!(f.scenarios[0].steps[0].keyword_type, StepKeywordType::But);
    assert_eq!(f.scenarios[0].steps[0].text, "");
}

#[test]
fn tags_on_the_next_scenario_are_not_taken_by_examples() {
    let src = "Feature: F\nScenario Outline: A\n  Given <x>\n  Examples:\n    | x |\n    | 1 |\n\n  @next\n  Scenario: B\n    Given y\n";
    let f = parse_feature(src, String::from("f.feature"));
    assert_eq!(f.scenarios.len(), 2);
    assert_eq!(f.scenarios[0].examples.len(), 1);
    assert_eq!(f.scenarios[0].examples[0].rows, vec![vec!["1"]]);
    assert_eq!(f.scenarios[1].tags, vec!["@next"]);
}

#[test]
fn tagged_examples_blocks() {
    let src = "Feature: F\nScenario Outline: A\n  Given <x>\n  @fast\n  Examples:\n    | x |\n    | 1 |\n  Examples:\n    | x |\n    | 2 |\n";
    let f = parse_feature(src, String::from("f.feature"));
    let ex = &f.scenarios[0].examples;
    assert_eq!(ex.len(), 2);
    assert_eq!(ex[0].tags, vec!["@fast"]);
    assert!(ex[1].tags.is_empty());
    assert_eq!(ex[1].rows, vec![vec!["2"]]);
}

#[test]
fn table_row_without_closing_pipe_keeps_leading_cell() {
    let src = "Feature: F\nScenario: A\n  Examples:\n    | a | b\n";
    let f = parse_feature(src, String::from("f.feature"));
    assert_eq!(f.scenarios[0].examples[0].headers, vec!["", "a", "b"]);
}

#[test]
fn last_background_wins_and_comments_are_ignored() {
    let src = "# comment\nFeature: F\n  # note\nBackground:\n  Given one\nBackground:\n  Given two\n";
    let f = parse_feature(src, String::from("f.feature"));
    assert!(f.description.is_empty());
    let bg = f.background.unwrap();
    assert_eq!(bg.line_number, 6);
    assert_eq!(bg.steps[0].text, "two");
}

#[test]
fn text_without_feature_line() {
    let f = parse_feature("just some words\nScenario: S\n", String::from("f.feature"));
    assert_eq!(f.name, "");
    assert_eq!(f.description, vec!["just some words"]);
    assert_eq!(f.scenarios.len(), 1);
}

#[test]
fn feature_stems_follow_the_file_paths() {
    let project = BddProject {
        root_dir: String::from("local"),
        features: vec![
            parse_feature("Feature: A", String::from("features/login.feature")),
            parse_feature("Feature: B", String::from("archive.v2.feature")),
            parse_feature("Feature: C", String::from("")),
        ],
    };
    assert_eq!(feature_stems(&project), vec!["login", "archive.v2", ""]);
    assert_eq!(feature_stem(&project, 0).as_deref(), Some("login"));
    assert_eq!(feature_stem(&project, 1).as_deref(), Some("archive.v2"));
    assert_eq!(feature_stem(&project, 2), None);
    assert_eq!(feature_stem(&project, 3), None);
}

#[test]
fn step_lines_give_keyword_and_body_back() {
    let src = "Feature: F\n  Scenario: S\n    Given  two spaces\n    When\n    Then done\n";
    let f = parse_feature(src, String::from("f.feature"));
    let steps: Vec<(&str, &str, usize)> = f.scenarios[0]
        .steps
        .iter()
        .map(|s| (s.keyword.as_str(), s.text.as_str(), s.line_number))
        .collect();
    assert_eq!(steps, vec![("Given", " two spaces", 3), ("When", "", 4), ("Then", "done", 5)]);
    // a keyword glued to the next word does not start a step
    let g = parse_feature("Feature: F\n  Scenario: S\n    Givenness is not a step\n", String::from("g.feature"));
    assert!(g.scenarios[0].steps.is_empty());
}

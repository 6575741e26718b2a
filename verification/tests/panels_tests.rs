use teshi::explorer::{CellRect, ClickableRegion, ColumnFocus, UiState};
use teshi::gherkin::{feature_labels, parse_feature, BddProject};
use teshi::panels::{panel_regions_of, PanelKind, PanelLine};
use teshi::status::ScenarioStatusMap;
use teshi::ui::{AppUi, StyledSpan, TextStyle, UiColor};

const BLUE: UiColor = UiColor::Rgb(86, 156, 214);
const AMBER: UiColor = UiColor::Rgb(226, 183, 20);
const GREEN: UiColor = UiColor::Rgb(106, 153, 85);
const CYAN: UiColor = UiColor::Rgb(86, 182, 194);
const MUTED: UiColor = UiColor::Rgb(136, 136, 136);

fn plain() -> TextStyle {
    TextStyle { fg: None, bg: None, bold: false }
}

fn fg(c: UiColor) -> TextStyle {
    TextStyle { fg: Some(c), bg: None, bold: false }
}

fn fg_bold(c: UiColor) -> TextStyle {
    TextStyle { fg: Some(c), bg: None, bold: true }
}

fn texts(spans: &[StyledSpan]) -> Vec<(&str, TextStyle)> {
    spans.iter().map(|s| (s.text.as_str(), s.style)).collect()
}

fn state() -> UiState {
    UiState {
        active_tab: 0,
        status: String::new(),
        explore_focus: ColumnFocus::Feature,
        explore_selected_feature: 0,
        explore_selected_scenario: 0,
        explore_selected_step: 0,
        chat_messages: vec![],
        chat_input: String::new(),
        chat_waiting: false,
        show_raw_feature: false,
        raw_feature_index: 0,
        pending_chat_response: None,
        show_help: false,
    }
}

const LOGIN: &str = "\
Feature: User login
  Background:
    Given I am on the login page

  @happy @fast
  Scenario: Successful login
    When I log in
    And I wait
    Then I see the dashboard

  Scenario Outline: Failed login
    When I enter <user>
    Examples:
      | user |
      | bob  |
";

const EMPTY: &str = "Feature: Nothing\n";

fn project() -> BddProject {
    BddProject {
        root_dir: String::from("local"),
        features: vec![
            parse_feature(LOGIN, String::from("features/login.feature")),
            parse_feature(EMPTY, String::from("empty.feature")),
        ],
    }
}

#[test]
fn feature_labels_are_stems() {
    assert_eq!(feature_labels(&project()), vec!["login", "empty"]);
    let p = BddProject { root_dir: String::from("."), features: vec![parse_feature(EMPTY, String::from(""))] };
    assert_eq!(feature_labels(&p), vec!["?"]);
}

#[test]
fn feature_panel_styles_the_selection() {
    let ui = AppUi::new();
    let mut s = state();
    let labels = vec!["login".to_string(), "a-rather-long-feature-name".to_string()];
    let lines = ui.feature_panel(&s, &labels, 10);
    assert_eq!(lines.len(), 2);
    assert_eq!(texts(&lines[0].spans), vec![(" login", fg_bold(AMBER))]);
    assert_eq!(texts(&lines[1].spans), vec![(" a-rather-long-feature-name", plain())]);
    assert_eq!((lines[0].rows, lines[0].item), (1, Some(0)));
    assert_eq!((lines[1].rows, lines[1].item), (3, Some(1)));
    s.explore_focus = ColumnFocus::Step;
    let lines = ui.feature_panel(&s, &labels, 10);
    assert_eq!(texts(&lines[0].spans), vec![(" login", fg(CYAN))]);
    let lines = ui.feature_panel(&s, &vec![], 10);
    assert_eq!(lines.len(), 1);
    assert_eq!(texts(&lines[0].spans), vec![("  (no features)", fg(MUTED))]);
    assert_eq!((lines[0].rows, lines[0].item), (0, None));
}

#[test]
fn scenario_panel_shows_status_dots() {
    let ui = AppUi::new();
    let p = project();
    let mut s = state();
    s.explore_focus = ColumnFocus::Scenario;
    s.explore_selected_scenario = 1;
    let mut statuses = ScenarioStatusMap::new();
    statuses.insert(0, 0, "failed".to_string());
    let lines = ui.scenario_panel(&s, &p, &statuses, 40);
    assert_eq!(lines.len(), 2);
    assert_eq!(
        texts(&lines[0].spans),
        vec![(" ", plain()), ("●", fg(UiColor::Rgb(224, 108, 117))), (" Successful login", plain())]
    );
    assert_eq!(
        texts(&lines[1].spans),
        vec![(" ", plain()), ("●", fg(MUTED)), (" ◈ Failed login", fg_bold(AMBER))]
    );
    statuses.insert(0, 0, "passed".to_string());
    statuses.insert(0, 1, "running".to_string());
    let lines = ui.scenario_panel(&s, &p, &statuses, 40);
    assert_eq!(lines[0].spans[1].style, fg(UiColor::Rgb(39, 201, 63)));
    assert_eq!(lines[1].spans[1].style, fg(AMBER));
    assert_eq!(ui.scenario_panel_title(&s, &p), " Scenarios (2) ");
}

#[test]
fn scenario_panel_notes() {
    let ui = AppUi::new();
    let p = project();
    let mut s = state();
    let statuses = ScenarioStatusMap::new();
    s.explore_selected_feature = 1;
    let lines = ui.scenario_panel(&s, &p, &statuses, 40);
    assert_eq!(texts(&lines[0].spans), vec![("  (no scenarios)", fg(MUTED))]);
    assert_eq!(ui.scenario_panel_title(&s, &p), " Scenarios (0) ");
    s.explore_selected_feature = 5;
    let lines = ui.scenario_panel(&s, &p, &statuses, 40);
    assert_eq!(texts(&lines[0].spans), vec![("  (select a feature)", fg(MUTED))]);
}

#[test]
fn step_panel_lists_background_tags_steps_and_examples() {
    let ui = AppUi::new();
    let p = project();
    let mut s = state();
    s.explore_focus = ColumnFocus::Step;
    s.explore_selected_step = 1;
    let lines = ui.step_panel(&s, &p, 80);
    let all: Vec<Vec<(&str, TextStyle)>> = lines.iter().map(|l| texts(&l.spans)).collect();
    assert_eq!(
        all,
        vec![
            vec![(" Background:", fg_bold(MUTED))],
            vec![("  Given", fg(BLUE)), (" I am on the login page", fg(MUTED))],
            vec![],
            vec![("  @happy @fast", fg(MUTED))],
            vec![("   When", fg(AMBER)), (" I log in", plain())],
            vec![("    And", fg(AMBER)), (" I wait", fg_bold(AMBER))],
            vec![("   Then", fg(GREEN)), (" I see the dashboard", plain())],
        ]
    );
    let items: Vec<Option<usize>> = lines.iter().map(|l| l.item).collect();
    assert_eq!(items, vec![None, None, None, None, Some(0), Some(1), Some(2)]);

    s.explore_selected_scenario = 1;
    let lines = ui.step_panel(&s, &p, 80);
    let all: Vec<Vec<(&str, TextStyle)>> = lines.iter().map(|l| texts(&l.spans)).collect();
    assert_eq!(all[3], vec![("   When", fg(AMBER)), (" I enter <user>", plain())]);
    assert_eq!(all[4], vec![]);
    assert_eq!(all[5], vec![(" Examples:", fg(CYAN))]);
    assert_eq!(all[6], vec![("  | user |", fg(MUTED))]);
    assert_eq!(all[7], vec![("  | bob  |", fg(MUTED))]);
    assert_eq!(lines.len(), 8);
}

#[test]
fn step_panel_without_steps() {
    let ui = AppUi::new();
    let p = project();
    let mut s = state();
    s.explore_selected_feature = 1;
    let lines = ui.step_panel(&s, &p, 80);
    assert_eq!(lines.len(), 1);
    assert_eq!(texts(&lines[0].spans), vec![("  (no steps)", fg(MUTED))]);
    assert_eq!(lines[0].rows, 1);
}

#[test]
fn regions_follow_the_rows_of_the_lines() {
    let ui = AppUi::new();
    let s = state();
    let labels = vec!["a".to_string(), "a-rather-long-feature-name".to_string(), "b".to_string()];
    let lines = ui.feature_panel(&s, &labels, 10);
    let inner = CellRect { x: 2, y: 3, width: 10, height: 20 };
    let regions = panel_regions_of(&lines, PanelKind::Feature, inner).unwrap();
    assert_eq!(
        regions,
        vec![
            ClickableRegion::ExploreFeature { feature_idx: 0, row_y: 3, col_x: 2, col_right: 12 },
            ClickableRegion::ExploreFeature { feature_idx: 1, row_y: 4, col_x: 2, col_right: 12 },
            ClickableRegion::ExploreFeature { feature_idx: 2, row_y: 7, col_x: 2, col_right: 12 },
        ]
    );
}

#[test]
fn step_regions_skip_lines_without_items() {
    let ui = AppUi::new();
    let p = project();
    let s = state();
    let lines = ui.step_panel(&s, &p, 80);
    let inner = CellRect { x: 0, y: 1, width: 80, height: 20 };
    let regions = panel_regions_of(&lines, PanelKind::Step, inner).unwrap();
    assert_eq!(
        regions,
        vec![
            ClickableRegion::ExploreStep { step_idx: 0, row_y: 5, col_x: 0, col_right: 80 },
            ClickableRegion::ExploreStep { step_idx: 1, row_y: 6, col_x: 0, col_right: 80 },
            ClickableRegion::ExploreStep { step_idx: 2, row_y: 7, col_x: 0, col_right: 80 },
        ]
    );
}

#[test]
fn regions_past_the_last_row_are_refused() {
    let lines = vec![
        PanelLine { spans: vec![], rows: 10, item: Some(0) },
        PanelLine { spans: vec![], rows: 10, item: Some(1) },
    ];
    let inner = CellRect { x: 0, y: 65520, width: 10, height: 10 };
    assert!(panel_regions_of(&lines, PanelKind::Scenario, inner).is_none());
    let inner = CellRect { x: 0, y: 65515, width: 10, height: 10 };
    assert_eq!(
        panel_regions_of(&lines, PanelKind::Scenario, inner).unwrap(),
        vec![
            ClickableRegion::ExploreScenario { scenario_idx: 0, row_y: 65515, col_x: 0, col_right: 10 },
            ClickableRegion::ExploreScenario { scenario_idx: 1, row_y: 65525, col_x: 0, col_right: 10 },
        ]
    );
}

#[test]
fn clicking_a_feature_line_selects_the_feature() {
    let ui = AppUi::new();
    let mut s = state();
    s.explore_focus = ColumnFocus::Step;
    s.explore_selected_scenario = 2;
    s.explore_selected_step = 3;
    let labels = vec!["a".to_string(), "a-rather-long-feature-name".to_string(), "b".to_string()];
    let lines = ui.feature_panel(&s, &labels, 10);
    let inner = CellRect { x: 2, y: 3, width: 10, height: 20 };
    let regions = panel_regions_of(&lines, PanelKind::Feature, inner).unwrap();
    teshi::explorer::handle_mouse(&mut s, &regions, None, true, Some(2), Some(7));
    assert_eq!(s.explore_selected_feature, 2);
    assert_eq!(s.explore_focus, ColumnFocus::Feature);
    assert_eq!((s.explore_selected_scenario, s.explore_selected_step), (0, 0));
}

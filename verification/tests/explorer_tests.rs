use teshi::explorer::{
    handle_key, handle_mouse, poll_runner, reload_features, simulate_run, CellRect,
    ClickableRegion, ColumnFocus, KeyEffect, KeyInput, MouseEffect, TreeMove, UiState,
};
use teshi::gherkin::{parse_feature, BddProject};
use teshi::runner::RunnerEvent;
use teshi::status::ScenarioStatusMap;

const LOGIN: &str = "\
Feature: User login
  Background:
    Given I am on the login page

  Scenario: Successful login
    When I enter my name
    And I enter my password
    Then I see the dashboard

  Scenario: Failed login
    When I enter a wrong password
";

const CART: &str = "\
Feature: Cart
  Scenario: Add item
    Given an empty cart
";

fn project() -> BddProject {
    BddProject {
        root_dir: String::from("local"),
        features: vec![
            parse_feature(LOGIN, String::from("login.feature")),
            parse_feature(CART, String::from("cart.feature")),
        ],
    }
}

fn names() -> Vec<String> {
    vec!["login".to_string(), "cart".to_string()]
}

fn state() -> UiState {
    UiState {
        active_tab: 0,
        status: String::new(),
        explore_focus: ColumnFocus::Feature,
        explore_selected_feature: 0,
        explore_selected_scenario: 0,
        explore_selected_step: 0,
        chat_messages: vec![],
        chat_input: String::new(),
        chat_waiting: false,
        show_raw_feature: false,
        raw_feature_index: 0,
        pending_chat_response: None,
        show_help: false,
    }
}

fn press(s: &mut UiState, p: &BddProject, code: KeyInput) -> (bool, KeyEffect) {
    handle_key(s, p, &names(), code)
}

#[test]
fn digit_keys_switch_tabs() {
    let p = project();
    let mut s = state();
    assert_eq!(press(&mut s, &p, KeyInput::Char('2')), (true, KeyEffect::Nothing));
    assert_eq!(s.active_tab, 1);
    assert_eq!(press(&mut s, &p, KeyInput::Char('3')), (true, KeyEffect::Nothing));
    assert_eq!(s.active_tab, 2);
    s.chat_waiting = true;
    assert_eq!(press(&mut s, &p, KeyInput::Char('1')), (true, KeyEffect::Nothing));
    assert_eq!(s.active_tab, 0);
}

#[test]
fn runner_and_reload_keys_ask_for_outside_work() {
    let p = project();
    let mut s = state();
    assert_eq!(press(&mut s, &p, KeyInput::Char('r')), (true, KeyEffect::PingRunner));
    assert_eq!(s.status, "Ping sent...");
    assert_eq!(press(&mut s, &p, KeyInput::Char('t')), (true, KeyEffect::SimulateRun));
    s.explore_selected_feature = 1;
    s.explore_selected_step = 2;
    s.show_raw_feature = true;
    assert_eq!(press(&mut s, &p, KeyInput::Char('R')), (true, KeyEffect::ReloadFeatures));
    assert_eq!(s.explore_selected_feature, 0);
    assert_eq!(s.explore_selected_step, 0);
    assert!(!s.show_raw_feature);
    assert_eq!(s.status, "Features reloaded.");
}

#[test]
fn tab_cycles_focus_in_explore() {
    let p = project();
    let mut s = state();
    press(&mut s, &p, KeyInput::Tab);
    assert_eq!(s.explore_focus, ColumnFocus::Scenario);
    press(&mut s, &p, KeyInput::Tab);
    assert_eq!(s.explore_focus, ColumnFocus::Step);
    press(&mut s, &p, KeyInput::Tab);
    assert_eq!(s.explore_focus, ColumnFocus::Feature);
    s.active_tab = 1;
    assert_eq!(press(&mut s, &p, KeyInput::Tab), (false, KeyEffect::Nothing));
}

#[test]
fn arrows_move_focus_and_stop_at_edges() {
    let p = project();
    let mut s = state();
    press(&mut s, &p, KeyInput::Left);
    assert_eq!(s.explore_focus, ColumnFocus::Feature);
    press(&mut s, &p, KeyInput::Right);
    press(&mut s, &p, KeyInput::Right);
    press(&mut s, &p, KeyInput::Right);
    assert_eq!(s.explore_focus, ColumnFocus::Step);
    press(&mut s, &p, KeyInput::Left);
    assert_eq!(s.explore_focus, ColumnFocus::Scenario);
}

#[test]
fn down_and_up_stay_within_lists() {
    let p = project();
    let mut s = state();
    press(&mut s, &p, KeyInput::Up);
    assert_eq!(s.explore_selected_feature, 0);
    press(&mut s, &p, KeyInput::Down);
    press(&mut s, &p, KeyInput::Down);
    assert_eq!(s.explore_selected_feature, 1);
    s.explore_selected_feature = 0;
    s.explore_focus = ColumnFocus::Scenario;
    for _ in 0..5 {
        press(&mut s, &p, KeyInput::Down);
    }
    assert_eq!(s.explore_selected_scenario, 1);
    s.explore_selected_scenario = 0;
    s.explore_focus = ColumnFocus::Step;
    // one background step and three scenario steps
    for _ in 0..9 {
        press(&mut s, &p, KeyInput::Down);
    }
    assert_eq!(s.explore_selected_step, 3);
    press(&mut s, &p, KeyInput::Up);
    assert_eq!(s.explore_selected_step, 2);
}

#[test]
fn down_clamps_an_out_of_range_selection() {
    let p = project();
    let mut s = state();
    s.explore_selected_feature = 9;
    press(&mut s, &p, KeyInput::Down);
    assert_eq!(s.explore_selected_feature, 1);
}

#[test]
fn enter_toggles_raw_view_of_selected_feature() {
    let p = project();
    let mut s = state();
    s.explore_selected_feature = 1;
    press(&mut s, &p, KeyInput::Enter);
    assert!(s.show_raw_feature);
    assert_eq!(s.raw_feature_index, 1);
    press(&mut s, &p, KeyInput::Enter);
    assert!(!s.show_raw_feature);
    press(&mut s, &p, KeyInput::Enter);
    assert_eq!(press(&mut s, &p, KeyInput::Backspace), (true, KeyEffect::Nothing));
    assert!(!s.show_raw_feature);
}

#[test]
fn mindmap_keys_move_the_tree() {
    let p = project();
    let mut s = state();
    s.active_tab = 1;
    assert_eq!(press(&mut s, &p, KeyInput::Up), (true, KeyEffect::Tree(TreeMove::Up)));
    assert_eq!(press(&mut s, &p, KeyInput::Down), (true, KeyEffect::Tree(TreeMove::Down)));
    assert_eq!(press(&mut s, &p, KeyInput::Left), (true, KeyEffect::Tree(TreeMove::Left)));
    assert_eq!(press(&mut s, &p, KeyInput::Right), (true, KeyEffect::Tree(TreeMove::Right)));
    assert_eq!(press(&mut s, &p, KeyInput::Enter), (true, KeyEffect::Tree(TreeMove::Toggle)));
    assert_eq!(press(&mut s, &p, KeyInput::Char(' ')), (true, KeyEffect::Tree(TreeMove::Toggle)));
}

#[test]
fn help_toggles_and_escape_closes_it() {
    let p = project();
    let mut s = state();
    press(&mut s, &p, KeyInput::Char('?'));
    assert!(s.show_help);
    press(&mut s, &p, KeyInput::Char('?'));
    assert!(!s.show_help);
    press(&mut s, &p, KeyInput::Char('?'));
    assert_eq!(press(&mut s, &p, KeyInput::Esc), (true, KeyEffect::Nothing));
    assert!(!s.show_help);
    assert_eq!(press(&mut s, &p, KeyInput::Esc), (false, KeyEffect::Nothing));
    assert_eq!(press(&mut s, &p, KeyInput::Other), (false, KeyEffect::Nothing));
    assert_eq!(press(&mut s, &p, KeyInput::Char('z')), (false, KeyEffect::Nothing));
}

#[test]
fn chat_typing_sending_and_reply() {
    let p = project();
    let mut s = state();
    s.active_tab = 2;
    press(&mut s, &p, KeyInput::Char('c'));
    press(&mut s, &p, KeyInput::Char('a'));
    press(&mut s, &p, KeyInput::Char('x'));
    assert_eq!(s.chat_input, "cax");
    press(&mut s, &p, KeyInput::Backspace);
    assert_eq!(s.chat_input, "ca");
    // global keys are not typed
    assert_eq!(press(&mut s, &p, KeyInput::Char('r')), (true, KeyEffect::PingRunner));
    assert_eq!(s.chat_input, "ca");
    assert_eq!(press(&mut s, &p, KeyInput::Enter), (true, KeyEffect::Nothing));
    assert_eq!(s.chat_input, "");
    assert!(s.chat_waiting);
    assert_eq!(s.status, "Thinking...");
    assert_eq!(
        s.chat_messages,
        vec![
            ("user".to_string(), "ca".to_string()),
            ("assistant".to_string(), "Thinking...".to_string())
        ]
    );
    // while waiting, typing is not taken
    assert_eq!(press(&mut s, &p, KeyInput::Char('z')), (false, KeyEffect::Nothing));
    let mut statuses = ScenarioStatusMap::new();
    let marks = poll_runner(&mut s, &mut statuses, &p, &vec![], true);
    assert!(marks.is_empty());
    assert!(!s.chat_waiting);
    assert_eq!(s.status, "Ready");
    assert_eq!(s.chat_messages.len(), 2);
    assert_eq!(s.chat_messages[1].0, "assistant");
    assert_eq!(s.chat_messages[1].1, "I found matching features:\n\n**cart**\n1 scenarios\n    • Add item");
}

#[test]
fn empty_chat_input_sends_nothing() {
    let p = project();
    let mut s = state();
    s.active_tab = 2;
    press(&mut s, &p, KeyInput::Backspace);
    assert_eq!(press(&mut s, &p, KeyInput::Char('\n')), (true, KeyEffect::Nothing));
    assert!(s.chat_messages.is_empty());
    assert!(!s.chat_waiting);
}

#[test]
fn clicking_tabs_selects_them() {
    let mut s = state();
    let regions = vec![ClickableRegion::Tab(0), ClickableRegion::Tab(1), ClickableRegion::Tab(2)];
    assert_eq!(handle_mouse(&mut s, &regions, None, true, Some(20), Some(0)), MouseEffect::Nothing);
    assert_eq!(s.active_tab, 1);
    handle_mouse(&mut s, &regions, None, true, Some(30), Some(0));
    assert_eq!(s.active_tab, 2);
    // the gap between two tab labels
    handle_mouse(&mut s, &regions, None, true, Some(14), Some(0));
    assert_eq!(s.active_tab, 2);
    handle_mouse(&mut s, &regions, None, true, Some(0), Some(0));
    assert_eq!(s.active_tab, 0);
}

#[test]
fn clicking_explore_items_selects_them() {
    let mut s = state();
    s.explore_selected_scenario = 3;
    s.explore_selected_step = 2;
    let regions = vec![
        ClickableRegion::ExploreFeature { feature_idx: 1, row_y: 4, col_x: 1, col_right: 10 },
        ClickableRegion::ExploreScenario { scenario_idx: 2, row_y: 5, col_x: 11, col_right: 20 },
        ClickableRegion::ExploreStep { step_idx: 3, row_y: 6, col_x: 21, col_right: 30 },
    ];
    handle_mouse(&mut s, &regions, None, true, Some(5), Some(4));
    assert_eq!(s.explore_selected_feature, 1);
    assert_eq!(s.explore_selected_scenario, 0);
    assert_eq!(s.explore_selected_step, 0);
    assert_eq!(s.explore_focus, ColumnFocus::Feature);
    handle_mouse(&mut s, &regions, None, true, Some(11), Some(5));
    assert_eq!(s.explore_selected_scenario, 2);
    assert_eq!(s.explore_focus, ColumnFocus::Scenario);
    handle_mouse(&mut s, &regions, None, true, Some(29), Some(6));
    assert_eq!(s.explore_selected_step, 3);
    assert_eq!(s.explore_focus, ColumnFocus::Step);
    // right edge is outside
    handle_mouse(&mut s, &regions, None, true, Some(10), Some(4));
    assert_eq!(s.explore_focus, ColumnFocus::Step);
}

#[test]
fn clicking_the_tree_panel_asks_for_a_tree_click() {
    let mut s = state();
    let regions = vec![ClickableRegion::Tree];
    let rect = Some(CellRect { x: 2, y: 3, width: 10, height: 5 });
    assert_eq!(handle_mouse(&mut s, &regions, rect, true, Some(4), Some(4)), MouseEffect::Nothing);
    s.active_tab = 1;
    assert_eq!(
        handle_mouse(&mut s, &regions, rect, true, Some(4), Some(4)),
        MouseEffect::TreeClick { col: 4, row: 4 }
    );
    assert_eq!(handle_mouse(&mut s, &regions, rect, true, Some(12), Some(4)), MouseEffect::Nothing);
    assert_eq!(handle_mouse(&mut s, &regions, None, true, Some(4), Some(4)), MouseEffect::Nothing);
}

#[test]
fn other_mouse_events_do_nothing() {
    let mut s = state();
    let regions = vec![ClickableRegion::Tab(1)];
    assert_eq!(handle_mouse(&mut s, &regions, None, false, Some(20), Some(0)), MouseEffect::Nothing);
    assert_eq!(handle_mouse(&mut s, &regions, None, true, None, Some(0)), MouseEffect::Nothing);
    assert_eq!(s.active_tab, 0);
}

#[test]
fn cell_rect_edges_saturate() {
    let r = CellRect { x: 65530, y: 2, width: 10, height: 3 };
    assert_eq!(r.right(), 65535);
    assert_eq!(r.bottom(), 5);
}

#[test]
fn runner_events_update_status_and_marks() {
    let p = project();
    let mut s = state();
    let mut statuses = ScenarioStatusMap::new();
    let events = vec![
        RunnerEvent::Pong,
        RunnerEvent::TestStarted { scenario: "Successful login".to_string() },
        RunnerEvent::TestStep { step: "Given I am on the login page".to_string(), status: "ok".to_string() },
        RunnerEvent::TestOutput { line: "42 assertions".to_string() },
        RunnerEvent::TestFinished { scenario: "Add item".to_string(), status: "passed".to_string(), duration_ms: 42 },
    ];
    let marks = poll_runner(&mut s, &mut statuses, &p, &events, true);
    assert_eq!(s.status, "Add item: passed (42ms)");
    assert_eq!(marks.len(), 2);
    assert_eq!((marks[0].feature_idx, marks[0].scenario_idx, marks[0].status.as_str()), (0, 0, "running"));
    assert_eq!((marks[1].feature_idx, marks[1].scenario_idx, marks[1].status.as_str()), (1, 0, "passed"));
    assert_eq!(statuses.get(0, 0), Some("running".to_string()));
    assert_eq!(statuses.get(1, 0), Some("passed".to_string()));
    assert_eq!(statuses.get(0, 1), None);
}

#[test]
fn runner_step_and_output_texts() {
    let p = project();
    let mut s = state();
    let mut statuses = ScenarioStatusMap::new();
    poll_runner(&mut s, &mut statuses, &p, &vec![RunnerEvent::TestStep { step: "s".to_string(), status: "ok".to_string() }], true);
    assert_eq!(s.status, "s → ok");
    poll_runner(&mut s, &mut statuses, &p, &vec![RunnerEvent::TestOutput { line: "hello".to_string() }], true);
    assert_eq!(s.status, "Output: hello");
    poll_runner(&mut s, &mut statuses, &p, &vec![RunnerEvent::Pong], true);
    assert_eq!(s.status, "Connected");
}

#[test]
fn runner_names_match_by_containment_and_first_wins() {
    let p = project();
    let mut s = state();
    let mut statuses = ScenarioStatusMap::new();
    let events = vec![RunnerEvent::TestFinished { scenario: "login".to_string(), status: "failed".to_string(), duration_ms: 7 }];
    let marks = poll_runner(&mut s, &mut statuses, &p, &events, true);
    assert_eq!(marks.len(), 1);
    assert_eq!((marks[0].feature_idx, marks[0].scenario_idx), (0, 0));
    assert_eq!(s.status, "login: failed (7ms)");
}

#[test]
fn unknown_scenarios_are_not_marked() {
    let p = project();
    let mut s = state();
    let mut statuses = ScenarioStatusMap::new();
    let events = vec![RunnerEvent::TestStarted { scenario: "Checkout".to_string() }];
    let marks = poll_runner(&mut s, &mut statuses, &p, &events, true);
    assert!(marks.is_empty());
    assert_eq!(s.status, "Running: Checkout");
    assert_eq!(statuses.count("running"), 0);
}

#[test]
fn lost_connection_is_reported_last() {
    let p = project();
    let mut s = state();
    let mut statuses = ScenarioStatusMap::new();
    poll_runner(&mut s, &mut statuses, &p, &vec![RunnerEvent::Pong], false);
    assert_eq!(s.status, "Runner disconnected");
}

#[test]
fn seeded_simulation_marks_every_scenario() {
    let p = project();
    let mut s = state();
    let mut statuses = ScenarioStatusMap::new();
    let marks = simulate_run(&mut s, &mut statuses, &p, 1);
    let got: Vec<(usize, usize, &str)> =
        marks.iter().map(|m| (m.feature_idx, m.scenario_idx, m.status.as_str())).collect();
    assert_eq!(got, vec![(0, 0, "failed"), (0, 1, "passed"), (1, 0, "failed")]);
    assert_eq!(s.status, "Simulated 3 scenarios: 1 passed, 2 failed");
    assert_eq!(statuses.count("passed"), 1);
    assert_eq!(statuses.count("failed"), 2);

    let marks = simulate_run(&mut s, &mut statuses, &p, 42);
    let got: Vec<&str> = marks.iter().map(|m| m.status.as_str()).collect();
    assert_eq!(got, vec!["passed", "passed", "failed"]);
    assert_eq!(s.status, "Simulated 3 scenarios: 2 passed, 1 failed");
    assert_eq!(statuses.count("passed"), 2);
    assert_eq!(statuses.count("failed"), 1);
}

#[test]
fn any_seed_marks_all_scenarios() {
    let p = project();
    let mut s = state();
    let mut statuses = ScenarioStatusMap::new();
    let marks = simulate_run(&mut s, &mut statuses, &p, 987_654_321);
    assert_eq!(marks.len(), 3);
    assert!(s.status.starts_with("Simulated 3 scenarios: "));
    assert_eq!(statuses.count("passed") + statuses.count("failed"), 3);
}

#[test]
fn reload_parses_files_and_resets_selection() {
    let mut s = state();
    s.explore_selected_feature = 1;
    s.explore_selected_scenario = 1;
    s.show_raw_feature = true;
    s.status = "kept".to_string();
    let files = vec![
        ("a.feature".to_string(), CART.to_string()),
        ("b.feature".to_string(), LOGIN.to_string()),
    ];
    let p = reload_features(&mut s, &files);
    assert_eq!(p.features.len(), 2);
    assert_eq!(p.features[0].name, "Cart");
    assert_eq!(p.features[1].name, "User login");
    assert_eq!(p.features[0].file_path, String::from("a.feature"));
    assert_eq!(p.root_dir, String::from("local"));
    assert_eq!(s.explore_selected_feature, 0);
    assert_eq!(s.explore_selected_scenario, 0);
    assert!(!s.show_raw_feature);
    assert_eq!(s.status, "kept");
}

#[test]
fn selection_getters() {
    let p = project();
    let mut s = state();
    s.explore_selected_feature = 0;
    s.explore_selected_scenario = 1;
    assert_eq!(s.selected_feature_index(), 0);
    assert_eq!(s.selected_scenario_index(), 1);
    assert_eq!(s.selected_feature(&p).map(|f| f.name.clone()), Some("User login".to_string()));
    assert_eq!(s.selected_scenario(&p).map(|sc| sc.name.clone()), Some("Failed login".to_string()));
    s.explore_selected_scenario = 5;
    assert!(s.selected_scenario(&p).is_none());
    s.explore_selected_feature = 2;
    assert!(s.selected_feature(&p).is_none());
}

#[test]
fn start_up_state() {
    let s = UiState::new();
    assert_eq!(s.active_tab, 0);
    assert_eq!(s.status, "Ready");
    assert_eq!(s.explore_focus, ColumnFocus::Feature);
    assert_eq!(s.chat_messages.len(), 1);
    assert_eq!(s.chat_messages[0].0, "system");
    assert!(s.chat_messages[0].1.starts_with("Welcome to Teshi AI!"));
    assert!(s.chat_input.is_empty());
    assert!(!s.chat_waiting && !s.show_help && !s.show_raw_feature);
    assert!(s.pending_chat_response.is_none());
}

#[test]
fn tab_regions_name_the_three_tabs() {
    assert_eq!(
        teshi::explorer::tab_regions(),
        vec![ClickableRegion::Tab(0), ClickableRegion::Tab(1), ClickableRegion::Tab(2)]
    );
}

use teshi::explorer::{CellRect, ColumnFocus, UiState};
use teshi::gherkin::{parse_feature, BddProject, StepKeywordType};
use teshi::status::ScenarioStatusMap;
use teshi::ui::{render_examples_table_lines, AppUi, StyledSpan, TextStyle, UiColor};

const BLUE: UiColor = UiColor::Rgb(86, 156, 214);
const AMBER: UiColor = UiColor::Rgb(226, 183, 20);
const GREEN: UiColor = UiColor::Rgb(106, 153, 85);
const GRAY: UiColor = UiColor::Rgb(128, 128, 128);
const CYAN: UiColor = UiColor::Rgb(86, 182, 194);
const MUTED: UiColor = UiColor::Rgb(136, 136, 136);

fn plain() -> TextStyle {
    TextStyle { fg: None, bg: None, bold: false }
}

fn fg(c: UiColor) -> TextStyle {
    TextStyle { fg: Some(c), bg: None, bold: false }
}

fn fg_bold(c: UiColor) -> TextStyle {
    TextStyle { fg: Some(c), bg: None, bold: true }
}

fn texts(spans: &[StyledSpan]) -> Vec<(&str, TextStyle)> {
    spans.iter().map(|s| (s.text.as_str(), s.style)).collect()
}

fn sp(text: &str, style: TextStyle) -> StyledSpan {
    StyledSpan { text: text.to_string(), style }
}

fn state() -> UiState {
    UiState {
        active_tab: 0,
        status: String::new(),
        explore_focus: ColumnFocus::Feature,
        explore_selected_feature: 0,
        explore_selected_scenario: 0,
        explore_selected_step: 0,
        chat_messages: vec![],
        chat_input: String::new(),
        chat_waiting: false,
        show_raw_feature: false,
        raw_feature_index: 0,
        pending_chat_response: None,
        show_help: false,
    }
}

const LOGIN: &str = "\
@auth @smoke
Feature: User login
  As a user

  Background:
    Given I am on the login page

  @happy
  Scenario: Successful login
    When I log in
    Then I see the dashboard

  Scenario Outline: Failed login
    When I enter <user>
    Examples:
      | user |
      | bob  |
";

fn project() -> BddProject {
    BddProject {
        root_dir: String::from("local"),
        features: vec![parse_feature(LOGIN, String::from("login.feature"))],
    }
}

#[test]
fn keyword_colors_inherit_the_last_major_keyword() {
    let ui = AppUi::new();
    let mut last = None;
    assert_eq!(ui.keyword_color(StepKeywordType::And, &mut last), GRAY);
    assert_eq!(last, None);
    assert_eq!(ui.keyword_color(StepKeywordType::Given, &mut last), BLUE);
    assert_eq!(ui.keyword_color(StepKeywordType::And, &mut last), BLUE);
    assert_eq!(ui.keyword_color(StepKeywordType::When, &mut last), AMBER);
    assert_eq!(ui.keyword_color(StepKeywordType::But, &mut last), AMBER);
    assert_eq!(ui.keyword_color(StepKeywordType::Then, &mut last), GREEN);
    assert_eq!(last, Some(GREEN));
}

#[test]
fn title_and_selection_styles() {
    let ui = AppUi::new();
    assert_eq!(ui.block_title_style(true), fg_bold(AMBER));
    assert_eq!(ui.block_title_style(false), fg(MUTED));
    assert_eq!(ui.selected_style(true), fg_bold(AMBER));
    assert_eq!(ui.selected_style(false), fg(CYAN));
}

#[test]
fn footer_hints() {
    let ui = AppUi::new();
    let pill = ui.footer_pill(" Tab ");
    assert_eq!((pill.text.as_str(), pill.style), (" Tab ", fg(CYAN)));
    let mm = ui.mindmap_footer_hints();
    assert_eq!(
        texts(&mm),
        vec![(" ↑↓ select ", fg(CYAN)), (" ←→ expand ", fg(CYAN)), (" Space toggle ", fg(CYAN))]
    );
    let mut s = state();
    assert_eq!(texts(&ui.ai_footer_hints(&s)), vec![(" Enter send ", fg(CYAN)), (" Esc clear ", fg(CYAN))]);
    s.chat_waiting = true;
    assert_eq!(texts(&ui.ai_footer_hints(&s)), vec![(" Thinking...", fg(AMBER))]);
}

#[test]
fn explore_footer_shows_selection_and_results() {
    let ui = AppUi::new();
    let p = project();
    let mut s = state();
    let mut statuses = ScenarioStatusMap::new();
    statuses.insert(0, 0, "passed".to_string());
    statuses.insert(0, 1, "failed".to_string());
    statuses.insert(0, 0, "passed".to_string());
    let hints = ui.explore_footer_hints(&s, &p, &statuses, Some("login".to_string()));
    assert_eq!(
        texts(&hints),
        vec![
            (" login  Successful login ", fg(MUTED)),
            (" Tab ", fg(CYAN)),
            (" ↑↓ ", fg(CYAN)),
            (" Enter ", fg(CYAN)),
            (" ? ", fg(CYAN)),
            (" 1/2 passed, 1 failed ", fg(MUTED)),
        ]
    );
    s.explore_selected_scenario = 7;
    let hints = ui.explore_footer_hints(&s, &p, &statuses, None);
    assert_eq!(hints[0].text, " -  - ");
    s.explore_selected_feature = 3;
    let hints = ui.explore_footer_hints(&s, &p, &statuses, None);
    assert_eq!(hints.len(), 5);
    s.show_raw_feature = true;
    let hints = ui.explore_footer_hints(&s, &p, &statuses, None);
    assert_eq!(texts(&hints), vec![(" Enter/Back ", fg(CYAN)), (" 1-3 tabs ", fg(CYAN))]);
}

#[test]
fn help_overlay_lines_and_area() {
    let ui = AppUi::new();
    let lines = ui.help_lines();
    assert_eq!(lines.len(), 15);
    assert_eq!((lines[0].text.as_str(), lines[0].style), ("Keyboard Shortcuts", fg_bold(CYAN)));
    assert_eq!(lines[14].text, "  Press ? or Esc to close");
    assert_eq!(ui.help_area(CellRect { x: 0, y: 0, width: 80, height: 24 }), CellRect { x: 15, y: 3, width: 50, height: 17 });
    assert_eq!(ui.help_area(CellRect { x: 0, y: 0, width: 40, height: 10 }), CellRect { x: 0, y: 0, width: 50, height: 17 });
}

fn highlight(line: &str, in_doc: &mut bool, last: &mut Option<UiColor>) -> Vec<(String, TextStyle)> {
    AppUi::new().highlight_gherkin_line(line, in_doc, last).into_iter().map(|s| (s.text, s.style)).collect()
}

fn owned(v: Vec<(&str, TextStyle)>) -> Vec<(String, TextStyle)> {
    v.into_iter().map(|(t, s)| (t.to_string(), s)).collect()
}

#[test]
fn highlights_step_keywords() {
    let mut doc = false;
    let mut last = None;
    assert_eq!(
        highlight("    Given I am here", &mut doc, &mut last),
        owned(vec![("    ", plain()), ("Given", fg(BLUE)), (" I am here", plain())])
    );
    assert_eq!(last, Some(BLUE));
    assert_eq!(
        highlight("    And more", &mut doc, &mut last),
        owned(vec![("    ", plain()), ("And", fg(BLUE)), (" more", plain())])
    );
    assert_eq!(highlight("Givenx", &mut doc, &mut last), owned(vec![("Givenx", plain())]));
}

#[test]
fn highlights_headers_and_resets_keyword_colour() {
    let mut doc = false;
    let mut last = Some(GREEN);
    assert_eq!(
        highlight("Feature: Login", &mut doc, &mut last),
        owned(vec![("", plain()), ("Feature:", fg_bold(CYAN)), (" Login", plain())])
    );
    assert_eq!(last, None);
    assert_eq!(
        highlight("  Scenario Outline: X", &mut doc, &mut last),
        owned(vec![("  ", plain()), ("Scenario Outline:", fg_bold(CYAN)), (" X", plain())])
    );
}

#[test]
fn highlights_tags_comments_tables_and_doc_strings() {
    let mut doc = false;
    let mut last = None;
    assert_eq!(
        highlight("  @smoke   @fast", &mut doc, &mut last),
        owned(vec![("  ", plain()), ("@smoke", fg(AMBER)), (" ", plain()), ("@fast", fg(AMBER)), (" ", plain())])
    );
    assert_eq!(highlight("  # note", &mut doc, &mut last), owned(vec![("  # note", fg(MUTED))]));
    assert_eq!(highlight("  | a | b |", &mut doc, &mut last), owned(vec![("  | a | b |", fg(MUTED))]));
    assert_eq!(highlight("    \"\"\"", &mut doc, &mut last), owned(vec![("    ", plain()), ("\"\"\"", fg(MUTED))]));
    assert!(doc);
    assert_eq!(highlight("    Given text", &mut doc, &mut last), owned(vec![("    Given text", fg(MUTED))]));
    assert_eq!(highlight("    ```", &mut doc, &mut last), owned(vec![("    ", plain()), ("```", fg(MUTED))]));
    assert!(!doc);
}

#[test]
fn truncates_and_pads_to_width() {
    let ui = AppUi::new();
    let line = vec![sp("hello", plain()), sp("world", fg(BLUE))];
    assert_eq!(texts(&ui.truncate_or_pad(line.clone(), 7)), vec![("hello", plain()), ("wo", fg(BLUE))]);
    assert_eq!(texts(&ui.truncate_or_pad(line.clone(), 5)), vec![("hello", plain())]);
    assert_eq!(texts(&ui.truncate_or_pad(line.clone(), 10)), vec![("hello", plain()), ("world", fg(BLUE))]);
    assert_eq!(
        texts(&ui.truncate_or_pad(line.clone(), 12)),
        vec![("hello", plain()), ("world", fg(BLUE)), ("  ", plain())]
    );
    assert!(ui.truncate_or_pad(line, 0).is_empty());
}

#[test]
fn truncation_measures_display_width() {
    let ui = AppUi::new();
    // "日本" is four columns wide but two characters long
    let line = vec![sp("日本", plain()), sp("x", plain())];
    assert_eq!(texts(&ui.truncate_or_pad(line.clone(), 4)), vec![("日本", plain())]);
    // a wide character that does not fit whole is dropped and its column padded
    assert_eq!(texts(&ui.truncate_or_pad(line.clone(), 3)), vec![("日", plain()), (" ", plain())]);
    assert_eq!(texts(&ui.truncate_or_pad(line, 1)), vec![("", plain()), (" ", plain())]);
    let wide = vec![sp("日本", plain())];
    assert_eq!(texts(&ui.truncate_or_pad(wide, 6)), vec![("日本", plain()), ("  ", plain())]);
}

#[test]
fn examples_table_is_aligned() {
    let headers = vec!["user".to_string(), "pass".to_string()];
    let rows = vec![
        vec!["bob".to_string(), "wrong".to_string()],
        vec!["carolina".to_string()],
    ];
    assert_eq!(
        render_examples_table_lines(&headers, &rows),
        vec!["| user     | pass  |", "| bob      | wrong |", "| carolina |       |"]
    );
    assert!(render_examples_table_lines(&vec![], &rows).is_empty());
}

#[test]
fn examples_table_uses_display_width() {
    let headers = vec!["名前".to_string()];
    let rows = vec![vec!["ab".to_string()]];
    assert_eq!(render_examples_table_lines(&headers, &rows), vec!["| 名前 |", "| ab   |"]);
}

#[test]
fn raw_view_of_a_feature() {
    let ui = AppUi::new();
    let p = project();
    let expected = "@auth @smoke\nFeature: User login\n  As a user\n\n  Background:\n    Given I am on the login page\n\n  @happy\n  Scenario: Successful login\n    When I log in\n    Then I see the dashboard\n\n  Scenario Outline: Failed login\n    When I enter <user>\n    Examples:\n      | user |\n      | bob |\n";
    assert_eq!(ui.raw_feature_content(&p, 0), expected);
    assert_eq!(ui.raw_feature_content(&p, 1), "Feature not found.");
    assert_eq!(ui.raw_feature_title("login"), " login (raw) ");
}

#[test]
fn wrapped_line_rows() {
    let ui = AppUi::new();
    assert_eq!(ui.line_rows("", 10), 1);
    assert_eq!(ui.line_rows("abc", 1), 1);
    assert_eq!(ui.line_rows("abcdefghij", 10), 1);
    assert_eq!(ui.line_rows("abcdefghijk", 10), 2);
    assert_eq!(ui.line_rows("ab", 2), 1);
    // counted in bytes: "é" takes two
    assert_eq!(ui.line_rows("éé", 2), 2);
}

#[test]
fn chat_panel_layout() {
    let ui = AppUi::new();
    let inner = CellRect { x: 1, y: 1, width: 40, height: 20 };
    let (chat, status, input) = ui.chat_layout(inner, "");
    assert_eq!(chat, CellRect { x: 1, y: 1, width: 40, height: 16 });
    assert_eq!(status, CellRect { x: 1, y: 17, width: 40, height: 1 });
    assert_eq!(input, CellRect { x: 1, y: 18, width: 40, height: 3 });
    let (chat, _, input) = ui.chat_layout(inner, "a\nb\nc\nd\ne\nf\ng\nh");
    assert_eq!(input.height, 6);
    assert_eq!(chat.height, 13);
    let small = CellRect { x: 0, y: 0, width: 10, height: 2 };
    let (chat, status, input) = ui.chat_layout(small, "hello");
    assert_eq!(chat.height, 0);
    assert_eq!(status, CellRect { x: 0, y: 0, width: 10, height: 1 });
    assert_eq!(input, CellRect { x: 0, y: 1, width: 10, height: 3 });
}

#[test]
fn chat_history_shows_the_last_lines() {
    let ui = AppUi::new();
    assert_eq!(ui.visible_window(10, 4), (6, 10));
    assert_eq!(ui.visible_window(3, 4), (0, 3));
    assert_eq!(ui.visible_window(0, 0), (0, 0));
}

#[test]
fn chat_headers_and_status() {
    let ui = AppUi::new();
    let h = ui.chat_role_header("user");
    assert_eq!((h.text.as_str(), h.style), ("▶ You", fg_bold(CYAN)));
    let h = ui.chat_role_header("system");
    assert_eq!((h.text.as_str(), h.style), (" ●", fg_bold(MUTED)));
    let h = ui.chat_role_header("assistant");
    assert_eq!((h.text.as_str(), h.style), ("> 🥰", fg_bold(GREEN)));
    assert_eq!(ui.chat_status_text(true), " Teshi is thinking...");
    assert_eq!(ui.chat_status_text(false), "");
}

#[test]
fn agent_sidebar_fits_its_height() {
    let ui = AppUi::new();
    let lines = ui.agent_sidebar_lines(10);
    assert_eq!(
        texts(&lines),
        vec![("▸ ○ Default", fg_bold(UiColor::Yellow)), ("", plain()), (" 1 agent ", fg(MUTED))]
    );
    assert_eq!(ui.agent_sidebar_lines(1).len(), 1);
    assert!(ui.agent_sidebar_lines(0).is_empty());
}

#[test]
fn tabs_and_footer() {
    let ui = AppUi::new();
    assert_eq!(ui.tab_titles(), vec![" Explore [1] ", " MindMap [2] ", " AI [3] "]);
    let p = project();
    let statuses = ScenarioStatusMap::new();
    let mut s = state();
    s.active_tab = 1;
    assert_eq!(
        texts(&ui.footer_line(&s, &p, &statuses, None)),
        vec![
            ("─", fg(MUTED)),
            (" ", plain()),
            (" ↑↓ select ", fg(CYAN)),
            (" ←→ expand ", fg(CYAN)),
            (" Space toggle ", fg(CYAN))
        ]
    );
    s.active_tab = 0;
    let f = ui.footer_line(&s, &p, &statuses, Some("login".to_string()));
    assert_eq!(f.len(), 8);
    assert_eq!(f[2].text, " login  Successful login ");
    assert_eq!(f[7].text, " 0/2 passed, 0 failed ");
    s.active_tab = 7;
    assert_eq!(ui.footer_line(&s, &p, &statuses, None).len(), 2);
}

#[test]
fn highlighting_keeps_the_text_of_a_line() {
    let ui = AppUi::new();
    for line in [
        "Feature: Login",
        "  Scenario Outline: Many users",
        "    Given a user",
        "    But not this one",
        "  # a comment",
        "      | a | b |",
        "    \"\"\"",
        "plain text",
        "",
    ] {
        let mut doc = false;
        let mut last = None;
        let joined: String = ui
            .highlight_gherkin_line(line, &mut doc, &mut last)
            .into_iter()
            .map(|s| s.text)
            .collect();
        assert_eq!(joined, line);
    }
}

#[test]
fn chat_transcript_lists_messages_line_by_line() {
    let ui = AppUi::new();
    let empty = ui.chat_transcript(&vec![], false);
    assert_eq!(empty.len(), 2);
    assert_eq!(texts(&empty[0]), vec![("Welcome to AI Chat! Type a message below and press Enter.", plain())]);
    assert!(empty[1].is_empty());

    let msgs = vec![
        ("user".to_string(), "hi\nthere".to_string()),
        ("assistant".to_string(), "hello".to_string()),
    ];
    let t = ui.chat_transcript(&msgs, true);
    let got: Vec<Vec<(&str, TextStyle)>> = t.iter().map(|l| texts(l)).collect();
    assert_eq!(
        got,
        vec![
            vec![("▶ You", fg_bold(CYAN))],
            vec![("  ", plain()), ("hi", plain())],
            vec![("  ", plain()), ("there", plain())],
            vec![],
            vec![("> 🥰", fg_bold(GREEN))],
            vec![("  ", plain()), ("hello", plain())],
            vec![],
            vec![("> 🥰:", fg_bold(GREEN))],
            vec![("  Thinking...", fg(AMBER))],
            vec![],
        ]
    );
}

#[test]
fn preview_scrolls_to_centre_the_cursor() {
    let ui = AppUi::new();
    assert_eq!(ui.preview_scroll_row(3, 100, 10), 0);
    assert_eq!(ui.preview_scroll_row(50, 8, 10), 0);
    assert_eq!(ui.preview_scroll_row(20, 100, 10), 15);
    assert_eq!(ui.preview_scroll_row(98, 100, 10), 90);
}

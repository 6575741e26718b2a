use teshi::chat::simulate_chat_response;
use teshi::gherkin::{feature_stems, parse_feature, BddProject};

const LOGIN: &str = "\
@auth
Feature: User login
  Scenario: Successful login
    Given I am on the login page
  Scenario Outline: Failed login
    When I enter <user>
    Examples:
      | user |
      | bob  |
";

const CART: &str = "\
Feature: Cart
  Scenario: Add item
    Given an empty cart
";

fn project() -> BddProject {
    BddProject {
        root_dir: String::from("local"),
        features: vec![
            parse_feature(LOGIN, String::from("features/login.feature")),
            parse_feature(CART, String::from("cart.feature")),
        ],
    }
}

fn empty_project() -> BddProject {
    BddProject { root_dir: String::from("local"), features: vec![] }
}

fn names() -> Vec<String> {
    vec!["login".to_string(), "cart".to_string()]
}

const HELLO: &str = "Hello! I'm Teshi AI. I can help you analyze your Gherkin feature files, suggest test scenarios, and answer BDD questions. What would you like to know?";

#[test]
fn stems_are_file_names_without_extension() {
    assert_eq!(feature_stems(&project()), names());
}

#[test]
fn greeting_is_answered_case_insensitively() {
    let p = project();
    assert_eq!(simulate_chat_response("Hello there", &p, &names()), HELLO);
    assert_eq!(simulate_chat_response("HI", &p, &names()), HELLO);
    assert_eq!(simulate_chat_response("hi team", &p, &names()), HELLO);
}

#[test]
fn feature_question_summarises_features() {
    let p = project();
    let expected = "Your project has 2 feature file(s):\n  • login [@auth] — 2 scenarios\n  • cart — 1 scenarios\n\nPress Enter on a feature in the Explore tab to see its raw content. Switch to the MindMap tab (press 2) to see the step-sequence tree.";
    assert_eq!(simulate_chat_response("What features exist?", &p, &names()), expected);
}

#[test]
fn feature_question_without_features() {
    let p = empty_project();
    assert_eq!(
        simulate_chat_response("show the project", &p, &vec![]),
        "No features loaded yet. Go to the homepage and click 'Load Demo Data' to get started."
    );
}

#[test]
fn scenario_question_lists_scenarios() {
    let p = project();
    let expected = "Here are all scenarios across your project:\n  • [login] Successful login (Scenario)\n  • [login] Failed login (Outline)\n  • [cart] Add item (Scenario)\n\nUse ↑↓ in the Explore tab to browse them.";
    assert_eq!(simulate_chat_response("list scenarios", &p, &names()), expected);
}

#[test]
fn scenario_question_without_scenarios() {
    let p = empty_project();
    assert_eq!(
        simulate_chat_response("run the tests", &p, &vec![]),
        "No scenarios found. Load some feature files first."
    );
}

#[test]
fn step_question_explains_keywords() {
    let p = project();
    let reply = simulate_chat_response("Given?", &p, &names());
    assert!(reply.starts_with("Steps in Gherkin are organized with keywords"));
    assert!(reply.ends_with("see how steps flow across scenarios."));
}

#[test]
fn help_request_lists_shortcuts() {
    let p = project();
    let reply = simulate_chat_response("help me", &p, &names());
    assert!(reply.starts_with("**Keyboard shortcuts:**\n  • 1/2/3 — Switch tabs"));
    assert!(reply.ends_with("I can answer questions about your features!"));
}

#[test]
fn feature_name_is_matched() {
    let p = project();
    assert_eq!(
        simulate_chat_response("Cart", &p, &names()),
        "I found matching features:\n\n**cart**\n1 scenarios\n    • Add item"
    );
}

#[test]
fn several_feature_names_are_matched_in_order() {
    let p = project();
    assert_eq!(
        simulate_chat_response("login or cart", &p, &names()),
        "I found matching features:\n\n**login**\n2 scenarios\n    • Successful login\n    • Failed login\n\n**cart**\n1 scenarios\n    • Add item"
    );
}

#[test]
fn unknown_question_lists_feature_names() {
    let p = project();
    assert_eq!(
        simulate_chat_response("xyz", &p, &names()),
        "I'm not sure I understand. I can help with questions about your 2 feature file(s):\n  • login\n  • cart\n\nTry asking about a specific feature or type 'help' for keyboard shortcuts."
    );
}

//! Gherkin feature-file parsing, line diffs and step-reuse indexing, with
//! the decisions of the terminal explorer kept as plain state transitions.

pub mod text;
pub mod gherkin;
pub mod diff;
pub mod step_index;
pub mod storage;
pub mod numfmt;
pub mod chat;
pub mod llm;
pub mod explorer;
pub mod runner;
pub mod status;
pub mod ui;
pub mod panels;
pub mod site;

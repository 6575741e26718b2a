//! The decisions of the terminal explorer: what a key press, a mouse click
//! or a runner event does to the explorer's state, and which outside work
//! (runner commands, tree navigation, reloading) it asks for.

use vstd::prelude::*;
use crate::chat::{chat_reply, simulate_chat_response};
use crate::gherkin::{
    BddFeature, BddProject, BddScenario, FeatureView, ScenarioView, feature_views, parse_feature,
    parse_feature_spec,
};
use crate::text::lines_of;
use crate::numfmt::{decimal, decimal_string};
use crate::runner::RunnerEvent;
use crate::status::{ScenarioStatusMap, apply_marks};
use crate::text::{contains_str, contains_text, pop_char, push_char, push_str, strs};

verus! {

/// Which column of the Explore tab has the keyboard focus.
#[derive(Debug, Clone, Copy, PartialEq, Eq, Structural)]
pub enum ColumnFocus {
    Feature,
    Scenario,
    Step,
}

/// A clickable region registered during rendering for mouse hit-testing.
/// Stored in cell coordinates (col/row).
#[derive(Debug, Clone, Copy, PartialEq, Eq, Structural)]
pub enum ClickableRegion {
    Tab(usize),
    Tree,
    ExploreFeature { feature_idx: usize, row_y: u16, col_x: u16, col_right: u16 },
    ExploreScenario { scenario_idx: usize, row_y: u16, col_x: u16, col_right: u16 },
    ExploreStep { step_idx: usize, row_y: u16, col_x: u16, col_right: u16 },
}

/// The keys the explorer tells apart.
#[derive(Debug, Clone, Copy, PartialEq, Eq, Structural)]
pub enum KeyInput {
    Char(char),
    Tab,
    Left,
    Right,
    Up,
    Down,
    Enter,
    Backspace,
    Esc,
    Other,
}

/// A move in the MindMap tree.
#[derive(Debug, Clone, Copy, PartialEq, Eq, Structural)]
pub enum TreeMove {
    Up,
    Down,
    Left,
    Right,
    Toggle,
}

/// Outside work that a key press asks for.
#[derive(Debug, Clone, Copy, PartialEq, Eq, Structural)]
pub enum KeyEffect {
    Nothing,
    /// Send a ping to the Runner.
    PingRunner,
    /// Read the feature files again and rebuild the MindMap tree.
    ReloadFeatures,
    /// Simulate a test run over all scenarios.
    SimulateRun,
    /// Move in the MindMap tree, then follow its selection.
    Tree(TreeMove),
}

/// The explorer's state that is made of plain values.
#[derive(Debug, Clone)]
pub struct UiState {
    pub active_tab: usize,
    pub status: String,
    pub explore_focus: ColumnFocus,
    pub explore_selected_feature: usize,
    pub explore_selected_scenario: usize,
    pub explore_selected_step: usize,
    /// `(role, content)` pairs.
    pub chat_messages: Vec<(String, String)>,
    pub chat_input: String,
    pub chat_waiting: bool,
    pub show_raw_feature: bool,
    pub raw_feature_index: usize,
    /// Reply shown on the next frame, so that "Thinking..." is visible first.
    pub pending_chat_response: Option<String>,
    pub show_help: bool,
}

/// The explorer's state as plain values.
pub struct UiView {
    pub active_tab: nat,
    pub status: Seq<char>,
    pub explore_focus: ColumnFocus,
    pub selected_feature: nat,
    pub selected_scenario: nat,
    pub selected_step: nat,
    pub chat_messages: Seq<(Seq<char>, Seq<char>)>,
    pub chat_input: Seq<char>,
    pub chat_waiting: bool,
    pub show_raw_feature: bool,
    pub raw_feature_index: nat,
    pub pending_chat_response: Option<Seq<char>>,
    pub show_help: bool,
}

/// The texts of `(role, content)` pairs.
pub open spec fn message_views(v: Seq<(String, String)>) -> Seq<(Seq<char>, Seq<char>)> {
    Seq::new(v.len(), |i: int| (v[i].0@, v[i].1@))
}

/// The view of an optional string.
pub open spec fn opt_str(o: Option<String>) -> Option<Seq<char>> {
    match o {
        Some(s) => Some(s@),
        None => None,
    }
}

impl View for UiState {
    type V = UiView;

    open spec fn view(&self) -> UiView {
        UiView {
            active_tab: self.active_tab as nat,
            status: self.status@,
            explore_focus: self.explore_focus,
            selected_feature: self.explore_selected_feature as nat,
            selected_scenario: self.explore_selected_scenario as nat,
            selected_step: self.explore_selected_step as nat,
            chat_messages: message_views(self.chat_messages@),
            chat_input: self.chat_input@,
            chat_waiting: self.chat_waiting,
            show_raw_feature: self.show_raw_feature,
            raw_feature_index: self.raw_feature_index as nat,
            pending_chat_response: opt_str(self.pending_chat_response),
            show_help: self.show_help,
        }
    }
}

/// The assistant's greeting that opens the chat.
pub open spec fn welcome_message() -> Seq<char> {
    "Welcome to Teshi AI! I can help you analyze your Gherkin feature files, generate test scenarios, and answer questions about BDD. Try asking something about your features."@
}

/// The explorer's state at start-up.
pub open spec fn initial_view() -> UiView {
    UiView {
        active_tab: 0,
        status: "Ready"@,
        explore_focus: ColumnFocus::Feature,
        selected_feature: 0,
        selected_scenario: 0,
        selected_step: 0,
        chat_messages: seq![("system"@, welcome_message())],
        chat_input: seq![],
        chat_waiting: false,
        show_raw_feature: false,
        raw_feature_index: 0,
        pending_chat_response: None,
        show_help: false,
    }
}

impl UiState {
    /// The state at start-up: the Explore tab, nothing selected beyond the
    /// first items, and the chat opened by a greeting.
    pub fn new() -> (s: Self)
        ensures
            s@ == initial_view(),
    {
        let mut chat_messages: Vec<(String, String)> = Vec::new();
        chat_messages.push((
            String::from_str("system"),
            String::from_str(
                "Welcome to Teshi AI! I can help you analyze your Gherkin feature files, generate test scenarios, and answer questions about BDD. Try asking something about your features.",
            ),
        ));
        let s = UiState {
            active_tab: 0,
            status: String::from_str("Ready"),
            explore_focus: ColumnFocus::Feature,
            explore_selected_feature: 0,
            explore_selected_scenario: 0,
            explore_selected_step: 0,
            chat_messages,
            chat_input: String::new(),
            chat_waiting: false,
            show_raw_feature: false,
            raw_feature_index: 0,
            pending_chat_response: None,
            show_help: false,
        };
        assert(s@.chat_messages =~= seq![("system"@, welcome_message())]);
        assert(s@.chat_input =~= Seq::<char>::empty());
        s
    }
}

/// The regions of the three tabs, registered with each frame.
pub fn tab_regions() -> (v: Vec<ClickableRegion>)
    ensures
        v@ == seq![ClickableRegion::Tab(0), ClickableRegion::Tab(1), ClickableRegion::Tab(2)],
        tabs_in_range(v@),
{
    let mut v: Vec<ClickableRegion> = Vec::new();
    v.push(ClickableRegion::Tab(0));
    v.push(ClickableRegion::Tab(1));
    v.push(ClickableRegion::Tab(2));
    assert(v@ =~= seq![ClickableRegion::Tab(0), ClickableRegion::Tab(1), ClickableRegion::Tab(2)]);
    v
}

// ── The selection and reloading ─────────────────────────────────────────────

impl UiState {
    /// The index of the selected feature.
    pub fn selected_feature_index(&self) -> (i: usize)
        ensures
            i == self.explore_selected_feature,
    {
        self.explore_selected_feature
    }

    /// The index of the selected scenario.
    pub fn selected_scenario_index(&self) -> (i: usize)
        ensures
            i == self.explore_selected_scenario,
    {
        self.explore_selected_scenario
    }

    /// The selected feature of `project`, if the selection names one.
    pub fn selected_feature<'a>(&self, project: &'a BddProject) -> (f: Option<&'a BddFeature>)
        ensures
            match f {
                Some(x) => self.explore_selected_feature < project.features.len()
                    && *x == project.features@[self.explore_selected_feature as int],
                None => self.explore_selected_feature >= project.features.len(),
            },
    {
        if self.explore_selected_feature < project.features.len() {
            Some(&project.features[self.explore_selected_feature])
        } else {
            None
        }
    }

    /// The selected scenario of the selected feature, if both exist.
    pub fn selected_scenario<'a>(&self, project: &'a BddProject) -> (sc: Option<&'a BddScenario>)
        ensures
            match sc {
                Some(x) => self.explore_selected_feature < project.features.len()
                    && self.explore_selected_scenario
                    < project.features@[self.explore_selected_feature as int].scenarios.len()
                    && *x == project.features@[self.explore_selected_feature as int].scenarios@[
                    self.explore_selected_scenario as int],
                None => !(self.explore_selected_feature < project.features.len()
                    && self.explore_selected_scenario
                    < project.features@[self.explore_selected_feature as int].scenarios.len()),
            },
    {
        match self.selected_feature(project) {
            Some(f) => {
                if self.explore_selected_scenario < f.scenarios.len() {
                    Some(&f.scenarios[self.explore_selected_scenario])
                } else {
                    None
                }
            },
            None => None,
        }
    }
}

/// Rebuilds the project from the stored feature files, given as
/// `(name, content)` pairs in the order they were listed: each is parsed,
/// with its name as its path, under the root `local`.  The selection goes
/// back to the first item and the raw view is closed.
pub fn reload_features(state: &mut UiState, files: &Vec<(String, String)>) -> (project: BddProject)
    ensures
        feature_views(project.features@) == Seq::new(
            files@.len(),
            |i: int| parse_feature_spec(lines_of(files@[i].1@)),
        ),
        forall|i: int| 0 <= i < files@.len() ==> #[trigger] project.features@[i].file_path@ == files@[i].0@,
        project.root_dir@ == "local"@,
        final(state)@ == (UiView {
            selected_feature: 0,
            selected_scenario: 0,
            selected_step: 0,
            show_raw_feature: false,
            ..old(state)@
        }),
{
    let mut features: Vec<BddFeature> = Vec::new();
    let mut i: usize = 0;
    while i < files.len()
        invariant
            i <= files.len(),
            features@.len() == i,
            feature_views(features@) == Seq::new(
                i as nat,
                |k: int| parse_feature_spec(lines_of(files@[k].1@)),
            ),
            forall|k: int| 0 <= k < i ==> #[trigger] features@[k].file_path@ == files@[k].0@,
        decreases files.len() - i,
    {
        let path = files[i].0.clone();
        let f = parse_feature(files[i].1.as_str(), path);
        let ghost before = features@;
        assert(f@ == parse_feature_spec(lines_of(files@[i as int].1@)));
        features.push(f);
        proof {
            let want = Seq::new((i + 1) as nat, |k: int| parse_feature_spec(lines_of(files@[k].1@)));
            assert forall|k: int| 0 <= k < i + 1 implies #[trigger] feature_views(features@)[k] == want[k] by {
                if k < i {
                    assert(features@[k] == before[k]);
                    assert(feature_views(before)[k] == want[k]);
                }
            }
            assert(feature_views(features@) =~= want);
        }
        i += 1;
    }
    state.explore_selected_feature = 0;
    state.explore_selected_scenario = 0;
    state.explore_selected_step = 0;
    state.show_raw_feature = false;
    BddProject { root_dir: String::from_str("local"), features }
}

// ── Counts of the selection ──────────────────────────────────────────────────

/// The number of scenarios of feature `fi` (0 when there is no such feature).
pub open spec fn scenario_count(fs: Seq<FeatureView>, fi: nat) -> nat {
    if fi < fs.len() {
        fs[fi as int].scenarios.len()
    } else {
        0
    }
}

/// The number of background steps of feature `fi` plus the number of steps
/// of its scenario `si` (0 for what does not exist).
pub open spec fn step_or_bg_count(fs: Seq<FeatureView>, fi: nat, si: nat) -> nat {
    if fi < fs.len() {
        let f = fs[fi as int];
        let bg = match f.background {
            Some(b) => b.steps.len(),
            None => 0,
        };
        let sc = if si < f.scenarios.len() {
            f.scenarios[si as int].steps.len()
        } else {
            0
        };
        bg + sc
    } else {
        0
    }
}

/// The selection after a step down in a list of `n` items: clamped to the
/// last item, then moved down by one when not already on the last item.
pub open spec fn step_down(sel: nat, n: nat) -> nat {
    let max: nat = if n > 0 { (n - 1) as nat } else { 0 };
    let s = if sel < max { sel } else { max };
    if s < max {
        s + 1
    } else {
        s
    }
}

/// The selection after a step up: one less, but not below zero.
pub open spec fn step_up(sel: nat) -> nat {
    if sel > 0 {
        (sel - 1) as nat
    } else {
        0
    }
}

// ── Key presses ──────────────────────────────────────────────────────────────

/// The state after the feature files were reloaded: selection reset, raw
/// view closed, status telling so.
pub open spec fn reloaded(s: UiView) -> UiView {
    UiView {
        selected_feature: 0,
        selected_scenario: 0,
        selected_step: 0,
        show_raw_feature: false,
        status: "Features reloaded."@,
        ..s
    }
}

/// The state after sending the chat input: the input is cleared; a non-empty
/// message is added with a "Thinking..." reply placeholder, and the real
/// reply waits for the next frame.
pub open spec fn send_chat(s: UiView, fs: Seq<FeatureView>, names: Seq<Seq<char>>) -> UiView {
    let msg = s.chat_input;
    if msg.len() == 0 {
        UiView { chat_input: seq![], ..s }
    } else {
        UiView {
            chat_input: seq![],
            chat_messages: s.chat_messages.push(("user"@, msg)).push(("assistant"@, "Thinking..."@)),
            chat_waiting: true,
            status: "Thinking..."@,
            pending_chat_response: Some(chat_reply(msg, fs, names)),
            ..s
        }
    }
}

/// The focus after Tab: Feature, Scenario, Step, then Feature again.
pub open spec fn focus_next(f: ColumnFocus) -> ColumnFocus {
    match f {
        ColumnFocus::Feature => ColumnFocus::Scenario,
        ColumnFocus::Scenario => ColumnFocus::Step,
        ColumnFocus::Step => ColumnFocus::Feature,
    }
}

/// The focus after Left.
pub open spec fn focus_left(f: ColumnFocus) -> ColumnFocus {
    match f {
        ColumnFocus::Scenario => ColumnFocus::Feature,
        ColumnFocus::Step => ColumnFocus::Scenario,
        ColumnFocus::Feature => ColumnFocus::Feature,
    }
}

/// The focus after Right.
pub open spec fn focus_right(f: ColumnFocus) -> ColumnFocus {
    match f {
        ColumnFocus::Feature => ColumnFocus::Scenario,
        ColumnFocus::Scenario => ColumnFocus::Step,
        ColumnFocus::Step => ColumnFocus::Step,
    }
}

/// The state after Up in the Explore tab: the focused column's selection
/// moves up.
pub open spec fn explore_up(s: UiView) -> UiView {
    match s.explore_focus {
        ColumnFocus::Feature => UiView { selected_feature: step_up(s.selected_feature), ..s },
        ColumnFocus::Scenario => UiView { selected_scenario: step_up(s.selected_scenario), ..s },
        ColumnFocus::Step => UiView { selected_step: step_up(s.selected_step), ..s },
    }
}

/// The state after Down in the Explore tab: the focused column's selection
/// moves down within its list.
pub open spec fn explore_down(s: UiView, fs: Seq<FeatureView>) -> UiView {
    match s.explore_focus {
        ColumnFocus::Feature => UiView { selected_feature: step_down(s.selected_feature, fs.len()), ..s },
        ColumnFocus::Scenario => UiView {
            selected_scenario: step_down(s.selected_scenario, scenario_count(fs, s.selected_feature)),
            ..s
        },
        ColumnFocus::Step => UiView {
            selected_step: step_down(
                s.selected_step,
                step_or_bg_count(fs, s.selected_feature, s.selected_scenario),
            ),
            ..s
        },
    }
}

/// What a key press does: the new state, whether the key was handled, and
/// the outside work it asks for.
pub open spec fn key_step(s: UiView, fs: Seq<FeatureView>, names: Seq<Seq<char>>, code: KeyInput) -> (
    UiView,
    bool,
    KeyEffect,
) {
    let tab = s.active_tab;
    match code {
        KeyInput::Char(c) => {
            if c == '1' {
                (UiView { active_tab: 0, ..s }, true, KeyEffect::Nothing)
            } else if c == '2' {
                (UiView { active_tab: 1, ..s }, true, KeyEffect::Nothing)
            } else if c == '3' {
                (UiView { active_tab: 2, ..s }, true, KeyEffect::Nothing)
            } else if c == 'r' {
                (UiView { status: "Ping sent..."@, ..s }, true, KeyEffect::PingRunner)
            } else if c == 'R' {
                (reloaded(s), true, KeyEffect::ReloadFeatures)
            } else if c == 't' {
                (s, true, KeyEffect::SimulateRun)
            } else if c == ' ' && tab == 1 {
                (s, true, KeyEffect::Tree(TreeMove::Toggle))
            } else if tab == 2 && !s.chat_waiting {
                if c == '\n' {
                    (send_chat(s, fs, names), true, KeyEffect::Nothing)
                } else {
                    (UiView { chat_input: s.chat_input.push(c), ..s }, true, KeyEffect::Nothing)
                }
            } else if c == '?' {
                (UiView { show_help: !s.show_help, ..s }, true, KeyEffect::Nothing)
            } else {
                (s, false, KeyEffect::Nothing)
            }
        },
        KeyInput::Tab => {
            if tab == 0 {
                (UiView { explore_focus: focus_next(s.explore_focus), ..s }, true, KeyEffect::Nothing)
            } else {
                (s, false, KeyEffect::Nothing)
            }
        },
        KeyInput::Left => {
            if tab == 0 {
                (UiView { explore_focus: focus_left(s.explore_focus), ..s }, true, KeyEffect::Nothing)
            } else if tab == 1 {
                (s, true, KeyEffect::Tree(TreeMove::Left))
            } else {
                (s, false, KeyEffect::Nothing)
            }
        },
        KeyInput::Right => {
            if tab == 0 {
                (UiView { explore_focus: focus_right(s.explore_focus), ..s }, true, KeyEffect::Nothing)
            } else if tab == 1 {
                (s, true, KeyEffect::Tree(TreeMove::Right))
            } else {
                (s, false, KeyEffect::Nothing)
            }
        },
        KeyInput::Up => {
            if tab == 0 {
                (explore_up(s), true, KeyEffect::Nothing)
            } else if tab == 1 {
                (s, true, KeyEffect::Tree(TreeMove::Up))
            } else {
                (s, false, KeyEffect::Nothing)
            }
        },
        KeyInput::Down => {
            if tab == 0 {
                (explore_down(s, fs), true, KeyEffect::Nothing)
            } else if tab == 1 {
                (s, true, KeyEffect::Tree(TreeMove::Down))
            } else {
                (s, false, KeyEffect::Nothing)
            }
        },
        KeyInput::Enter => {
            if tab == 0 && s.explore_focus == ColumnFocus::Feature {
                (
                    UiView {
                        show_raw_feature: !s.show_raw_feature,
                        raw_feature_index: s.selected_feature,
                        ..s
                    },
                    true,
                    KeyEffect::Nothing,
                )
            } else if tab == 0 {
                (UiView { show_raw_feature: false, ..s }, true, KeyEffect::Nothing)
            } else if tab == 1 {
                (s, true, KeyEffect::Tree(TreeMove::Toggle))
            } else if tab == 2 && !s.chat_waiting {
                (send_chat(s, fs, names), true, KeyEffect::Nothing)
            } else {
                (s, false, KeyEffect::Nothing)
            }
        },
        KeyInput::Backspace => {
            if tab == 0 && s.show_raw_feature {
                (UiView { show_raw_feature: false, ..s }, true, KeyEffect::Nothing)
            } else if tab == 2 {
                (
                    UiView {
                        chat_input: if s.chat_input.len() > 0 {
                            s.chat_input.drop_last()
                        } else {
                            s.chat_input
                        },
                        ..s
                    },
                    true,
                    KeyEffect::Nothing,
                )
            } else {
                (s, false, KeyEffect::Nothing)
            }
        },
        KeyInput::Esc => {
            if s.show_help {
                (UiView { show_help: false, ..s }, true, KeyEffect::Nothing)
            } else {
                (s, false, KeyEffect::Nothing)
            }
        },
        KeyInput::Other => (s, false, KeyEffect::Nothing),
    }
}


/// The number of background steps of feature `fi` plus the steps of its
/// scenario `si`.
fn feature_step_or_bg_count(project: &BddProject, fi: usize, si: usize) -> (n: usize)
    requires
        step_or_bg_count(feature_views(project.features@), fi as nat, si as nat) <= usize::MAX,
    ensures
        n == step_or_bg_count(feature_views(project.features@), fi as nat, si as nat),
{
    if fi < project.features.len() {
        let f = &project.features[fi];
        let bg = match &f.background {
            Some(b) => b.steps.len(),
            None => 0,
        };
        let sc = if si < f.scenarios.len() {
            f.scenarios[si].steps.len()
        } else {
            0
        };
        bg + sc
    } else {
        0
    }
}

/// One step down in a list of `n` items.
fn down_in(sel: usize, n: usize) -> (r: usize)
    ensures
        r == step_down(sel as nat, n as nat),
{
    let max = n.saturating_sub(1);
    let s = if sel < max { sel } else { max };
    if s < max {
        s + 1
    } else {
        s
    }
}

/// Sends the chat input: see `send_chat`.
fn send_chat_input(state: &mut UiState, project: &BddProject, names: &Vec<String>)
    requires
        names.len() == project.features.len(),
    ensures
        final(state)@ == send_chat(old(state)@, feature_views(project.features@), strs(names@)),
{
    let msg = state.chat_input.clone();
    state.chat_input = String::new();
    if !msg.as_str().is_empty() {
        let ghost before = message_views(state.chat_messages@);
        state.chat_messages.push((String::from_str("user"), msg.clone()));
        state.chat_waiting = true;
        state.chat_messages.push((String::from_str("assistant"), String::from_str("Thinking...")));
        state.status = String::from_str("Thinking...");
        let reply = simulate_chat_response(msg.as_str(), project, names);
        state.pending_chat_response = Some(reply);
        assert(message_views(state.chat_messages@) =~= before.push(("user"@, msg@)).push(
            ("assistant"@, "Thinking..."@),
        ));
    }
    assert(state@.chat_input =~= Seq::<char>::empty());
}

/// Handles a key press: updates the state and returns whether the key was
/// handled and the outside work it asks for.  `names[i]` is the display name
/// of feature `i`.
pub fn handle_key(state: &mut UiState, project: &BddProject, names: &Vec<String>, code: KeyInput) -> (r: (bool, KeyEffect))
    requires
        names.len() == project.features.len(),
        step_or_bg_count(
            feature_views(project.features@),
            old(state).explore_selected_feature as nat,
            old(state).explore_selected_scenario as nat,
        ) <= usize::MAX,
    ensures
        (final(state)@, r.0, r.1) == key_step(
            old(state)@,
            feature_views(project.features@),
            strs(names@),
            code,
        ),
{
    let tab = state.active_tab;
    match code {
        KeyInput::Char(c) => {
            if c == '1' {
                state.active_tab = 0;
                (true, KeyEffect::Nothing)
            } else if c == '2' {
                state.active_tab = 1;
                (true, KeyEffect::Nothing)
            } else if c == '3' {
                state.active_tab = 2;
                (true, KeyEffect::Nothing)
            } else if c == 'r' {
                state.status = String::from_str("Ping sent...");
                (true, KeyEffect::PingRunner)
            } else if c == 'R' {
                state.explore_selected_feature = 0;
                state.explore_selected_scenario = 0;
                state.explore_selected_step = 0;
                state.show_raw_feature = false;
                state.status = String::from_str("Features reloaded.");
                (true, KeyEffect::ReloadFeatures)
            } else if c == 't' {
                (true, KeyEffect::SimulateRun)
            } else if c == ' ' && tab == 1 {
                (true, KeyEffect::Tree(TreeMove::Toggle))
            } else if tab == 2 && !state.chat_waiting {
                if c == '\n' {
                    send_chat_input(state, project, names);
                } else {
                    push_char(&mut state.chat_input, c);
                }
                (true, KeyEffect::Nothing)
            } else if c == '?' {
                state.show_help = !state.show_help;
                (true, KeyEffect::Nothing)
            } else {
                (false, KeyEffect::Nothing)
            }
        },
        KeyInput::Tab => {
            if tab == 0 {
                state.explore_focus = match state.explore_focus {
                    ColumnFocus::Feature => ColumnFocus::Scenario,
                    ColumnFocus::Scenario => ColumnFocus::Step,
                    ColumnFocus::Step => ColumnFocus::Feature,
                };
                (true, KeyEffect::Nothing)
            } else {
                (false, KeyEffect::Nothing)
            }
        },
        KeyInput::Left => {
            if tab == 0 {
                state.explore_focus = match state.explore_focus {
                    ColumnFocus::Scenario => ColumnFocus::Feature,
                    ColumnFocus::Step => ColumnFocus::Scenario,
                    _ => ColumnFocus::Feature,
                };
                (true, KeyEffect::Nothing)
            } else if tab == 1 {
                (true, KeyEffect::Tree(TreeMove::Left))
            } else {
                (false, KeyEffect::Nothing)
            }
        },
        KeyInput::Right => {
            if tab == 0 {
                state.explore_focus = match state.explore_focus {
                    ColumnFocus::Feature => ColumnFocus::Scenario,
                    ColumnFocus::Scenario => ColumnFocus::Step,
                    _ => ColumnFocus::Step,
                };
                (true, KeyEffect::Nothing)
            } else if tab == 1 {
                (true, KeyEffect::Tree(TreeMove::Right))
            } else {
                (false, KeyEffect::Nothing)
            }
        },
        KeyInput::Up => {
            if tab == 0 {
                match state.explore_focus {
                    ColumnFocus::Feature => {
                        state.explore_selected_feature = state.explore_selected_feature.saturating_sub(1);
                    },
                    ColumnFocus::Scenario => {
                        state.explore_selected_scenario = state.explore_selected_scenario.saturating_sub(1);
                    },
                    ColumnFocus::Step => {
                        state.explore_selected_step = state.explore_selected_step.saturating_sub(1);
                    },
                }
                (true, KeyEffect::Nothing)
            } else if tab == 1 {
                (true, KeyEffect::Tree(TreeMove::Up))
            } else {
                (false, KeyEffect::Nothing)
            }
        },
        KeyInput::Down => {
            if tab == 0 {
                match state.explore_focus {
                    ColumnFocus::Feature => {
                        state.explore_selected_feature = down_in(
                            state.explore_selected_feature,
                            project.features.len(),
                        );
                    },
                    ColumnFocus::Scenario => {
                        let fi = state.explore_selected_feature;
                        let n = if fi < project.features.len() {
                            project.features[fi].scenarios.len()
                        } else {
                            0
                        };
                        state.explore_selected_scenario = down_in(state.explore_selected_scenario, n);
                    },
                    ColumnFocus::Step => {
                        let n = feature_step_or_bg_count(
                            project,
                            state.explore_selected_feature,
                            state.explore_selected_scenario,
                        );
                        state.explore_selected_step = down_in(state.explore_selected_step, n);
                    },
                }
                (true, KeyEffect::Nothing)
            } else if tab == 1 {
                (true, KeyEffect::Tree(TreeMove::Down))
            } else {
                (false, KeyEffect::Nothing)
            }
        },
        KeyInput::Enter => {
            if tab == 0 && state.explore_focus == ColumnFocus::Feature {
                state.show_raw_feature = !state.show_raw_feature;
                state.raw_feature_index = state.explore_selected_feature;
                (true, KeyEffect::Nothing)
            } else if tab == 0 {
                state.show_raw_feature = false;
                (true, KeyEffect::Nothing)
            } else if tab == 1 {
                (true, KeyEffect::Tree(TreeMove::Toggle))
            } else if tab == 2 && !state.chat_waiting {
                send_chat_input(state, project, names);
                (true, KeyEffect::Nothing)
            } else {
                (false, KeyEffect::Nothing)
            }
        },
        KeyInput::Backspace => {
            if tab == 0 && state.show_raw_feature {
                state.show_raw_feature = false;
                (true, KeyEffect::Nothing)
            } else if tab == 2 {
                pop_char(&mut state.chat_input);
                (true, KeyEffect::Nothing)
            } else {
                (false, KeyEffect::Nothing)
            }
        },
        KeyInput::Esc => {
            if state.show_help {
                state.show_help = false;
                (true, KeyEffect::Nothing)
            } else {
                (false, KeyEffect::Nothing)
            }
        },
        KeyInput::Other => (false, KeyEffect::Nothing),
    }
}


// ── Mouse clicks ─────────────────────────────────────────────────────────────

/// A rectangle of terminal cells.
#[derive(Debug, Clone, Copy, PartialEq, Eq, Structural)]
pub struct CellRect {
    pub x: u16,
    pub y: u16,
    pub width: u16,
    pub height: u16,
}

impl CellRect {
    /// The column just right of the rectangle (saturating at `u16::MAX`).
    pub open spec fn right_spec(self) -> u16 {
        if self.x + self.width > u16::MAX {
            u16::MAX
        } else {
            (self.x + self.width) as u16
        }
    }

    /// The row just below the rectangle (saturating at `u16::MAX`).
    pub open spec fn bottom_spec(self) -> u16 {
        if self.y + self.height > u16::MAX {
            u16::MAX
        } else {
            (self.y + self.height) as u16
        }
    }

    /// The column just right of the rectangle.
    pub fn right(&self) -> (r: u16)
        ensures
            r == self.right_spec(),
    {
        self.x.saturating_add(self.width)
    }

    /// The row just below the rectangle.
    pub fn bottom(&self) -> (r: u16)
        ensures
            r == self.bottom_spec(),
    {
        self.y.saturating_add(self.height)
    }
}

/// Outside work that a mouse click asks for.
#[derive(Debug, Clone, Copy, PartialEq, Eq, Structural)]
pub enum MouseEffect {
    Nothing,
    /// Click the MindMap tree at a cell, then follow its selection.
    TreeClick { col: u16, row: u16 },
}

/// The first column of the label of tab `i` in the tab bar.
pub open spec fn tab_start(i: nat) -> u16 {
    if i == 0 {
        0
    } else if i == 1 {
        15
    } else {
        30
    }
}

/// The column just right of the label of tab `i`.
pub open spec fn tab_end(i: nat) -> u16 {
    if i == 0 {
        14
    } else if i == 1 {
        29
    } else {
        39
    }
}

/// Whether a click at `(col, row)` falls in a region.
pub open spec fn region_hit(r: ClickableRegion, col: u16, row: u16, tab: nat, tree: Option<CellRect>) -> bool {
    match r {
        ClickableRegion::Tab(i) => row == 0 && col >= tab_start(i as nat) && col < tab_end(i as nat),
        ClickableRegion::Tree => tab == 1 && match tree {
            Some(rect) => col >= rect.x && col < rect.right_spec() && row >= rect.y && row
                < rect.bottom_spec(),
            None => false,
        },
        ClickableRegion::ExploreFeature { feature_idx, row_y, col_x, col_right } => row == row_y
            && col >= col_x && col < col_right,
        ClickableRegion::ExploreScenario { scenario_idx, row_y, col_x, col_right } => row == row_y
            && col >= col_x && col < col_right,
        ClickableRegion::ExploreStep { step_idx, row_y, col_x, col_right } => row == row_y && col
            >= col_x && col < col_right,
    }
}

/// The first region at or after `k` that a click falls in.
pub open spec fn first_hit(rs: Seq<ClickableRegion>, k: nat, col: u16, row: u16, tab: nat, tree: Option<CellRect>) -> Option<nat>
    decreases rs.len() - k,
{
    if k >= rs.len() {
        None
    } else if region_hit(rs[k as int], col, row, tab, tree) {
        Some(k)
    } else {
        first_hit(rs, k + 1, col, row, tab, tree)
    }
}

/// Every tab region names one of the three tabs.
pub open spec fn tabs_in_range(rs: Seq<ClickableRegion>) -> bool {
    forall|k: int| 0 <= k < rs.len() ==> (#[trigger] rs[k] matches ClickableRegion::Tab(i) ==> i < 3)
}

/// What clicking a region does.
pub open spec fn click_region(s: UiView, r: ClickableRegion, col: u16, row: u16) -> (UiView, MouseEffect) {
    match r {
        ClickableRegion::Tab(i) => (UiView { active_tab: i as nat, ..s }, MouseEffect::Nothing),
        ClickableRegion::Tree => (s, MouseEffect::TreeClick { col, row }),
        ClickableRegion::ExploreFeature { feature_idx, .. } => (
            UiView {
                selected_feature: feature_idx as nat,
                explore_focus: ColumnFocus::Feature,
                selected_scenario: 0,
                selected_step: 0,
                ..s
            },
            MouseEffect::Nothing,
        ),
        ClickableRegion::ExploreScenario { scenario_idx, .. } => (
            UiView {
                selected_scenario: scenario_idx as nat,
                explore_focus: ColumnFocus::Scenario,
                selected_step: 0,
                ..s
            },
            MouseEffect::Nothing,
        ),
        ClickableRegion::ExploreStep { step_idx, .. } => (
            UiView { selected_step: step_idx as nat, explore_focus: ColumnFocus::Step, ..s },
            MouseEffect::Nothing,
        ),
    }
}

/// What a mouse event does: only a left-button press at a known cell acts,
/// on the first region registered there.
pub open spec fn mouse_step(
    s: UiView,
    rs: Seq<ClickableRegion>,
    tree: Option<CellRect>,
    pressed_left: bool,
    col: Option<u16>,
    row: Option<u16>,
) -> (UiView, MouseEffect) {
    if !pressed_left {
        (s, MouseEffect::Nothing)
    } else {
        match (col, row) {
            (Some(c), Some(r)) => match first_hit(rs, 0, c, r, s.active_tab, tree) {
                Some(k) => click_region(s, rs[k as int], c, r),
                None => (s, MouseEffect::Nothing),
            },
            _ => (s, MouseEffect::Nothing),
        }
    }
}

fn tab_start_col(i: usize) -> (c: u16)
    requires
        i < 3,
    ensures
        c == tab_start(i as nat),
{
    if i == 0 {
        0
    } else if i == 1 {
        15
    } else {
        30
    }
}

fn tab_end_col(i: usize) -> (c: u16)
    requires
        i < 3,
    ensures
        c == tab_end(i as nat),
{
    if i == 0 {
        14
    } else if i == 1 {
        29
    } else {
        39
    }
}

/// Handles a mouse event, given whether it is a left-button press and the
/// terminal cell under the pointer (if it is known), against the regions
/// registered during the last render.
pub fn handle_mouse(
    state: &mut UiState,
    regions: &Vec<ClickableRegion>,
    tree_panel_rect: Option<CellRect>,
    pressed_left: bool,
    col: Option<u16>,
    row: Option<u16>,
) -> (effect: MouseEffect)
    requires
        pressed_left && row == Some(0u16) ==> tabs_in_range(regions@),
    ensures
        (final(state)@, effect) == mouse_step(
            old(state)@,
            regions@,
            tree_panel_rect,
            pressed_left,
            col,
            row,
        ),
{
    if !pressed_left {
        return MouseEffect::Nothing;
    }
    let (c, r) = match (col, row) {
        (Some(c), Some(r)) => (c, r),
        _ => return MouseEffect::Nothing,
    };
    let ghost rs = regions@;
    let ghost tab = state.active_tab as nat;
    let mut k: usize = 0;
    while k < regions.len()
        invariant
            k <= regions.len(),
            rs == regions@,
            tab == state.active_tab as nat,
            row == Some(r),
            col == Some(c),
            pressed_left,
            r == 0 ==> tabs_in_range(rs),
            first_hit(rs, k as nat, c, r, tab, tree_panel_rect) == first_hit(rs, 0, c, r, tab, tree_panel_rect),
            state@ == old(state)@,
        decreases regions.len() - k,
    {
        let reg = regions[k];
        assert(reg == rs[k as int]);
        match reg {
            ClickableRegion::Tab(tab_idx) => {
                assert(tab_idx < 3 || r != 0);
                if r == 0 && c >= tab_start_col(tab_idx) && c < tab_end_col(tab_idx) {
                    assert(region_hit(rs[k as int], c, r, tab, tree_panel_rect));
                    state.active_tab = tab_idx;
                    return MouseEffect::Nothing;
                }
            },
            ClickableRegion::Tree => {
                if state.active_tab == 1 {
                    if let Some(rect) = tree_panel_rect {
                        if c >= rect.x && c < rect.right() && r >= rect.y && r < rect.bottom() {
                            assert(region_hit(rs[k as int], c, r, tab, tree_panel_rect));
                            return MouseEffect::TreeClick { col: c, row: r };
                        }
                    }
                }
            },
            ClickableRegion::ExploreFeature { feature_idx, row_y, col_x, col_right } => {
                if r == row_y && c >= col_x && c < col_right {
                    assert(region_hit(rs[k as int], c, r, tab, tree_panel_rect));
                    state.explore_selected_feature = feature_idx;
                    state.explore_focus = ColumnFocus::Feature;
                    state.explore_selected_scenario = 0;
                    state.explore_selected_step = 0;
                    return MouseEffect::Nothing;
                }
            },
            ClickableRegion::ExploreScenario { scenario_idx, row_y, col_x, col_right } => {
                if r == row_y && c >= col_x && c < col_right {
                    state.explore_selected_scenario = scenario_idx;
                    state.explore_focus = ColumnFocus::Scenario;
                    state.explore_selected_step = 0;
                    return MouseEffect::Nothing;
                }
            },
            ClickableRegion::ExploreStep { step_idx, row_y, col_x, col_right } => {
                if r == row_y && c >= col_x && c < col_right {
                    state.explore_selected_step = step_idx;
                    state.explore_focus = ColumnFocus::Step;
                    return MouseEffect::Nothing;
                }
            },
        }
        k += 1;
    }
    MouseEffect::Nothing
}


// ── Runner events ────────────────────────────────────────────────────────────

/// A run status to record for scenario `scenario_idx` of feature `feature_idx`.
#[derive(Debug, Clone)]
pub struct ScenarioMark {
    pub feature_idx: usize,
    pub scenario_idx: usize,
    pub status: String,
}

/// Marks as plain values.
pub open spec fn mark_views(v: Seq<ScenarioMark>) -> Seq<(nat, nat, Seq<char>)> {
    Seq::new(v.len(), |i: int| (v[i].feature_idx as nat, v[i].scenario_idx as nat, v[i].status@))
}

/// The state once a pending reply is shown: it replaces the last message
/// (the "Thinking..." placeholder), waiting ends and the status is "Ready".
pub open spec fn finish_pending(s: UiView) -> UiView {
    match s.pending_chat_response {
        Some(resp) => UiView {
            pending_chat_response: None,
            chat_messages: (if s.chat_messages.len() > 0 {
                s.chat_messages.drop_last()
            } else {
                s.chat_messages
            }).push(("assistant"@, resp)),
            chat_waiting: false,
            status: "Ready"@,
            ..s
        },
        None => s,
    }
}

/// Whether a scenario name answers to the name a Runner reports: equal to
/// it, or containing it.
pub open spec fn scenario_answers(sc_name: Seq<char>, name: Seq<char>) -> bool {
    sc_name == name || contains_text(sc_name, name)
}

/// The first scenario at or after `k` in a list that answers to `name`.
pub open spec fn first_scenario_from(scs: Seq<ScenarioView>, name: Seq<char>, k: nat) -> Option<nat>
    decreases scs.len() - k,
{
    if k >= scs.len() {
        None
    } else if scenario_answers(scs[k as int].name, name) {
        Some(k)
    } else {
        first_scenario_from(scs, name, k + 1)
    }
}

/// The first scenario, in project order from feature `fi` on, that answers
/// to `name`.
pub open spec fn find_scenario(fs: Seq<FeatureView>, name: Seq<char>, fi: nat) -> Option<(nat, nat)>
    decreases fs.len() - fi,
{
    if fi >= fs.len() {
        None
    } else {
        match first_scenario_from(fs[fi as int].scenarios, name, 0) {
            Some(si) => Some((fi, si)),
            None => find_scenario(fs, name, fi + 1),
        }
    }
}

/// The mark for the scenario answering to `name`, if there is one.
pub open spec fn mark_for(fs: Seq<FeatureView>, name: Seq<char>, status: Seq<char>) -> Seq<(nat, nat, Seq<char>)> {
    match find_scenario(fs, name, 0) {
        Some(p) => seq![(p.0, p.1, status)],
        None => seq![],
    }
}

/// What one Runner event does: the new status line and the marks to record.
pub open spec fn event_step(s: UiView, fs: Seq<FeatureView>, e: RunnerEvent) -> (UiView, Seq<(nat, nat, Seq<char>)>) {
    match e {
        RunnerEvent::TestStarted { scenario } => (
            UiView { status: "Running: "@ + scenario@, ..s },
            mark_for(fs, scenario@, "running"@),
        ),
        RunnerEvent::TestStep { step, status } => (
            UiView { status: step@ + " → "@ + status@, ..s },
            seq![],
        ),
        RunnerEvent::TestOutput { line } => (UiView { status: "Output: "@ + line@, ..s }, seq![]),
        RunnerEvent::TestFinished { scenario, status, duration_ms } => (
            UiView {
                status: scenario@ + ": "@ + status@ + " ("@ + decimal(duration_ms as nat) + "ms)"@,
                ..s
            },
            mark_for(fs, scenario@, status@),
        ),
        RunnerEvent::Pong => (UiView { status: "Connected"@, ..s }, seq![]),
    }
}

/// What a sequence of Runner events does, in order.
pub open spec fn events_step(s: UiView, fs: Seq<FeatureView>, es: Seq<RunnerEvent>) -> (UiView, Seq<(nat, nat, Seq<char>)>)
    decreases es.len(),
{
    if es.len() == 0 {
        (s, seq![])
    } else {
        let before = events_step(s, fs, es.drop_last());
        let last = event_step(before.0, fs, es.last());
        (last.0, before.1 + last.1)
    }
}

/// What one frame's poll does: a pending reply is shown, the Runner's events
/// are applied, and a lost connection is reported.
pub open spec fn poll_step(s: UiView, fs: Seq<FeatureView>, es: Seq<RunnerEvent>, connected: bool) -> (UiView, Seq<(nat, nat, Seq<char>)>) {
    let after = events_step(finish_pending(s), fs, es);
    (
        if connected {
            after.0
        } else {
            UiView { status: "Runner disconnected"@, ..after.0 }
        },
        after.1,
    )
}

/// The first scenario in project order whose name answers to `name`.
fn find_scenario_index(project: &BddProject, name: &str) -> (r: Option<(usize, usize)>)
    ensures
        match r {
            Some(p) => find_scenario(feature_views(project.features@), name@, 0) == Some((p.0 as nat, p.1 as nat)),
            None => find_scenario(feature_views(project.features@), name@, 0) is None,
        },
{
    let ghost fv = feature_views(project.features@);
    let mut fi: usize = 0;
    while fi < project.features.len()
        invariant
            fi <= project.features.len(),
            fv == feature_views(project.features@),
            find_scenario(fv, name@, fi as nat) == find_scenario(fv, name@, 0),
        decreases project.features.len() - fi,
    {
        let f = &project.features[fi];
        let ghost scs = fv[fi as int].scenarios;
        let mut si: usize = 0;
        while si < f.scenarios.len()
            invariant
                si <= f.scenarios.len(),
                scs == fv[fi as int].scenarios,
                f@ == fv[fi as int],
                fi < fv.len(),
                fv == feature_views(project.features@),
                find_scenario(fv, name@, fi as nat) == find_scenario(fv, name@, 0),
                first_scenario_from(scs, name@, si as nat) == first_scenario_from(scs, name@, 0),
            decreases f.scenarios.len() - si,
        {
            let sc_name = f.scenarios[si].name.as_str();
            assert(sc_name@ == scs[si as int].name);
            if f.scenarios[si].name == String::from_str(name) || contains_str(sc_name, name) {
                assert(scenario_answers(scs[si as int].name, name@));
                assert(first_scenario_from(scs, name@, 0) == Some(si as nat));
                assert(find_scenario(fv, name@, fi as nat) == Some((fi as nat, si as nat)));
                return Some((fi, si));
            }
            si += 1;
        }
        fi += 1;
    }
    None
}

/// The mark for the scenario answering to `name`, appended to `marks`.
fn push_mark(marks: &mut Vec<ScenarioMark>, project: &BddProject, name: &str, status: String)
    ensures
        mark_views(final(marks)@) == mark_views(old(marks)@) + mark_for(feature_views(project.features@), name@, status@),
{
    let ghost before = mark_views(marks@);
    match find_scenario_index(project, name) {
        Some((fi, si)) => {
            marks.push(ScenarioMark { feature_idx: fi, scenario_idx: si, status });
            assert(mark_views(marks@) =~= before + seq![(fi as nat, si as nat, status@)]);
        },
        None => {
            assert(mark_views(marks@) =~= before + Seq::<(nat, nat, Seq<char>)>::empty());
        },
    }
}

/// Applies one frame's poll: shows a pending chat reply, applies the
/// Runner's events in order, and reports a lost connection.  The scenario
/// run statuses the events report are recorded in `statuses`, in order, and
/// returned.
pub fn poll_runner(
    state: &mut UiState,
    statuses: &mut ScenarioStatusMap,
    project: &BddProject,
    events: &Vec<RunnerEvent>,
    connected: bool,
) -> (marks: Vec<ScenarioMark>)
    ensures
        (final(state)@, mark_views(marks@)) == poll_step(old(state)@, feature_views(project.features@), events@, connected),
        final(statuses)@ == apply_marks(old(statuses)@, mark_views(marks@)),
{
    let ghost fv = feature_views(project.features@);
    if let Some(response) = state.pending_chat_response.take() {
        state.chat_messages.pop();
        state.chat_messages.push((String::from_str("assistant"), response));
        state.chat_waiting = false;
        state.status = String::from_str("Ready");
        proof {
            let s0 = old(state)@;
            let m = s0.chat_messages;
            assert(message_views(state.chat_messages@) =~= (if m.len() > 0 {
                m.drop_last()
            } else {
                m
            }).push(("assistant"@, response@)));
        }
    }
    assert(state@ == finish_pending(old(state)@));
    let ghost s0 = state@;
    let mut marks: Vec<ScenarioMark> = Vec::new();
    let mut k: usize = 0;
    assert(events@.take(0) =~= Seq::<RunnerEvent>::empty());
    assert(mark_views(marks@) =~= Seq::<(nat, nat, Seq<char>)>::empty());
    while k < events.len()
        invariant
            k <= events.len(),
            fv == feature_views(project.features@),
            (state@, mark_views(marks@)) == events_step(s0, fv, events@.take(k as int)),
        decreases events.len() - k,
    {
        proof {
            assert(events@.take(k + 1).drop_last() =~= events@.take(k as int));
            assert(events@.take(k + 1).last() == events@[k as int]);
        }
        let ghost before = mark_views(marks@);
        match &events[k] {
            RunnerEvent::TestStarted { scenario } => {
                let mut st = String::from_str("Running: ");
                push_str(&mut st, scenario.as_str());
                state.status = st;
                push_mark(&mut marks, project, scenario.as_str(), String::from_str("running"));
            },
            RunnerEvent::TestStep { step, status } => {
                let mut st = step.clone();
                push_str(&mut st, " → ");
                push_str(&mut st, status.as_str());
                state.status = st;
                assert(mark_views(marks@) =~= before + Seq::<(nat, nat, Seq<char>)>::empty());
            },
            RunnerEvent::TestOutput { line } => {
                let mut st = String::from_str("Output: ");
                push_str(&mut st, line.as_str());
                state.status = st;
                assert(mark_views(marks@) =~= before + Seq::<(nat, nat, Seq<char>)>::empty());
            },
            RunnerEvent::TestFinished { scenario, status, duration_ms } => {
                let mut st = scenario.clone();
                push_str(&mut st, ": ");
                push_str(&mut st, status.as_str());
                push_str(&mut st, " (");
                push_str(&mut st, decimal_string(*duration_ms).as_str());
                push_str(&mut st, "ms)");
                state.status = st;
                push_mark(&mut marks, project, scenario.as_str(), status.clone());
            },
            RunnerEvent::Pong => {
                state.status = String::from_str("Connected");
                assert(mark_views(marks@) =~= before + Seq::<(nat, nat, Seq<char>)>::empty());
            },
        }
        k += 1;
    }
    assert(events@.take(events.len() as int) =~= events@);
    if !connected {
        state.status = String::from_str("Runner disconnected");
    }
    statuses.apply(&marks);
    marks
}


// ── Simulated test runs ──────────────────────────────────────────────────────

/// The next state of the run simulation's pseudo-random generator.
pub open spec fn lcg_next(r: u64) -> u64 {
    r.wrapping_mul(6364136223846793005u64).wrapping_add(1442695040888963407u64)
}

/// Whether a generator state means a pass: the byte taken from its bits 33
/// and up is below 200 (about 78% of the time).
pub open spec fn roll_passes(r: u64) -> bool {
    ((r >> 33u64) as u8) < 200u8
}

/// The status of a roll.
pub open spec fn roll_status(r: u64) -> Seq<char> {
    if roll_passes(r) {
        "passed"@
    } else {
        "failed"@
    }
}

/// The marks for the first `n` scenarios of feature `fi`, starting from
/// generator state `r`, and the generator state after them.
pub open spec fn simulate_feature(fi: nat, n: nat, r: u64) -> (Seq<(nat, nat, Seq<char>)>, u64)
    decreases n,
{
    if n == 0 {
        (seq![], r)
    } else {
        let before = simulate_feature(fi, (n - 1) as nat, r);
        let r2 = lcg_next(before.1);
        (before.0.push((fi, (n - 1) as nat, roll_status(r2))), r2)
    }
}

/// The marks for every scenario of the features, in project order, from
/// generator state `seed`, and the generator state after them.
pub open spec fn simulate_features(fs: Seq<FeatureView>, seed: u64) -> (Seq<(nat, nat, Seq<char>)>, u64)
    decreases fs.len(),
{
    if fs.len() == 0 {
        (seq![], seed)
    } else {
        let before = simulate_features(fs.drop_last(), seed);
        let last = simulate_feature((fs.len() - 1) as nat, fs.last().scenarios.len(), before.1);
        (before.0 + last.0, last.1)
    }
}

/// The number of marks that say "passed".
pub open spec fn passed_count(ms: Seq<(nat, nat, Seq<char>)>) -> nat
    decreases ms.len(),
{
    if ms.len() == 0 {
        0
    } else {
        passed_count(ms.drop_last()) + if ms.last().2 == "passed"@ {
            1nat
        } else {
            0nat
        }
    }
}

/// The number of scenarios of the features.
pub open spec fn scenario_total(fs: Seq<FeatureView>) -> nat
    decreases fs.len(),
{
    if fs.len() == 0 {
        0
    } else {
        scenario_total(fs.drop_last()) + fs.last().scenarios.len()
    }
}

/// The status line after a simulated run.
pub open spec fn simulated_status(ms: Seq<(nat, nat, Seq<char>)>) -> Seq<char> {
    "Simulated "@ + decimal(ms.len()) + " scenarios: "@ + decimal(passed_count(ms)) + " passed, "@
        + decimal((ms.len() - passed_count(ms)) as nat) + " failed"@
}

proof fn lemma_simulate_feature_len(fi: nat, n: nat, r: u64)
    ensures
        simulate_feature(fi, n, r).0.len() == n,
    decreases n,
{
    if n > 0 {
        lemma_simulate_feature_len(fi, (n - 1) as nat, r);
    }
}

proof fn lemma_passed_count_push(ms: Seq<(nat, nat, Seq<char>)>, m: (nat, nat, Seq<char>))
    ensures
        passed_count(ms.push(m)) == passed_count(ms) + if m.2 == "passed"@ { 1nat } else { 0nat },
        passed_count(ms) <= ms.len(),
    decreases ms.len(),
{
    assert(ms.push(m).drop_last() =~= ms);
    if ms.len() > 0 {
        lemma_passed_count_push(ms.drop_last(), ms.last());
        assert(ms.drop_last().push(ms.last()) =~= ms);
    }
}

/// Simulates running all scenarios: each gets a pseudo-random pass or fail
/// from the generator seeded with `seed`; the status line gives the counts.
/// The statuses are recorded in `statuses` and returned, in project order.
pub fn simulate_run(
    state: &mut UiState,
    statuses: &mut ScenarioStatusMap,
    project: &BddProject,
    seed: u64,
) -> (marks: Vec<ScenarioMark>)
    requires
        scenario_total(feature_views(project.features@)) <= u32::MAX,
    ensures
        mark_views(marks@) == simulate_features(feature_views(project.features@), seed).0,
        final(state)@ == (UiView { status: simulated_status(mark_views(marks@)), ..old(state)@ }),
        final(statuses)@ == apply_marks(old(statuses)@, mark_views(marks@)),
{
    let ghost fv = feature_views(project.features@);
    let mut marks: Vec<ScenarioMark> = Vec::new();
    let mut rng = seed;
    let mut passed: u32 = 0;
    let mut failed: u32 = 0;
    let mut fi: usize = 0;
    assert(fv.take(0) =~= Seq::<FeatureView>::empty());
    assert(mark_views(marks@) =~= Seq::<(nat, nat, Seq<char>)>::empty());
    while fi < project.features.len()
        invariant
            fi <= project.features.len(),
            fv == feature_views(project.features@),
            scenario_total(fv) <= u32::MAX,
            (mark_views(marks@), rng) == simulate_features(fv.take(fi as int), seed),
            passed == passed_count(mark_views(marks@)),
            passed + failed == marks@.len(),
            marks@.len() == scenario_total(fv.take(fi as int)),
        decreases project.features.len() - fi,
    {
        let f = &project.features[fi];
        let ghost base = mark_views(marks@);
        let ghost r0 = rng;
        let mut si: usize = 0;
        proof {
            assert(fv.take(fi + 1).drop_last() =~= fv.take(fi as int));
            assert(fv.take(fi + 1).last() == f@);
            lemma_scenario_total_prefix(fv, (fi + 1) as nat);
        }
        while si < f.scenarios.len()
            invariant
                si <= f.scenarios.len(),
                mark_views(marks@) == base + simulate_feature(fi as nat, si as nat, r0).0,
                rng == simulate_feature(fi as nat, si as nat, r0).1,
                passed == passed_count(mark_views(marks@)),
                passed + failed == marks@.len(),
                marks@.len() == base.len() + si,
                base.len() + f.scenarios.len() <= u32::MAX,
            decreases f.scenarios.len() - si,
        {
            rng = rng.wrapping_mul(6364136223846793005u64).wrapping_add(1442695040888963407u64);
            let roll = (rng >> 33u64) as u8;
            let ghost prev = mark_views(marks@);
            let pass = roll < 200u8;
            assert(pass == roll_passes(rng));
            let status = if pass {
                passed += 1;
                String::from_str("passed")
            } else {
                failed += 1;
                String::from_str("failed")
            };
            let m = ScenarioMark { feature_idx: fi, scenario_idx: si, status };
            marks.push(m);
            proof {
                lemma_simulate_mark(prev, base, fi as nat, si as nat, r0, rng, m.status@);
                assert(mark_views(marks@) =~= prev.push((fi as nat, si as nat, m.status@)));
            }
            si += 1;
        }
        proof {
            lemma_simulate_feature_len(fi as nat, f.scenarios.len() as nat, r0);
        }
        fi += 1;
    }
    assert(fv.take(project.features.len() as int) =~= fv);
    let total = passed + failed;
    let mut st = String::from_str("Simulated ");
    push_str(&mut st, decimal_string(total as u64).as_str());
    push_str(&mut st, " scenarios: ");
    push_str(&mut st, decimal_string(passed as u64).as_str());
    push_str(&mut st, " passed, ");
    push_str(&mut st, decimal_string(failed as u64).as_str());
    push_str(&mut st, " failed");
    state.status = st;
    statuses.apply(&marks);
    marks
}

proof fn lemma_simulate_mark(
    prev: Seq<(nat, nat, Seq<char>)>,
    base: Seq<(nat, nat, Seq<char>)>,
    fi: nat,
    si: nat,
    r0: u64,
    r: u64,
    status: Seq<char>,
)
    requires
        prev == base + simulate_feature(fi, si, r0).0,
        r == lcg_next(simulate_feature(fi, si, r0).1),
        status == roll_status(r),
    ensures
        prev.push((fi, si, status)) == base + simulate_feature(fi, si + 1, r0).0,
        r == simulate_feature(fi, si + 1, r0).1,
        passed_count(prev.push((fi, si, status))) == passed_count(prev) + if roll_passes(r) {
            1nat
        } else {
            0nat
        },
{
    lemma_passed_count_push(prev, (fi, si, status));
    reveal_strlit("passed");
    reveal_strlit("failed");
    assert(roll_passes(r) <==> status == "passed"@) by {
        if !roll_passes(r) {
            assert(status[0] != "passed"@[0]);
        }
    }
    assert(prev.push((fi, si, status)) =~= base + simulate_feature(fi, si + 1, r0).0);
}

proof fn lemma_scenario_total_prefix(fs: Seq<FeatureView>, n: nat)
    requires
        n <= fs.len(),
    ensures
        scenario_total(fs.take(n as int)) <= scenario_total(fs),
    decreases fs.len() - n,
{
    if n < fs.len() {
        lemma_scenario_total_prefix(fs, n + 1);
        assert(fs.take(n + 1int).drop_last() =~= fs.take(n as int));
    } else {
        assert(fs.take(n as int) =~= fs);
    }
}

// ── Laws ─────────────────────────────────────────────────────────────────────

/// Every mark names a scenario of the features.
pub open spec fn marks_valid(fs: Seq<FeatureView>, ms: Seq<(nat, nat, Seq<char>)>) -> bool {
    forall|k: int|
        0 <= k < ms.len() ==> (#[trigger] ms[k]).0 < fs.len() && ms[k].1 < fs[ms[k].0 as int].scenarios.len()
}

proof fn lemma_first_scenario_in_range(scs: Seq<ScenarioView>, name: Seq<char>, k: nat)
    ensures
        match first_scenario_from(scs, name, k) {
            Some(j) => k <= j < scs.len(),
            None => true,
        },
    decreases scs.len() - k,
{
    if k < scs.len() && !scenario_answers(scs[k as int].name, name) {
        lemma_first_scenario_in_range(scs, name, k + 1);
    }
}

proof fn lemma_find_scenario_in_range(fs: Seq<FeatureView>, name: Seq<char>, fi: nat)
    ensures
        match find_scenario(fs, name, fi) {
            Some(p) => p.0 < fs.len() && p.1 < fs[p.0 as int].scenarios.len(),
            None => true,
        },
    decreases fs.len() - fi,
{
    if fi < fs.len() {
        lemma_first_scenario_in_range(fs[fi as int].scenarios, name, 0);
        if first_scenario_from(fs[fi as int].scenarios, name, 0) is None {
            lemma_find_scenario_in_range(fs, name, fi + 1);
        }
    }
}

proof fn lemma_events_marks_valid(s: UiView, fs: Seq<FeatureView>, es: Seq<RunnerEvent>)
    ensures
        marks_valid(fs, events_step(s, fs, es).1),
    decreases es.len(),
{
    if es.len() > 0 {
        lemma_events_marks_valid(s, fs, es.drop_last());
        let before = events_step(s, fs, es.drop_last());
        let last = event_step(before.0, fs, es.last());
        match es.last() {
            RunnerEvent::TestStarted { scenario } => {
                lemma_find_scenario_in_range(fs, scenario@, 0);
            },
            RunnerEvent::TestFinished { scenario, status, duration_ms } => {
                lemma_find_scenario_in_range(fs, scenario@, 0);
            },
            _ => {},
        }
        assert(marks_valid(fs, last.1));
        let all = before.1 + last.1;
        assert forall|k: int| 0 <= k < all.len() implies (#[trigger] all[k]).0 < fs.len() && all[k].1
            < fs[all[k].0 as int].scenarios.len() by {
            if k < before.1.len() {
                assert(all[k] == before.1[k]);
            } else {
                assert(all[k] == last.1[k - before.1.len()]);
            }
        }
    }
}

/// Runner results only ever mark scenarios that exist: whatever the Runner
/// reports, each mark a poll returns names a scenario of the project.
pub proof fn lemma_runner_marks_name_scenarios(
    s: UiView,
    fs: Seq<FeatureView>,
    es: Seq<RunnerEvent>,
    connected: bool,
)
    ensures
        marks_valid(fs, poll_step(s, fs, es, connected).1),
{
    lemma_events_marks_valid(finish_pending(s), fs, es);
}

proof fn lemma_simulate_feature_shape(fi: nat, n: nat, r: u64)
    ensures
        simulate_feature(fi, n, r).0.len() == n,
        forall|j: int|
            0 <= j < n ==> (#[trigger] simulate_feature(fi, n, r).0[j]).0 == fi
                && simulate_feature(fi, n, r).0[j].1 == j && (simulate_feature(fi, n, r).0[j].2
                == "passed"@ || simulate_feature(fi, n, r).0[j].2 == "failed"@),
    decreases n,
{
    if n > 0 {
        lemma_simulate_feature_shape(fi, (n - 1) as nat, r);
    }
}

/// Whether the marks come in project order, each scenario at most once.
pub open spec fn marks_ordered(ms: Seq<(nat, nat, Seq<char>)>) -> bool {
    forall|a: int, b: int|
        0 <= a < b < ms.len() ==> (#[trigger] ms[a]).0 < (#[trigger] ms[b]).0 || (ms[a].0 == ms[b].0
            && ms[a].1 < ms[b].1)
}

proof fn lemma_simulate_features_shape(fs: Seq<FeatureView>, seed: u64)
    ensures
        simulate_features(fs, seed).0.len() == scenario_total(fs),
        marks_valid(fs, simulate_features(fs, seed).0),
        marks_ordered(simulate_features(fs, seed).0),
        forall|k: int|
            0 <= k < simulate_features(fs, seed).0.len() ==> (#[trigger] simulate_features(fs, seed).0[k]).2
                == "passed"@ || simulate_features(fs, seed).0[k].2 == "failed"@,
    decreases fs.len(),
{
    if fs.len() > 0 {
        let init = fs.drop_last();
        lemma_simulate_features_shape(init, seed);
        let before = simulate_features(init, seed);
        let fi = (fs.len() - 1) as nat;
        let last = simulate_feature(fi, fs.last().scenarios.len(), before.1);
        lemma_simulate_feature_shape(fi, fs.last().scenarios.len(), before.1);
        let all = before.0 + last.0;
        assert forall|k: int| 0 <= k < all.len() implies (#[trigger] all[k]).0 < fs.len() && all[k].1
            < fs[all[k].0 as int].scenarios.len() && all[k].0 <= fi && (k < before.0.len() ==> all[k].0 < fi)
            && (all[k].2 == "passed"@ || all[k].2 == "failed"@) by {
            if k < before.0.len() {
                assert(all[k] == before.0[k]);
                assert(init[before.0[k].0 as int] == fs[before.0[k].0 as int]);
            } else {
                assert(all[k] == last.0[k - before.0.len()]);
            }
        }
        assert forall|a: int, b: int| 0 <= a < b < all.len() implies (#[trigger] all[a]).0 < (#[trigger] all[b]).0
            || (all[a].0 == all[b].0 && all[a].1 < all[b].1) by {
            if b < before.0.len() {
                assert(all[a] == before.0[a]);
                assert(all[b] == before.0[b]);
            } else if a >= before.0.len() {
                assert(all[a] == last.0[a - before.0.len()]);
                assert(all[b] == last.0[b - before.0.len()]);
            } else {
                assert(all[a].0 < fi);
                assert(all[b] == last.0[b - before.0.len()]);
            }
        }
    }
}

/// A simulated run marks every scenario of the project exactly once, in
/// project order, each as passed or failed.
pub proof fn lemma_simulation_marks_every_scenario(fs: Seq<FeatureView>, seed: u64)
    ensures
        simulate_features(fs, seed).0.len() == scenario_total(fs),
        marks_valid(fs, simulate_features(fs, seed).0),
        marks_ordered(simulate_features(fs, seed).0),
        forall|k: int|
            0 <= k < simulate_features(fs, seed).0.len() ==> (#[trigger] simulate_features(fs, seed).0[k]).2
                == "passed"@ || simulate_features(fs, seed).0[k].2 == "failed"@,
{
    lemma_simulate_features_shape(fs, seed);
}

/// Pressing `?` twice, outside chat typing, leaves the state as it was; the
/// first press shows or hides the help.
pub proof fn lemma_help_toggles_back(s: UiView, fs: Seq<FeatureView>, names: Seq<Seq<char>>)
    requires
        !(s.active_tab == 2 && !s.chat_waiting),
    ensures
        key_step(s, fs, names, KeyInput::Char('?')).0.show_help == !s.show_help,
        key_step(key_step(s, fs, names, KeyInput::Char('?')).0, fs, names, KeyInput::Char('?')).0 == s,
{
}

/// In the Explore tab, three presses of Tab bring the focus back to the
/// column it started on.
pub proof fn lemma_tab_cycles_focus(s: UiView, fs: Seq<FeatureView>, names: Seq<Seq<char>>)
    requires
        s.active_tab == 0,
    ensures
        key_step(
            key_step(key_step(s, fs, names, KeyInput::Tab).0, fs, names, KeyInput::Tab).0,
            fs,
            names,
            KeyInput::Tab,
        ).0 == s,
{
}

/// In the Explore tab, Down leaves the focused column's selection within its
/// list whenever the list is not empty.
pub proof fn lemma_down_stays_in_list(s: UiView, fs: Seq<FeatureView>, names: Seq<Seq<char>>)
    requires
        s.active_tab == 0,
    ensures
        ({
            let t = key_step(s, fs, names, KeyInput::Down).0;
            match s.explore_focus {
                ColumnFocus::Feature => fs.len() > 0 ==> t.selected_feature < fs.len(),
                ColumnFocus::Scenario => scenario_count(fs, s.selected_feature) > 0
                    ==> t.selected_scenario < scenario_count(fs, s.selected_feature),
                ColumnFocus::Step => step_or_bg_count(fs, s.selected_feature, s.selected_scenario) > 0
                    ==> t.selected_step < step_or_bg_count(fs, s.selected_feature, s.selected_scenario),
            }
        }),
{
}

/// The last index of a list of `n` items (0 for an empty list).
pub open spec fn last_index(n: nat) -> nat {
    if n > 0 { (n - 1) as nat } else { 0 }
}

/// A key press keeps the selected feature within the feature list: if it
/// was at most the last index (0 for an empty list) before, it still is
/// after any key.  On the Explore tab with the feature column focused, Up
/// moves the selection one up (not past the first) and Down one down (not
/// past the last), and either key is handled.
pub proof fn lemma_key_keeps_feature_in_range(s: UiView, fs: Seq<FeatureView>, names: Seq<Seq<char>>, code: KeyInput)
    requires
        s.selected_feature <= last_index(fs.len()),
    ensures
        key_step(s, fs, names, code).0.selected_feature <= last_index(fs.len()),
        s.active_tab == 0 && s.explore_focus == ColumnFocus::Feature && code == KeyInput::Up ==> {
            &&& key_step(s, fs, names, code).0.selected_feature == last_index(s.selected_feature)
            &&& key_step(s, fs, names, code).1
        },
        s.active_tab == 0 && s.explore_focus == ColumnFocus::Feature && code == KeyInput::Down ==> {
            &&& key_step(s, fs, names, code).0.selected_feature == (if s.selected_feature + 1
                < last_index(fs.len()) {
                s.selected_feature + 1
            } else {
                last_index(fs.len())
            })
            &&& key_step(s, fs, names, code).1
        },
{
}

/// On the Explore tab, Up and Down move the selection of the focused column
/// by one and leave everything else as it was: Up gives the old selection
/// minus one (not below zero); Down gives the old selection plus one when
/// that is still within the column's list of `n` items, and otherwise the
/// last index (`n` is the features, the selected feature's scenarios, or the
/// background and scenario steps of the selected scenario).  Both keys are
/// handled.
pub proof fn lemma_up_down_move_focused_selection(s: UiView, fs: Seq<FeatureView>, names: Seq<Seq<char>>)
    requires
        s.active_tab == 0,
    ensures
        ({
            let up = key_step(s, fs, names, KeyInput::Up);
            let down = key_step(s, fs, names, KeyInput::Down);
            let old_sel = match s.explore_focus {
                ColumnFocus::Feature => s.selected_feature,
                ColumnFocus::Scenario => s.selected_scenario,
                ColumnFocus::Step => s.selected_step,
            };
            let n = match s.explore_focus {
                ColumnFocus::Feature => fs.len(),
                ColumnFocus::Scenario => scenario_count(fs, s.selected_feature),
                ColumnFocus::Step => step_or_bg_count(fs, s.selected_feature, s.selected_scenario),
            };
            let up_sel: nat = if old_sel > 0 { (old_sel - 1) as nat } else { 0 };
            let down_sel: nat = if old_sel + 1 < n { old_sel + 1 } else if n > 0 { (n - 1) as nat } else { 0 };
            &&& up.1 && down.1
            &&& up.0 == (match s.explore_focus {
                ColumnFocus::Feature => UiView { selected_feature: up_sel, ..s },
                ColumnFocus::Scenario => UiView { selected_scenario: up_sel, ..s },
                ColumnFocus::Step => UiView { selected_step: up_sel, ..s },
            })
            &&& down.0 == (match s.explore_focus {
                ColumnFocus::Feature => UiView { selected_feature: down_sel, ..s },
                ColumnFocus::Scenario => UiView { selected_scenario: down_sel, ..s },
                ColumnFocus::Step => UiView { selected_step: down_sel, ..s },
            })
        }),
{
}

/// Sending a chat message shows "Thinking..." first; the next poll replaces
/// the placeholder with the assistant's reply and ends the wait.
pub proof fn lemma_chat_reply_follows_placeholder(s: UiView, fs: Seq<FeatureView>, names: Seq<Seq<char>>)
    requires
        s.active_tab == 2,
        !s.chat_waiting,
        s.chat_input.len() > 0,
    ensures
        ({
            let sent = key_step(s, fs, names, KeyInput::Enter).0;
            let shown = poll_step(sent, fs, seq![], true).0;
            &&& sent.chat_waiting
            &&& sent.status == "Thinking..."@
            &&& sent.chat_messages == s.chat_messages.push(("user"@, s.chat_input)).push(
                ("assistant"@, "Thinking..."@),
            )
            &&& shown.chat_messages == s.chat_messages.push(("user"@, s.chat_input)).push(
                ("assistant"@, chat_reply(s.chat_input, fs, names)),
            )
            &&& !shown.chat_waiting
            &&& shown.pending_chat_response is None
            &&& shown.chat_input.len() == 0
            &&& shown.status == "Ready"@
        }),
{
    let sent = key_step(s, fs, names, KeyInput::Enter).0;
    let m = sent.chat_messages;
    assert(m.drop_last() =~= s.chat_messages.push(("user"@, s.chat_input)));
    let es: Seq<RunnerEvent> = seq![];
    assert(events_step(finish_pending(sent), fs, es) == (finish_pending(sent), Seq::<(nat, nat, Seq<char>)>::empty()));
}

} // verus!

//! The three columns of the Explore tab as lines of styled text: which lines
//! each column shows, how many terminal rows each line moves the cursor by,
//! and where the clickable item regions fall.  Drawing the lines is left to
//! the application.

use vstd::prelude::*;
use crate::explorer::{
    CellRect, ClickableRegion, ColumnFocus, MouseEffect, UiState, UiView, first_hit, mouse_step, region_hit,
    scenario_count,
};
use crate::gherkin::{
    BddProject, BddStep, ExamplesTable, ExamplesView, FeatureView, ScenarioKind, ScenarioView, StepView,
    examples_views, feature_views, step_views,
};
use crate::numfmt::{decimal, decimal_string};
use crate::status::ScenarioStatusMap;
use crate::text::{join_by, join_strings, lemma_strs_push, push_str, strs};
use crate::ui::{
    AppUi, SpanView, StyledSpan, TextStyle, UiColor, concat2, cyan, examples_table_lines, fg, fg_bold,
    header_cyan, keyword_color_spec, line_rows_spec, muted, plain, push_spaces, raw,
    render_examples_table_lines, sel_focused_fg, sel_unfocused_fg, spaces, span, span_views, style_fg,
    style_fg_bold, style_plain, text_muted, utf8_len,
};

verus! {

/// A line of an Explore column.
#[derive(Debug, Clone)]
pub struct PanelLine {
    pub spans: Vec<crate::ui::StyledSpan>,
    /// The terminal rows the line moves the cursor down by.
    pub rows: u16,
    /// The item that clicking the line selects, if any.
    pub item: Option<usize>,
}

/// A panel line as plain values.
pub struct PanelLineView {
    pub spans: Seq<crate::ui::SpanView>,
    pub rows: nat,
    pub item: Option<usize>,
}

impl View for PanelLine {
    type V = PanelLineView;

    open spec fn view(&self) -> PanelLineView {
        PanelLineView { spans: crate::ui::span_views(self.spans@), rows: self.rows as nat, item: self.item }
    }
}

/// The views of panel lines.
pub open spec fn line_views(v: Seq<PanelLine>) -> Seq<PanelLineView> {
    Seq::new(v.len(), |i: int| v[i]@)
}

/// Which Explore column a panel is.
#[derive(Debug, Clone, Copy, PartialEq, Eq, Structural)]
pub enum PanelKind {
    Feature,
    Scenario,
    Step,
}

/// The rows that lines take in all.
pub open spec fn total_rows(ls: Seq<PanelLineView>) -> nat
    decreases ls.len(),
{
    if ls.len() == 0 {
        0
    } else {
        total_rows(ls.drop_last()) + ls.last().rows
    }
}

/// The clickable region of item `i` of a column, on terminal row `row`.
pub open spec fn item_region(kind: PanelKind, i: usize, row: u16, inner: CellRect) -> ClickableRegion {
    match kind {
        PanelKind::Feature => ClickableRegion::ExploreFeature {
            feature_idx: i,
            row_y: row,
            col_x: inner.x,
            col_right: inner.right_spec(),
        },
        PanelKind::Scenario => ClickableRegion::ExploreScenario {
            scenario_idx: i,
            row_y: row,
            col_x: inner.x,
            col_right: inner.right_spec(),
        },
        PanelKind::Step => ClickableRegion::ExploreStep {
            step_idx: i,
            row_y: row,
            col_x: inner.x,
            col_right: inner.right_spec(),
        },
    }
}

/// The regions of the lines that show an item, each on the row where its
/// line starts when the lines are laid out from the top of `inner`.
pub open spec fn panel_regions(ls: Seq<PanelLineView>, kind: PanelKind, inner: CellRect) -> Seq<ClickableRegion>
    decreases ls.len(),
{
    if ls.len() == 0 {
        seq![]
    } else {
        let prev = panel_regions(ls.drop_last(), kind, inner);
        match ls.last().item {
            Some(i) => prev.push(item_region(kind, i, (inner.y + total_rows(ls.drop_last())) as u16, inner)),
            None => prev,
        }
    }
}

proof fn lemma_total_rows_prefix(ls: Seq<PanelLineView>, k: int)
    requires
        0 <= k <= ls.len(),
    ensures
        total_rows(ls.take(k)) <= total_rows(ls),
    decreases ls.len() - k,
{
    if k < ls.len() {
        lemma_total_rows_prefix(ls, k + 1);
        assert(ls.take(k + 1).drop_last() =~= ls.take(k));
    } else {
        assert(ls.take(k) =~= ls);
    }
}

fn make_region(kind: PanelKind, i: usize, row: u16, inner: CellRect, right: u16) -> (r: ClickableRegion)
    requires
        right == inner.right_spec(),
    ensures
        r == item_region(kind, i, row, inner),
{
    match kind {
        PanelKind::Feature => ClickableRegion::ExploreFeature {
            feature_idx: i,
            row_y: row,
            col_x: inner.x,
            col_right: right,
        },
        PanelKind::Scenario => ClickableRegion::ExploreScenario {
            scenario_idx: i,
            row_y: row,
            col_x: inner.x,
            col_right: right,
        },
        PanelKind::Step => ClickableRegion::ExploreStep {
            step_idx: i,
            row_y: row,
            col_x: inner.x,
            col_right: right,
        },
    }
}

/// The clickable regions of a column's lines laid out from the top of
/// `inner`, or `None` when the rows run past the last terminal row number.
pub fn panel_regions_of(lines: &Vec<PanelLine>, kind: PanelKind, inner: CellRect) -> (r: Option<
    Vec<ClickableRegion>,
>)
    ensures
        match r {
            Some(v) => inner.y + total_rows(line_views(lines@)) <= u16::MAX && v@ == panel_regions(
                line_views(lines@),
                kind,
                inner,
            ),
            None => inner.y + total_rows(line_views(lines@)) > u16::MAX,
        },
{
    let ghost lv = line_views(lines@);
    let right = inner.right();
    let mut y: u16 = inner.y;
    let mut out: Vec<ClickableRegion> = Vec::new();
    let mut i: usize = 0;
    assert(lv.take(0) =~= Seq::<PanelLineView>::empty());
    while i < lines.len()
        invariant
            i <= lines.len(),
            lv == line_views(lines@),
            right == inner.right_spec(),
            y == inner.y + total_rows(lv.take(i as int)),
            out@ == panel_regions(lv.take(i as int), kind, inner),
        decreases lines.len() - i,
    {
        proof {
            assert(lv.take(i + 1).drop_last() =~= lv.take(i as int));
            assert(lv.take(i + 1).last() == lines@[i as int]@);
        }
        match lines[i].item {
            Some(k) => {
                let reg = make_region(kind, k, y, inner, right);
                out.push(reg);
            },
            None => {},
        }
        match y.checked_add(lines[i].rows) {
            Some(ny) => {
                y = ny;
            },
            None => {
                proof {
                    lemma_total_rows_prefix(lv, i + 1);
                }
                return None;
            },
        }
        i += 1;
    }
    assert(lv.take(lines.len() as int) =~= lv);
    Some(out)
}

// ── Styles and row counts ────────────────────────────────────────────────────

/// The style of a selected item: yellow and bold in the focused column, cyan
/// otherwise.
pub open spec fn selection_style(focused: bool) -> TextStyle {
    if focused {
        fg_bold(sel_focused_fg())
    } else {
        fg(sel_unfocused_fg())
    }
}

/// The style of an item of a list.
pub open spec fn item_style(selected: bool, focused: bool) -> TextStyle {
    if selected {
        selection_style(focused)
    } else {
        plain()
    }
}

/// The terminal rows a text takes in a column `w` cells wide.
pub open spec fn text_rows(t: Seq<char>, w: u16) -> nat {
    line_rows_spec(utf8_len(t) as usize, w) as nat
}

/// A line of muted text that selects nothing.
pub open spec fn note_line(t: Seq<char>, rows: nat) -> PanelLineView {
    PanelLineView { spans: seq![SpanView { text: t, style: fg(text_muted()) }], rows, item: None }
}

impl AppUi {
    fn item_style_of(&self, selected: bool, focused: bool) -> (st: TextStyle)
        ensures
            st == item_style(selected, focused),
    {
        if selected {
            self.selected_style(focused)
        } else {
            style_plain()
        }
    }

    fn text_rows_of(&self, t: &String, w: u16) -> (r: u16)
        ensures
            r as nat == text_rows(t@, w),
    {
        self.line_rows(t.as_str(), w)
    }
}

fn note(t: &str, rows: u16) -> (l: PanelLine)
    ensures
        l@ == note_line(t@, rows as nat),
{
    let mut spans: Vec<StyledSpan> = Vec::new();
    spans.push(span(t, style_fg(muted())));
    assert(span_views(spans@) =~= seq![SpanView { text: t@, style: fg(text_muted()) }]);
    PanelLine { spans, rows, item: None }
}

// ── The feature column ───────────────────────────────────────────────────────

/// The feature column: one line per feature label, the selected one styled,
/// or a note when there is no feature.
pub open spec fn feature_panel_spec(s: UiView, labels: Seq<Seq<char>>, w: u16) -> Seq<PanelLineView> {
    if labels.len() == 0 {
        seq![note_line("  (no features)"@, 0)]
    } else {
        Seq::new(
            labels.len(),
            |i: int|
                PanelLineView {
                    spans: seq![
                        SpanView {
                            text: " "@ + labels[i],
                            style: item_style(i == s.selected_feature, s.explore_focus == ColumnFocus::Feature),
                        },
                    ],
                    rows: text_rows(" "@ + labels[i], w),
                    item: Some(i as usize),
                },
        )
    }
}

impl AppUi {
    /// The lines of the feature column, `col_width` cells wide, for the
    /// given feature labels.
    pub fn feature_panel(&self, s: &UiState, labels: &Vec<String>, col_width: u16) -> (lines: Vec<PanelLine>)
        ensures
            line_views(lines@) == feature_panel_spec(s@, strs(labels@), col_width),
    {
        let mut lines: Vec<PanelLine> = Vec::new();
        if labels.len() == 0 {
            lines.push(note("  (no features)", 0));
            assert(line_views(lines@) =~= seq![note_line("  (no features)"@, 0)]);
            return lines;
        }
        let focused = match s.explore_focus {
            ColumnFocus::Feature => true,
            _ => false,
        };
        let ghost want = feature_panel_spec(s@, strs(labels@), col_width);
        let mut i: usize = 0;
        while i < labels.len()
            invariant
                i <= labels.len(),
                labels.len() > 0,
                want == feature_panel_spec(s@, strs(labels@), col_width),
                focused == (s@.explore_focus == ColumnFocus::Feature),
                line_views(lines@) == want.take(i as int),
            decreases labels.len() - i,
        {
            let text = concat2(" ", labels[i].as_str());
            let st = self.item_style_of(i == s.explore_selected_feature, focused);
            let rows = self.text_rows_of(&text, col_width);
            let mut spans: Vec<StyledSpan> = Vec::new();
            spans.push(StyledSpan { text, style: st });
            let line = PanelLine { spans, rows, item: Some(i) };
            let ghost prev = line_views(lines@);
            lines.push(line);
            proof {
                assert(span_views(line.spans@) =~= want[i as int].spans);
                assert(line@ == want[i as int]);
                assert(line_views(lines@) =~= prev.push(line@));
                assert(want.take(i + 1) =~= want.take(i as int).push(want[i as int]));
            }
            i += 1;
        }
        assert(want.take(labels.len() as int) =~= want);
        lines
    }
}

// ── The scenario column ──────────────────────────────────────────────────────

/// A passed scenario's dot (bright green).
pub open spec fn stat_passed() -> UiColor { UiColor::Rgb(39, 201, 63) }
/// A failed scenario's dot (soft red).
pub open spec fn stat_failed() -> UiColor { UiColor::Rgb(224, 108, 117) }
/// A running scenario's dot (yellow).
pub open spec fn stat_running() -> UiColor { UiColor::Rgb(226, 183, 20) }
/// The dot of a scenario that has not run (dark gray).
pub open spec fn stat_idle() -> UiColor { UiColor::Rgb(136, 136, 136) }

/// The colour of a run status's dot.
pub open spec fn status_color(st: Seq<char>) -> UiColor {
    if st == "passed"@ {
        stat_passed()
    } else if st == "failed"@ {
        stat_failed()
    } else if st == "running"@ {
        stat_running()
    } else {
        stat_idle()
    }
}

/// The recorded status of a scenario, or "idle".
pub open spec fn status_or_idle(m: Map<(nat, nat), Seq<char>>, fi: nat, si: nat) -> Seq<char> {
    if m.contains_key((fi, si)) {
        m[(fi, si)]
    } else {
        "idle"@
    }
}

/// The icon in front of a scenario's name: a diamond for an outline.
pub open spec fn kind_icon(k: ScenarioKind) -> Seq<char> {
    match k {
        ScenarioKind::Scenario => ""@,
        ScenarioKind::ScenarioOutline => "◈ "@,
    }
}

/// The label of a scenario in the scenario column.
pub open spec fn scenario_label(sc: ScenarioView) -> Seq<char> {
    " "@ + kind_icon(sc.kind) + sc.name
}

/// The scenario column: for the selected feature, one line per scenario
/// with its status dot, the selected one styled; or a note.
pub open spec fn scenario_panel_spec(
    s: UiView,
    fs: Seq<FeatureView>,
    m: Map<(nat, nat), Seq<char>>,
    w: u16,
) -> Seq<PanelLineView> {
    let fi = s.selected_feature;
    if fi < fs.len() {
        let scs = fs[fi as int].scenarios;
        if scs.len() == 0 {
            seq![note_line("  (no scenarios)"@, 0)]
        } else {
            Seq::new(
                scs.len(),
                |i: int|
                    PanelLineView {
                        spans: seq![
                            raw(" "@),
                            SpanView { text: "●"@, style: fg(status_color(status_or_idle(m, fi, i as nat))) },
                            SpanView {
                                text: scenario_label(scs[i]),
                                style: item_style(i == s.selected_scenario, s.explore_focus == ColumnFocus::Scenario),
                            },
                        ],
                        rows: text_rows(scenario_label(scs[i]), w),
                        item: Some(i as usize),
                    },
            )
        }
    } else {
        seq![note_line("  (select a feature)"@, 0)]
    }
}

fn status_color_of(st: &String) -> (c: UiColor)
    ensures
        c == status_color(st@),
{
    if *st == String::from_str("passed") {
        UiColor::Rgb(39, 201, 63)
    } else if *st == String::from_str("failed") {
        UiColor::Rgb(224, 108, 117)
    } else if *st == String::from_str("running") {
        UiColor::Rgb(226, 183, 20)
    } else {
        UiColor::Rgb(136, 136, 136)
    }
}

fn scenario_label_of(sc: &crate::gherkin::BddScenario) -> (t: String)
    ensures
        t@ == scenario_label(sc@),
{
    let mut t = String::from_str(" ");
    match sc.kind {
        ScenarioKind::Scenario => {},
        ScenarioKind::ScenarioOutline => push_str(&mut t, "◈ "),
    }
    push_str(&mut t, sc.name.as_str());
    proof {
        reveal_strlit("");
        assert(t@ =~= scenario_label(sc@));
    }
    t
}

impl AppUi {
    /// The title of the scenario column: the number of scenarios of the
    /// selected feature.
    pub fn scenario_panel_title(&self, s: &UiState, project: &BddProject) -> (title: String)
        ensures
            title@ == " Scenarios ("@ + decimal(scenario_count(feature_views(project.features@), s.explore_selected_feature as nat)) + ") "@,
    {
        let n = if s.explore_selected_feature < project.features.len() {
            project.features[s.explore_selected_feature].scenarios.len()
        } else {
            0
        };
        let mut t = String::from_str(" Scenarios (");
        push_str(&mut t, decimal_string(n as u64).as_str());
        push_str(&mut t, ") ");
        t
    }

    /// The lines of the scenario column, `col_width` cells wide, with the
    /// run statuses recorded in `statuses`.
    pub fn scenario_panel(
        &self,
        s: &UiState,
        project: &BddProject,
        statuses: &ScenarioStatusMap,
        col_width: u16,
    ) -> (lines: Vec<PanelLine>)
        ensures
            line_views(lines@) == scenario_panel_spec(s@, feature_views(project.features@), statuses@, col_width),
    {
        let ghost fv = feature_views(project.features@);
        let mut lines: Vec<PanelLine> = Vec::new();
        let fi = s.explore_selected_feature;
        if fi >= project.features.len() {
            lines.push(note("  (select a feature)", 0));
            assert(line_views(lines@) =~= seq![note_line("  (select a feature)"@, 0)]);
            return lines;
        }
        let f = &project.features[fi];
        if f.scenarios.len() == 0 {
            lines.push(note("  (no scenarios)", 0));
            assert(line_views(lines@) =~= seq![note_line("  (no scenarios)"@, 0)]);
            return lines;
        }
        let focused = match s.explore_focus {
            ColumnFocus::Scenario => true,
            _ => false,
        };
        let ghost want = scenario_panel_spec(s@, fv, statuses@, col_width);
        let mut i: usize = 0;
        while i < f.scenarios.len()
            invariant
                i <= f.scenarios.len(),
                fi < project.features.len(),
                f@ == fv[fi as int],
                f.scenarios.len() > 0,
                fv == feature_views(project.features@),
                fi == s.explore_selected_feature,
                want == scenario_panel_spec(s@, fv, statuses@, col_width),
                focused == (s@.explore_focus == ColumnFocus::Scenario),
                line_views(lines@) == want.take(i as int),
            decreases f.scenarios.len() - i,
        {
            let status = match statuses.get(fi, i) {
                Some(st) => st,
                None => String::from_str("idle"),
            };
            let dot = status_color_of(&status);
            let label = scenario_label_of(&f.scenarios[i]);
            let st = self.item_style_of(i == s.explore_selected_scenario, focused);
            let rows = self.text_rows_of(&label, col_width);
            let mut spans: Vec<StyledSpan> = Vec::new();
            spans.push(span(" ", style_plain()));
            spans.push(span("●", style_fg(dot)));
            spans.push(StyledSpan { text: label, style: st });
            let line = PanelLine { spans, rows, item: Some(i) };
            let ghost prev = line_views(lines@);
            lines.push(line);
            proof {
                assert(f@.scenarios[i as int] == f.scenarios@[i as int]@);
                assert(span_views(line.spans@) =~= want[i as int].spans);
                assert(line@ == want[i as int]);
                assert(line_views(lines@) =~= prev.push(line@));
                assert(want.take(i + 1) =~= want.take(i as int).push(want[i as int]));
            }
            i += 1;
        }
        assert(want.take(f.scenarios.len() as int) =~= want);
        lines
    }
}

// ── The step column ──────────────────────────────────────────────────────────

/// The last major keyword colour after a run of steps, starting with none.
pub open spec fn major_after(steps: Seq<StepView>) -> Option<UiColor>
    decreases steps.len(),
{
    if steps.len() == 0 {
        None
    } else {
        keyword_color_spec(steps.last().keyword_type, major_after(steps.drop_last())).1
    }
}

/// The colour of step `i`'s keyword in a run of steps.
pub open spec fn step_color(steps: Seq<StepView>, i: int) -> UiColor {
    keyword_color_spec(steps[i].keyword_type, major_after(steps.take(i))).0
}

/// A keyword right-aligned in six columns (`{:>6}`).
pub open spec fn pad_keyword(kw: Seq<char>) -> Seq<char> {
    if kw.len() < 6 {
        spaces((6 - kw.len()) as nat) + kw
    } else {
        kw
    }
}

/// The text whose length gives a step line's rows.
pub open spec fn step_row_text(st: StepView) -> Seq<char> {
    " "@ + pad_keyword(st.keyword) + " "@ + st.text
}

/// The line of background step `i`.
pub open spec fn bg_step_line(steps: Seq<StepView>, i: int, w: u16) -> PanelLineView {
    PanelLineView {
        spans: seq![
            SpanView { text: " "@ + pad_keyword(steps[i].keyword), style: fg(step_color(steps, i)) },
            SpanView { text: " "@ + steps[i].text, style: fg(text_muted()) },
        ],
        rows: text_rows(step_row_text(steps[i]), w),
        item: None,
    }
}

/// The line of scenario step `i`, its body styled when it is selected.
pub open spec fn scenario_step_line(steps: Seq<StepView>, i: int, sel: nat, focused: bool, w: u16) -> PanelLineView {
    PanelLineView {
        spans: seq![
            SpanView { text: " "@ + pad_keyword(steps[i].keyword), style: fg(step_color(steps, i)) },
            if i == sel {
                SpanView { text: " "@ + steps[i].text, style: selection_style(focused) }
            } else {
                raw(" "@ + steps[i].text)
            },
        ],
        rows: text_rows(step_row_text(steps[i]), w),
        item: Some(i as usize),
    }
}

/// An empty line, one row high.
pub open spec fn blank_line() -> PanelLineView {
    PanelLineView { spans: seq![], rows: 1, item: None }
}

/// The lines of examples tables: for each, an empty line, the heading and
/// the aligned table rows.
pub open spec fn examples_panel_lines(exs: Seq<ExamplesView>, w: u16) -> Seq<PanelLineView>
    decreases exs.len(),
{
    if exs.len() == 0 {
        seq![]
    } else {
        let ex = exs.last();
        let tl = examples_table_lines(ex.headers, ex.rows);
        examples_panel_lines(exs.drop_last(), w) + seq![
            blank_line(),
            PanelLineView {
                spans: seq![SpanView { text: " Examples:"@, style: fg(header_cyan()) }],
                rows: text_rows(" Examples:"@, w),
                item: None,
            },
        ] + Seq::new(tl.len(), |r: int| note_line("  "@ + tl[r], text_rows("  "@ + tl[r], w)))
    }
}

/// The background steps of the selected feature (none without one).
pub open spec fn selected_bg_steps(s: UiView, fs: Seq<FeatureView>) -> Seq<StepView> {
    if s.selected_feature < fs.len() {
        match fs[s.selected_feature as int].background {
            Some(b) => b.steps,
            None => seq![],
        }
    } else {
        seq![]
    }
}

/// Whether the selection names a scenario.
pub open spec fn has_selected_scenario(s: UiView, fs: Seq<FeatureView>) -> bool {
    s.selected_feature < fs.len() && s.selected_scenario < fs[s.selected_feature as int].scenarios.len()
}

/// The selected scenario (meaningful when there is one).
pub open spec fn selected_scenario_view(s: UiView, fs: Seq<FeatureView>) -> ScenarioView {
    fs[s.selected_feature as int].scenarios[s.selected_scenario as int]
}

/// The step column: the background, the selected scenario's tags, steps and
/// examples tables; or a note when there is no step at all.
pub open spec fn step_panel_spec(s: UiView, fs: Seq<FeatureView>, w: u16) -> Seq<PanelLineView> {
    let bg = selected_bg_steps(s, fs);
    let has_sc = has_selected_scenario(s, fs);
    let sc = selected_scenario_view(s, fs);
    let sc_steps = if has_sc { sc.steps } else { seq![] };
    if bg.len() == 0 && sc_steps.len() == 0 {
        seq![note_line("  (no steps)"@, 1)]
    } else {
        let bg_part = if bg.len() > 0 {
            seq![
                PanelLineView {
                    spans: seq![SpanView { text: " Background:"@, style: fg_bold(text_muted()) }],
                    rows: text_rows(" Background:"@, w),
                    item: None,
                },
            ] + Seq::new(bg.len(), |i: int| bg_step_line(bg, i, w)) + seq![blank_line()]
        } else {
            seq![]
        };
        let tag_part = if has_sc && sc.tags.len() > 0 {
            seq![note_line("  "@ + join_by(sc.tags, " "@), text_rows("  "@ + join_by(sc.tags, " "@), w))]
        } else {
            seq![]
        };
        let step_part = Seq::new(
            sc_steps.len(),
            |i: int| scenario_step_line(sc_steps, i, s.selected_step, s.explore_focus == ColumnFocus::Step, w),
        );
        let ex_part = if has_sc {
            examples_panel_lines(sc.examples, w)
        } else {
            seq![]
        };
        bg_part + tag_part + step_part + ex_part
    }
}

/// A keyword right-aligned in six columns.
fn pad_keyword_of(kw: &String) -> (t: String)
    ensures
        t@ == pad_keyword(kw@),
{
    let n = crate::text::chars_of(kw.as_str()).len();
    let mut t = String::new();
    if n < 6 {
        push_spaces(&mut t, 6 - n);
    }
    push_str(&mut t, kw.as_str());
    proof {
        if n >= 6 {
            assert(t@ =~= kw@);
        }
    }
    t
}

fn blank_panel_line() -> (l: PanelLine)
    ensures
        l@ == blank_line(),
{
    let l = PanelLine { spans: Vec::new(), rows: 1, item: None };
    assert(span_views(l.spans@) =~= Seq::<SpanView>::empty());
    l
}

fn push_panel_line(lines: &mut Vec<PanelLine>, line: PanelLine)
    ensures
        line_views(final(lines)@) == line_views(old(lines)@).push(line@),
{
    let ghost prev = line_views(lines@);
    lines.push(line);
    assert(line_views(lines@) =~= prev.push(line@));
}

impl AppUi {
    /// Appends the lines of a run of steps: background lines, or scenario
    /// lines with the selected one styled.
    fn push_step_lines(
        &self,
        lines: &mut Vec<PanelLine>,
        steps: &Vec<BddStep>,
        background: bool,
        sel: usize,
        focused: bool,
        w: u16,
    )
        ensures
            line_views(final(lines)@) == line_views(old(lines)@) + (if background {
                Seq::new(step_views(steps@).len(), |i: int| bg_step_line(step_views(steps@), i, w))
            } else {
                Seq::new(
                    step_views(steps@).len(),
                    |i: int| scenario_step_line(step_views(steps@), i, sel as nat, focused, w),
                )
            }),
    {
        let ghost sv = step_views(steps@);
        let ghost base = line_views(lines@);
        let ghost want = if background {
            Seq::new(sv.len(), |i: int| bg_step_line(sv, i, w))
        } else {
            Seq::new(sv.len(), |i: int| scenario_step_line(sv, i, sel as nat, focused, w))
        };
        let mut last_major: Option<UiColor> = None;
        let mut i: usize = 0;
        assert(sv.take(0) =~= Seq::<StepView>::empty());
        while i < steps.len()
            invariant
                i <= steps.len(),
                sv == step_views(steps@),
                want.len() == sv.len(),
                want == (if background {
                    Seq::new(sv.len(), |i: int| bg_step_line(sv, i, w))
                } else {
                    Seq::new(sv.len(), |i: int| scenario_step_line(sv, i, sel as nat, focused, w))
                }),
                last_major == major_after(sv.take(i as int)),
                line_views(lines@) == base + want.take(i as int),
            decreases steps.len() - i,
        {
            let step = &steps[i];
            let ghost lm = last_major;
            let color = self.keyword_color(step.keyword_type, &mut last_major);
            proof {
                assert(sv.take(i + 1).drop_last() =~= sv.take(i as int));
                assert(sv.take(i + 1).last() == step@);
                assert(color == step_color(sv, i as int));
            }
            let mut kw_text = String::from_str(" ");
            push_str(&mut kw_text, pad_keyword_of(&step.keyword).as_str());
            let body = concat2(" ", step.text.as_str());
            let mut row_text = kw_text.clone();
            push_str(&mut row_text, body.as_str());
            let rows = self.text_rows_of(&row_text, w);
            let mut spans: Vec<StyledSpan> = Vec::new();
            spans.push(StyledSpan { text: kw_text, style: style_fg(color) });
            let item = if background {
                spans.push(StyledSpan { text: body, style: style_fg(muted()) });
                None
            } else {
                if i == sel {
                    spans.push(StyledSpan { text: body, style: self.selected_style(focused) });
                } else {
                    spans.push(StyledSpan { text: body, style: style_plain() });
                }
                Some(i)
            };
            let line = PanelLine { spans, rows, item };
            proof {
                assert(row_text@ =~= step_row_text(sv[i as int]));
                assert(span_views(line.spans@) =~= want[i as int].spans);
                assert(line@ == want[i as int]);
            }
            push_panel_line(lines, line);
            proof {
                assert(want.take(i + 1) =~= want.take(i as int).push(want[i as int]));
                assert(base + want.take(i + 1) =~= (base + want.take(i as int)).push(want[i as int]));
            }
            i += 1;
        }
        assert(want.take(steps.len() as int) =~= want);
    }

    /// Appends the lines of examples tables.
    fn push_examples_lines(&self, lines: &mut Vec<PanelLine>, exs: &Vec<ExamplesTable>, w: u16)
        ensures
            line_views(final(lines)@) == line_views(old(lines)@) + examples_panel_lines(examples_views(exs@), w),
    {
        let ghost ev = examples_views(exs@);
        let ghost base = line_views(lines@);
        let mut k: usize = 0;
        assert(ev.take(0) =~= Seq::<ExamplesView>::empty());
        assert(line_views(lines@) =~= base + examples_panel_lines(ev.take(0), w));
        while k < exs.len()
            invariant
                k <= exs.len(),
                ev == examples_views(exs@),
                line_views(lines@) == base + examples_panel_lines(ev.take(k as int), w),
            decreases exs.len() - k,
        {
            let ex = &exs[k];
            let ghost before = line_views(lines@);
            let blank = blank_panel_line();
            push_panel_line(lines, blank);
            let heading = String::from_str(" Examples:");
            let hrows = self.text_rows_of(&heading, w);
            let mut hspans: Vec<StyledSpan> = Vec::new();
            hspans.push(StyledSpan { text: heading, style: style_fg(cyan()) });
            let hline = PanelLine { spans: hspans, rows: hrows, item: None };
            assert(span_views(hline.spans@) =~= seq![SpanView { text: " Examples:"@, style: fg(header_cyan()) }]);
            assert(hline@ == (PanelLineView {
                spans: seq![SpanView { text: " Examples:"@, style: fg(header_cyan()) }],
                rows: text_rows(" Examples:"@, w),
                item: None,
            }));
            push_panel_line(lines, hline);
            let table = render_examples_table_lines(&ex.headers, &ex.rows);
            let ghost tl = strs(table@);
            let ghost mid = line_views(lines@);
            let mut r: usize = 0;
            while r < table.len()
                invariant
                    r <= table.len(),
                    tl == strs(table@),
                    line_views(lines@) == mid + Seq::new(r as nat, |q: int| note_line("  "@ + tl[q], text_rows("  "@ + tl[q], w))),
                decreases table.len() - r,
            {
                let text = concat2("  ", table[r].as_str());
                let rows = self.text_rows_of(&text, w);
                let mut spans: Vec<StyledSpan> = Vec::new();
                spans.push(StyledSpan { text, style: style_fg(muted()) });
                let line = PanelLine { spans, rows, item: None };
                assert(span_views(line.spans@) =~= seq![SpanView { text: "  "@ + tl[r as int], style: fg(text_muted()) }]);
                push_panel_line(lines, line);
                r += 1;
                assert(line_views(lines@) =~= mid + Seq::new(r as nat, |q: int| note_line("  "@ + tl[q], text_rows("  "@ + tl[q], w))));
            }
            proof {
                let head = seq![
                    blank_line(),
                    PanelLineView {
                        spans: seq![SpanView { text: " Examples:"@, style: fg(header_cyan()) }],
                        rows: text_rows(" Examples:"@, w),
                        item: None,
                    },
                ];
                let body = Seq::new(tl.len(), |q: int| note_line("  "@ + tl[q], text_rows("  "@ + tl[q], w)));
                assert(mid =~= before + head);
                assert(ev.take(k + 1).drop_last() =~= ev.take(k as int));
                assert(ev.take(k + 1).last() == ex@);
                assert(tl == examples_table_lines(ex@.headers, ex@.rows));
                assert(examples_panel_lines(ev.take(k + 1), w) == examples_panel_lines(ev.take(k as int), w) + head + body);
                assert(line_views(lines@) =~= base + examples_panel_lines(ev.take(k + 1), w));
            }
            k += 1;
        }
        assert(ev.take(exs.len() as int) =~= ev);
    }

    /// The lines of the step column, `col_width` cells wide.
    pub fn step_panel(&self, s: &UiState, project: &BddProject, col_width: u16) -> (lines: Vec<PanelLine>)
        ensures
            line_views(lines@) == step_panel_spec(s@, feature_views(project.features@), col_width),
    {
        let ghost fv = feature_views(project.features@);
        let fi = s.explore_selected_feature;
        let si = s.explore_selected_scenario;
        let empty_steps: Vec<BddStep> = Vec::new();
        let empty_examples: Vec<ExamplesTable> = Vec::new();
        let empty_tags: Vec<String> = Vec::new();
        let has_feature = fi < project.features.len();
        let bg_steps: &Vec<BddStep> = if has_feature {
            match &project.features[fi].background {
                Some(b) => &b.steps,
                None => &empty_steps,
            }
        } else {
            &empty_steps
        };
        let has_sc = has_feature && si < project.features[fi].scenarios.len();
        let (sc_steps, sc_tags, sc_examples): (&Vec<BddStep>, &Vec<String>, &Vec<ExamplesTable>) = if has_sc {
            let sc = &project.features[fi].scenarios[si];
            (&sc.steps, &sc.tags, &sc.examples)
        } else {
            (&empty_steps, &empty_tags, &empty_examples)
        };
        proof {
            assert(step_views(bg_steps@) == selected_bg_steps(s@, fv));
            if has_sc {
                assert(step_views(sc_steps@) == selected_scenario_view(s@, fv).steps);
                assert(strs(sc_tags@) == selected_scenario_view(s@, fv).tags);
                assert(examples_views(sc_examples@) == selected_scenario_view(s@, fv).examples);
            } else {
                assert(step_views(sc_steps@) =~= Seq::<StepView>::empty());
            }
        }
        let mut lines: Vec<PanelLine> = Vec::new();
        if bg_steps.len() == 0 && sc_steps.len() == 0 {
            push_panel_line(&mut lines, note("  (no steps)", 1));
            assert(line_views(lines@) =~= seq![note_line("  (no steps)"@, 1)]);
            return lines;
        }
        let ghost p0 = line_views(lines@);
        if bg_steps.len() > 0 {
            let heading = String::from_str(" Background:");
            let hrows = self.text_rows_of(&heading, col_width);
            let mut hspans: Vec<StyledSpan> = Vec::new();
            hspans.push(StyledSpan { text: heading, style: style_fg_bold(muted()) });
            let hline = PanelLine { spans: hspans, rows: hrows, item: None };
            assert(span_views(hline.spans@) =~= seq![SpanView { text: " Background:"@, style: fg_bold(text_muted()) }]);
            push_panel_line(&mut lines, hline);
            self.push_step_lines(&mut lines, bg_steps, true, 0, false, col_width);
            push_panel_line(&mut lines, blank_panel_line());
        }
        let ghost p1 = line_views(lines@);
        if has_sc && sc_tags.len() > 0 {
            let mut t = String::from_str("  ");
            push_str(&mut t, join_strings(sc_tags, " ").as_str());
            let rows = self.text_rows_of(&t, col_width);
            push_panel_line(&mut lines, note(t.as_str(), rows));
        }
        let ghost p2 = line_views(lines@);
        let focused = match s.explore_focus {
            ColumnFocus::Step => true,
            _ => false,
        };
        self.push_step_lines(&mut lines, sc_steps, false, s.explore_selected_step, focused, col_width);
        let ghost p3 = line_views(lines@);
        if has_sc {
            self.push_examples_lines(&mut lines, sc_examples, col_width);
        }
        proof {
            let spec = step_panel_spec(s@, fv, col_width);
            let bg = selected_bg_steps(s@, fv);
            assert(p0 =~= Seq::<PanelLineView>::empty());
            if !has_sc {
                assert(examples_views(sc_examples@) =~= Seq::<ExamplesView>::empty());
            }
            assert(line_views(lines@) =~= spec);
        }
        lines
    }
}

// ── Laws ─────────────────────────────────────────────────────────────────────

/// When the lines of a column show items 0, 1, 2, … in order, each item gets
/// exactly one region, in order, on the row where its line starts.
pub proof fn lemma_each_item_gets_its_region(ls: Seq<PanelLineView>, kind: PanelKind, inner: CellRect)
    requires
        forall|i: int| 0 <= i < ls.len() ==> (#[trigger] ls[i]).item == Some(i as usize),
    ensures
        panel_regions(ls, kind, inner).len() == ls.len(),
        forall|i: int|
            0 <= i < ls.len() ==> #[trigger] panel_regions(ls, kind, inner)[i] == item_region(
                kind,
                i as usize,
                (inner.y + total_rows(ls.take(i))) as u16,
                inner,
            ),
    decreases ls.len(),
{
    if ls.len() > 0 {
        let init = ls.drop_last();
        assert forall|i: int| 0 <= i < init.len() implies (#[trigger] init[i]).item == Some(i as usize) by {
            assert(init[i] == ls[i]);
        }
        lemma_each_item_gets_its_region(init, kind, inner);
        assert(ls.last() == ls[ls.len() - 1]);
        assert(ls.take(ls.len() - 1) =~= init);
        assert forall|i: int| 0 <= i < ls.len() implies #[trigger] panel_regions(ls, kind, inner)[i] == item_region(
            kind,
            i as usize,
            (inner.y + total_rows(ls.take(i))) as u16,
            inner,
        ) by {
            if i < init.len() {
                assert(init.take(i) =~= ls.take(i));
            }
        }
    }
}

/// The feature column's regions: with features to list, feature `i`'s
/// region is the `i`-th, on the row where its line starts.
pub proof fn lemma_feature_regions_follow_features(s: UiView, labels: Seq<Seq<char>>, w: u16, inner: CellRect)
    requires
        labels.len() > 0,
    ensures
        ({
            let ls = feature_panel_spec(s, labels, w);
            &&& panel_regions(ls, PanelKind::Feature, inner).len() == labels.len()
            &&& forall|i: int|
                0 <= i < labels.len() ==> #[trigger] panel_regions(ls, PanelKind::Feature, inner)[i]
                    == ClickableRegion::ExploreFeature {
                    feature_idx: i as usize,
                    row_y: (inner.y + total_rows(ls.take(i))) as u16,
                    col_x: inner.x,
                    col_right: inner.right_spec(),
                }
        }),
{
    let ls = feature_panel_spec(s, labels, w);
    lemma_each_item_gets_its_region(ls, PanelKind::Feature, inner);
}

proof fn lemma_rows_increase(ls: Seq<PanelLineView>, j: int, i: int)
    requires
        0 <= j < i <= ls.len(),
        forall|k: int| 0 <= k < ls.len() ==> (#[trigger] ls[k]).rows > 0,
    ensures
        total_rows(ls.take(j)) < total_rows(ls.take(i)),
    decreases i - j,
{
    assert(ls.take(j + 1).drop_last() =~= ls.take(j));
    assert(ls.take(j + 1).last() == ls[j]);
    if j + 1 < i {
        lemma_rows_increase(ls, j + 1, i);
    }
}

proof fn lemma_first_hit_at(
    rs: Seq<ClickableRegion>,
    k: nat,
    i: nat,
    col: u16,
    row: u16,
    tab: nat,
    tree: Option<CellRect>,
)
    requires
        k <= i < rs.len(),
        forall|j: int| k <= j < i ==> !region_hit(#[trigger] rs[j], col, row, tab, tree),
        region_hit(rs[i as int], col, row, tab, tree),
    ensures
        first_hit(rs, k, col, row, tab, tree) == Some(i),
    decreases i - k,
{
    if k < i {
        lemma_first_hit_at(rs, k + 1, i, col, row, tab, tree);
    }
}

/// Clicking the first cell of a feature's line in the feature column
/// selects that feature, focuses the column and starts its scenarios and
/// steps from the top; this holds when the column fits the terminal's rows
/// and every line takes a row.
pub proof fn lemma_clicking_a_feature_selects_it(
    s: UiView,
    labels: Seq<Seq<char>>,
    w: u16,
    inner: CellRect,
    tree: Option<CellRect>,
    i: int,
)
    requires
        0 <= i < labels.len(),
        labels.len() <= usize::MAX,
        inner.width > 0,
        inner.x + inner.width <= u16::MAX,
        inner.y + total_rows(feature_panel_spec(s, labels, w)) <= u16::MAX,
        forall|k: int| 0 <= k < labels.len() ==> #[trigger] text_rows(" "@ + labels[k], w) > 0,
    ensures
        ({
            let ls = feature_panel_spec(s, labels, w);
            let row = (inner.y + total_rows(ls.take(i))) as u16;
            mouse_step(s, panel_regions(ls, PanelKind::Feature, inner), tree, true, Some(inner.x), Some(row)) == (
                UiView {
                    selected_feature: i as nat,
                    explore_focus: ColumnFocus::Feature,
                    selected_scenario: 0,
                    selected_step: 0,
                    ..s
                },
                MouseEffect::Nothing,
            )
        }),
{
    let ls = feature_panel_spec(s, labels, w);
    let rs = panel_regions(ls, PanelKind::Feature, inner);
    let row = (inner.y + total_rows(ls.take(i))) as u16;
    lemma_feature_regions_follow_features(s, labels, w, inner);
    assert forall|k: int| 0 <= k < ls.len() implies (#[trigger] ls[k]).rows > 0 by {
        assert(ls[k].rows == text_rows(" "@ + labels[k], w));
    }
    lemma_total_rows_prefix(ls, i);
    assert forall|j: int| 0 <= j < i implies !region_hit(#[trigger] rs[j], inner.x, row, s.active_tab, tree) by {
        lemma_rows_increase(ls, j, i);
        lemma_total_rows_prefix(ls, j);
    }
    assert(region_hit(rs[i], inner.x, row, s.active_tab, tree));
    lemma_first_hit_at(rs, 0, i as nat, inner.x, row, s.active_tab, tree);
    assert(rs[i] == ClickableRegion::ExploreFeature {
        feature_idx: i as usize,
        row_y: row,
        col_x: inner.x,
        col_right: inner.right_spec(),
    });
    assert((i as usize) as nat == i as nat);
}

} // verus!

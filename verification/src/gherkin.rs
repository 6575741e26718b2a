//! Gherkin feature files: the syntax tree and its parser.
//!
//! A feature file is read line by line.  The functions below describe, over
//! the trimmed lines of the file, exactly what each part of the parser reads
//! and where it stops; the executable parser is proved to compute them.

use vstd::prelude::*;
use crate::text::{
    lines_of, split_lines, lemma_trimmed_end, join_by, trimmed_within, lemma_split_join,
    lemma_trim_is_trimmed_within,
    chars_of, has_prefix_str, is_white_space, join_spaced, split_on, split_on_char, split_words,
    starts_with, starts_with_char, string_of, strs, sub_chars, texts, trim, trim_chars, words,
    lemma_strs_push, lemma_texts_push,
};

verus! {

// ── Syntax tree ──────────────────────────────────────────────────────────────

/// Root container for all loaded feature files.
#[derive(Debug)]
pub struct BddProject {
    /// The project's root directory, as a path written out in text.
    pub root_dir: String,
    pub features: Vec<BddFeature>,
}

/// One `.feature` file parsed into structure.
#[derive(Debug)]
pub struct BddFeature {
    /// The file the feature was read from, as a path written out in text.
    pub file_path: String,
    pub name: String,
    pub tags: Vec<String>,
    pub description: Vec<String>,
    pub background: Option<BddBackground>,
    pub scenarios: Vec<BddScenario>,
    pub line_count: usize,
}

/// `Background:` block: shared steps prepended to every scenario.
#[derive(Debug, Clone)]
pub struct BddBackground {
    pub steps: Vec<BddStep>,
    /// 1-based line number of the `Background:` keyword.
    pub line_number: usize,
}

/// A `Scenario:` or `Scenario Outline:` block.
#[derive(Debug, Clone)]
pub struct BddScenario {
    pub name: String,
    pub tags: Vec<String>,
    pub kind: ScenarioKind,
    pub steps: Vec<BddStep>,
    pub examples: Vec<ExamplesTable>,
    /// 1-based line number of the `Scenario:` / `Scenario Outline:` keyword.
    pub line_number: usize,
}

/// A single step line (e.g. `Given I am on the login page`).
#[derive(Debug, Clone)]
pub struct BddStep {
    /// Leading keyword text as written in the source (e.g. "Given").
    pub keyword: String,
    /// Normalised keyword type, independent of language.
    pub keyword_type: StepKeywordType,
    /// Body text after the keyword (without the one space that follows it).
    pub text: String,
    /// 1-based line number.
    pub line_number: usize,
}

/// `Examples:` data table attached to a `Scenario Outline`.
#[derive(Debug, Clone)]
pub struct ExamplesTable {
    pub tags: Vec<String>,
    pub headers: Vec<String>,
    pub rows: Vec<Vec<String>>,
    /// 1-based line number of the `Examples:` keyword.
    pub line_number: usize,
}

/// Distinguishes regular scenarios from outline templates.
#[derive(Debug, Clone, Copy, PartialEq, Eq, Structural)]
pub enum ScenarioKind {
    Scenario,
    ScenarioOutline,
}

/// Normalised step keyword type, independent of language.
#[derive(Debug, Clone, Copy, PartialEq, Eq, Structural)]
pub enum StepKeywordType {
    Given,
    When,
    Then,
    And,
    But,
}

// ── Mathematical model of the tree ───────────────────────────────────────────

/// A step as plain values.
pub struct StepView {
    pub keyword: Seq<char>,
    pub keyword_type: StepKeywordType,
    pub text: Seq<char>,
    pub line_number: nat,
}

/// An examples table as plain values.
pub struct ExamplesView {
    pub tags: Seq<Seq<char>>,
    pub headers: Seq<Seq<char>>,
    pub rows: Seq<Seq<Seq<char>>>,
    pub line_number: nat,
}

/// A background block as plain values.
pub struct BackgroundView {
    pub steps: Seq<StepView>,
    pub line_number: nat,
}

/// A scenario as plain values.
pub struct ScenarioView {
    pub name: Seq<char>,
    pub tags: Seq<Seq<char>>,
    pub kind: ScenarioKind,
    pub steps: Seq<StepView>,
    pub examples: Seq<ExamplesView>,
    pub line_number: nat,
}

/// A feature file as plain values (its path is carried, not modelled).
pub struct FeatureView {
    pub name: Seq<char>,
    pub tags: Seq<Seq<char>>,
    pub description: Seq<Seq<char>>,
    pub background: Option<BackgroundView>,
    pub scenarios: Seq<ScenarioView>,
    pub line_count: nat,
}

impl View for BddStep {
    type V = StepView;

    open spec fn view(&self) -> StepView {
        StepView {
            keyword: self.keyword@,
            keyword_type: self.keyword_type,
            text: self.text@,
            line_number: self.line_number as nat,
        }
    }
}

/// The views of a sequence of steps.
pub open spec fn step_views(v: Seq<BddStep>) -> Seq<StepView> {
    Seq::new(v.len(), |i: int| v[i]@)
}

impl View for ExamplesTable {
    type V = ExamplesView;

    open spec fn view(&self) -> ExamplesView {
        ExamplesView {
            tags: strs(self.tags@),
            headers: strs(self.headers@),
            rows: rows_view(self.rows@),
            line_number: self.line_number as nat,
        }
    }
}

/// The texts of the cells of table rows.
pub open spec fn rows_view(v: Seq<Vec<String>>) -> Seq<Seq<Seq<char>>> {
    Seq::new(v.len(), |i: int| strs(v[i]@))
}

/// The views of a sequence of examples tables.
pub open spec fn examples_views(v: Seq<ExamplesTable>) -> Seq<ExamplesView> {
    Seq::new(v.len(), |i: int| v[i]@)
}

impl View for BddBackground {
    type V = BackgroundView;

    open spec fn view(&self) -> BackgroundView {
        BackgroundView { steps: step_views(self.steps@), line_number: self.line_number as nat }
    }
}

impl View for BddScenario {
    type V = ScenarioView;

    open spec fn view(&self) -> ScenarioView {
        ScenarioView {
            name: self.name@,
            tags: strs(self.tags@),
            kind: self.kind,
            steps: step_views(self.steps@),
            examples: examples_views(self.examples@),
            line_number: self.line_number as nat,
        }
    }
}

/// The views of a sequence of scenarios.
pub open spec fn scenario_views(v: Seq<BddScenario>) -> Seq<ScenarioView> {
    Seq::new(v.len(), |i: int| v[i]@)
}

/// The view of an optional background.
pub open spec fn background_view(b: Option<BddBackground>) -> Option<BackgroundView> {
    match b {
        Some(bg) => Some(bg@),
        None => None,
    }
}

impl View for BddFeature {
    type V = FeatureView;

    open spec fn view(&self) -> FeatureView {
        FeatureView {
            name: self.name@,
            tags: strs(self.tags@),
            description: strs(self.description@),
            background: background_view(self.background),
            scenarios: scenario_views(self.scenarios@),
            line_count: self.line_count as nat,
        }
    }
}

/// The views of a sequence of features.
pub open spec fn feature_views(v: Seq<BddFeature>) -> Seq<FeatureView> {
    Seq::new(v.len(), |i: int| v[i]@)
}


// ── The grammar, line by line ────────────────────────────────────────────────

/// The trimmed text of line `i`.
pub open spec fn tl(ls: Seq<Seq<char>>, i: int) -> Seq<char> {
    trim(ls[i])
}

/// A trimmed line that is empty or a `#` comment.
pub open spec fn is_blank_or_comment(t: Seq<char>) -> bool {
    t.len() == 0 || starts_with_char(t, '#')
}

/// The first line at or after `i` that is neither blank nor a comment.
pub open spec fn skip_blank(ls: Seq<Seq<char>>, i: nat) -> nat
    decreases ls.len() - i,
{
    if i < ls.len() && is_blank_or_comment(tl(ls, i as int)) {
        skip_blank(ls, i + 1)
    } else {
        i
    }
}

/// The first line at or after `i` whose trimmed text is not empty.
pub open spec fn skip_empty(ls: Seq<Seq<char>>, i: nat) -> nat
    decreases ls.len() - i,
{
    if i < ls.len() && tl(ls, i as int).len() == 0 {
        skip_empty(ls, i + 1)
    } else {
        i
    }
}

/// The words of a sequence that start with `@`, in order.
pub open spec fn at_words(ws: Seq<Seq<char>>) -> Seq<Seq<char>>
    decreases ws.len(),
{
    if ws.len() == 0 {
        seq![]
    } else if starts_with_char(ws.last(), '@') {
        at_words(ws.drop_last()).push(ws.last())
    } else {
        at_words(ws.drop_last())
    }
}

/// The tags of a tag line: its words that start with `@`.
pub open spec fn line_tags(t: Seq<char>) -> Seq<Seq<char>> {
    at_words(words(t))
}

/// The tags on the consecutive tag lines (lines starting with `@`) from `i`,
/// and the first line after them.
pub open spec fn collect_tags(ls: Seq<Seq<char>>, i: nat) -> (Seq<Seq<char>>, nat)
    decreases ls.len() - i,
{
    if i < ls.len() && starts_with_char(tl(ls, i as int), '@') {
        let rest = collect_tags(ls, i + 1);
        (line_tags(tl(ls, i as int)) + rest.0, rest.1)
    } else {
        (seq![], i)
    }
}

/// The source text of a step keyword.
pub open spec fn keyword_text(k: StepKeywordType) -> Seq<char> {
    match k {
        StepKeywordType::Given => "Given"@,
        StepKeywordType::When => "When"@,
        StepKeywordType::Then => "Then"@,
        StepKeywordType::And => "And"@,
        StepKeywordType::But => "But"@,
    }
}

/// Whether `t` starts with the keyword `kw` followed by nothing or a space.
pub open spec fn keyword_matches(t: Seq<char>, kw: Seq<char>) -> bool {
    kw.is_prefix_of(t) && (t.len() == kw.len() || t[kw.len() as int] == ' ')
}

/// The step keyword a trimmed line starts with, trying Given, When, Then,
/// And and But in that order.
pub open spec fn step_kind(t: Seq<char>) -> Option<StepKeywordType> {
    if keyword_matches(t, "Given"@) {
        Some(StepKeywordType::Given)
    } else if keyword_matches(t, "When"@) {
        Some(StepKeywordType::When)
    } else if keyword_matches(t, "Then"@) {
        Some(StepKeywordType::Then)
    } else if keyword_matches(t, "And"@) {
        Some(StepKeywordType::And)
    } else if keyword_matches(t, "But"@) {
        Some(StepKeywordType::But)
    } else {
        None
    }
}

/// The body of a step line: what follows the keyword, without one leading space.
pub open spec fn step_body(t: Seq<char>, kw: Seq<char>) -> Seq<char> {
    let rest = t.skip(kw.len() as int);
    if starts_with_char(rest, ' ') {
        rest.drop_first()
    } else {
        rest
    }
}

/// The step a trimmed line holds, if it starts with a step keyword.
pub open spec fn step_of(t: Seq<char>, line_number: nat) -> Option<StepView> {
    match step_kind(t) {
        Some(k) => Some(
            StepView {
                keyword: keyword_text(k),
                keyword_type: k,
                text: step_body(t, keyword_text(k)),
                line_number,
            },
        ),
        None => None,
    }
}

/// Whether a trimmed line starts a structural element of a feature file.
pub open spec fn is_structural(t: Seq<char>) -> bool {
    ||| "Feature:"@.is_prefix_of(t)
    ||| "Background:"@.is_prefix_of(t)
    ||| "Scenario Outline:"@.is_prefix_of(t)
    ||| "Scenario:"@.is_prefix_of(t)
    ||| "Examples:"@.is_prefix_of(t)
    ||| step_kind(t) is Some
}

/// The line after the doc string that starts at `k - 1`: the first line at
/// or after `k` whose trimmed text starts with `marker`, plus one.
pub open spec fn doc_string_end(ls: Seq<Seq<char>>, k: nat, marker: Seq<char>) -> nat
    decreases ls.len() - k,
{
    if k >= ls.len() {
        k
    } else if marker.is_prefix_of(tl(ls, k as int)) {
        k + 1
    } else {
        doc_string_end(ls, k + 1, marker)
    }
}

/// The first line at or after `k` that is not a table row (`|...`).
pub open spec fn skip_table(ls: Seq<Seq<char>>, k: nat) -> nat
    decreases ls.len() - k,
{
    if k < ls.len() && starts_with_char(tl(ls, k as int), '|') {
        skip_table(ls, k + 1)
    } else {
        k
    }
}

/// Where reading resumes after the doc string or data table (if any) that
/// follows a step, from line `i`.
pub open spec fn skip_step_argument(ls: Seq<Seq<char>>, i: nat) -> nat {
    let j = skip_empty(ls, i);
    if j >= ls.len() {
        j
    } else if "\"\"\""@.is_prefix_of(tl(ls, j as int)) {
        doc_string_end(ls, j + 1, "\"\"\""@)
    } else if "```"@.is_prefix_of(tl(ls, j as int)) {
        doc_string_end(ls, j + 1, "```"@)
    } else if starts_with_char(tl(ls, j as int), '|') {
        skip_table(ls, j)
    } else {
        j
    }
}

pub proof fn lemma_skip_blank_bounds(ls: Seq<Seq<char>>, i: nat)
    ensures
        i <= skip_blank(ls, i),
        i <= ls.len() ==> skip_blank(ls, i) <= ls.len(),
    decreases ls.len() - i,
{
    if i < ls.len() && is_blank_or_comment(tl(ls, i as int)) {
        lemma_skip_blank_bounds(ls, i + 1);
    }
}

pub proof fn lemma_skip_empty_bounds(ls: Seq<Seq<char>>, i: nat)
    ensures
        i <= skip_empty(ls, i),
        i <= ls.len() ==> skip_empty(ls, i) <= ls.len(),
    decreases ls.len() - i,
{
    if i < ls.len() && tl(ls, i as int).len() == 0 {
        lemma_skip_empty_bounds(ls, i + 1);
    }
}

pub proof fn lemma_collect_tags_bounds(ls: Seq<Seq<char>>, i: nat)
    ensures
        i <= collect_tags(ls, i).1,
        i <= ls.len() ==> collect_tags(ls, i).1 <= ls.len(),
    decreases ls.len() - i,
{
    if i < ls.len() && starts_with_char(tl(ls, i as int), '@') {
        lemma_collect_tags_bounds(ls, i + 1);
    }
}

pub proof fn lemma_doc_string_end_bounds(ls: Seq<Seq<char>>, k: nat, marker: Seq<char>)
    ensures
        k <= doc_string_end(ls, k, marker),
        k <= ls.len() ==> doc_string_end(ls, k, marker) <= ls.len(),
    decreases ls.len() - k,
{
    if k < ls.len() && !marker.is_prefix_of(tl(ls, k as int)) {
        lemma_doc_string_end_bounds(ls, k + 1, marker);
    }
}

pub proof fn lemma_skip_table_bounds(ls: Seq<Seq<char>>, k: nat)
    ensures
        k <= skip_table(ls, k),
        k <= ls.len() ==> skip_table(ls, k) <= ls.len(),
    decreases ls.len() - k,
{
    if k < ls.len() && starts_with_char(tl(ls, k as int), '|') {
        lemma_skip_table_bounds(ls, k + 1);
    }
}

pub proof fn lemma_skip_step_argument_bounds(ls: Seq<Seq<char>>, i: nat)
    ensures
        i <= skip_step_argument(ls, i),
        i <= ls.len() ==> skip_step_argument(ls, i) <= ls.len(),
{
    lemma_skip_empty_bounds(ls, i);
    let j = skip_empty(ls, i);
    lemma_doc_string_end_bounds(ls, j + 1, "\"\"\""@);
    lemma_doc_string_end_bounds(ls, j + 1, "```"@);
    lemma_skip_table_bounds(ls, j);
}

/// The steps from line `i` on (blank and comment lines between them are
/// passed over, each step's doc string or table skipped), and the first
/// line that is not part of them.
pub open spec fn parse_steps_spec(ls: Seq<Seq<char>>, i: nat) -> (Seq<StepView>, nat)
    decreases ls.len() - i,
{
    if i >= ls.len() {
        (seq![], i)
    } else if is_blank_or_comment(tl(ls, i as int)) {
        parse_steps_spec(ls, i + 1)
    } else {
        match step_of(tl(ls, i as int), i + 1) {
            Some(st) => {
                let j = skip_step_argument(ls, i + 1);
                proof {
                    lemma_skip_step_argument_bounds(ls, i + 1);
                }
                let rest = parse_steps_spec(ls, j);
                (seq![st] + rest.0, rest.1)
            },
            None => (seq![], i),
        }
    }
}

pub proof fn lemma_parse_steps_bounds(ls: Seq<Seq<char>>, i: nat)
    ensures
        i <= parse_steps_spec(ls, i).1,
        i <= ls.len() ==> parse_steps_spec(ls, i).1 <= ls.len(),
    decreases ls.len() - i,
{
    if i < ls.len() {
        if is_blank_or_comment(tl(ls, i as int)) {
            lemma_parse_steps_bounds(ls, i + 1);
        } else if step_of(tl(ls, i as int), i + 1) is Some {
            lemma_skip_step_argument_bounds(ls, i + 1);
            lemma_parse_steps_bounds(ls, skip_step_argument(ls, i + 1));
        }
    }
}

/// The cells of a table row: the trimmed row without its outer pipes, split
/// at `|`, each cell trimmed.  When the row has no closing pipe the whole
/// trimmed row is split.
pub open spec fn table_row(line: Seq<char>) -> Seq<Seq<char>> {
    split_on(row_inner(line), '|').map_values(|c: Seq<char>| trim(c))
}

/// The text of a table row between its outer pipes: the trimmed row without
/// its first and last pipe, or the whole trimmed row when it does not end
/// with a pipe.
pub open spec fn row_inner(line: Seq<char>) -> Seq<char> {
    let t = trim(line);
    let a = if starts_with_char(t, '|') {
        t.drop_first()
    } else {
        t
    };
    if a.len() > 0 && a.last() == '|' {
        a.drop_last()
    } else {
        t
    }
}

/// The cells of a table row are the texts between its pipes with the white
/// space at their edges removed: a trimmed row that starts and ends with a
/// pipe is its inner text between those two pipes, the pieces of the row's inner text, joined
/// with `|`, give that text back, no piece holds a pipe, there is one cell
/// per piece, and each cell is its piece less the white space at its two
/// ends (so white space inside a cell is kept).
pub proof fn lemma_table_row_cells(line: Seq<char>)
    ensures
        trim(line).len() >= 2 && trim(line)[0] == '|' && trim(line).last() == '|' ==> trim(line) == seq!['|']
            + row_inner(line) + seq!['|'],
        join_by(split_on(row_inner(line), '|'), seq!['|']) == row_inner(line),
        forall|i: int| 0 <= i < split_on(row_inner(line), '|').len()
            ==> !(#[trigger] split_on(row_inner(line), '|')[i]).contains('|'),
        table_row(line).len() == split_on(row_inner(line), '|').len(),
        forall|i: int| 0 <= i < table_row(line).len()
            ==> trimmed_within(#[trigger] table_row(line)[i], split_on(row_inner(line), '|')[i]),
{
    let ps = split_on(row_inner(line), '|');
    let t = trim(line);
    if t.len() >= 2 && t[0] == '|' && t.last() == '|' {
        assert(t =~= seq!['|'] + row_inner(line) + seq!['|']);
    }
    lemma_split_join(row_inner(line), '|', seq![]);
    assert(Seq::<char>::empty() + row_inner(line) =~= row_inner(line));
    assert forall|i: int| 0 <= i < table_row(line).len() implies trimmed_within(
        #[trigger] table_row(line)[i],
        ps[i],
    ) by {
        lemma_trim_is_trimmed_within(ps[i]);
    }
}

/// The data rows (table row lines) from `k` on, and the first line after them.
pub open spec fn table_rows(ls: Seq<Seq<char>>, k: nat) -> (Seq<Seq<Seq<char>>>, nat)
    decreases ls.len() - k,
{
    if k < ls.len() && starts_with_char(tl(ls, k as int), '|') {
        let rest = table_rows(ls, k + 1);
        (seq![table_row(ls[k as int])] + rest.0, rest.1)
    } else {
        (seq![], k)
    }
}

pub proof fn lemma_table_rows_bounds(ls: Seq<Seq<char>>, k: nat)
    ensures
        k <= table_rows(ls, k).1,
        k <= ls.len() ==> table_rows(ls, k).1 <= ls.len(),
    decreases ls.len() - k,
{
    if k < ls.len() && starts_with_char(tl(ls, k as int), '|') {
        lemma_table_rows_bounds(ls, k + 1);
    }
}

/// The header row and data rows of the table after an `Examples:` line,
/// starting at line `m`, and the first line after the table.
pub open spec fn examples_table(ls: Seq<Seq<char>>, m: nat) -> (
    Seq<Seq<char>>,
    Seq<Seq<Seq<char>>>,
    nat,
) {
    let m2 = skip_empty(ls, m);
    if m2 < ls.len() && starts_with_char(tl(ls, m2 as int), '|') {
        let rows = table_rows(ls, m2 + 1);
        (table_row(ls[m2 as int]), rows.0, rows.1)
    } else {
        let rows = table_rows(ls, m2);
        (seq![], rows.0, rows.1)
    }
}

pub proof fn lemma_examples_table_bounds(ls: Seq<Seq<char>>, m: nat)
    ensures
        m <= examples_table(ls, m).2,
        m <= ls.len() ==> examples_table(ls, m).2 <= ls.len(),
{
    lemma_skip_empty_bounds(ls, m);
    let m2 = skip_empty(ls, m);
    lemma_table_rows_bounds(ls, m2);
    lemma_table_rows_bounds(ls, m2 + 1);
}

/// The `Examples:` blocks from line `i` on, each with the tags above it,
/// and where reading resumes.  When the next block is not an `Examples:`
/// block, reading resumes before its tags, or at `i` when it has none.
pub open spec fn parse_examples_spec(ls: Seq<Seq<char>>, i: nat) -> (Seq<ExamplesView>, nat)
    decreases ls.len() - i,
{
    let peek = skip_blank(ls, i);
    let tags = collect_tags(ls, peek);
    let k = tags.1;
    if k >= ls.len() {
        (seq![], if tags.0.len() > 0 { peek } else { k })
    } else if !"Examples:"@.is_prefix_of(tl(ls, k as int)) {
        (seq![], if tags.0.len() == 0 { i } else { peek })
    } else {
        let table = examples_table(ls, k + 1);
        proof {
            lemma_skip_blank_bounds(ls, i);
            lemma_collect_tags_bounds(ls, peek);
            lemma_examples_table_bounds(ls, k + 1);
        }
        let rest = parse_examples_spec(ls, table.2);
        (
            seq![
                ExamplesView {
                    tags: tags.0,
                    headers: table.0,
                    rows: table.1,
                    line_number: k + 1,
                },
            ] + rest.0,
            rest.1,
        )
    }
}

pub proof fn lemma_parse_examples_bounds(ls: Seq<Seq<char>>, i: nat)
    ensures
        i <= parse_examples_spec(ls, i).1,
        i <= ls.len() ==> parse_examples_spec(ls, i).1 <= ls.len(),
    decreases ls.len() - i,
{
    let peek = skip_blank(ls, i);
    lemma_skip_blank_bounds(ls, i);
    lemma_collect_tags_bounds(ls, peek);
    let k = collect_tags(ls, peek).1;
    if k < ls.len() && "Examples:"@.is_prefix_of(tl(ls, k as int)) {
        lemma_examples_table_bounds(ls, k + 1);
        lemma_parse_examples_bounds(ls, examples_table(ls, k + 1).2);
    }
}

/// The free-text description lines from `i` on (non-empty, non-comment
/// lines before the first structural line or tag line), and where it ends.
pub open spec fn description_spec(ls: Seq<Seq<char>>, i: nat) -> (Seq<Seq<char>>, nat)
    decreases ls.len() - i,
{
    if i < ls.len() && (is_blank_or_comment(tl(ls, i as int)) || (!is_structural(tl(ls, i as int))
        && !starts_with_char(tl(ls, i as int), '@'))) {
        let rest = description_spec(ls, i + 1);
        if is_blank_or_comment(tl(ls, i as int)) {
            rest
        } else {
            (seq![tl(ls, i as int)] + rest.0, rest.1)
        }
    } else {
        (seq![], i)
    }
}

pub proof fn lemma_description_bounds(ls: Seq<Seq<char>>, i: nat)
    ensures
        i <= description_spec(ls, i).1,
        i <= ls.len() ==> description_spec(ls, i).1 <= ls.len(),
    decreases ls.len() - i,
{
    if i < ls.len() {
        lemma_description_bounds(ls, i + 1);
    }
}

/// The name after a keyword on a trimmed line, trimmed.
pub open spec fn name_after(t: Seq<char>, kw: Seq<char>) -> Seq<char> {
    trim(t.skip(kw.len() as int))
}

/// The background (the last one given wins) and the scenarios of the body of
/// a feature file from line `i` on.  A line that starts no block is passed over.
pub open spec fn parse_body_spec(ls: Seq<Seq<char>>, i: nat) -> (
    Option<BackgroundView>,
    Seq<ScenarioView>,
)
    decreases ls.len() - i,
{
    let j = skip_blank(ls, i);
    let tags = collect_tags(ls, j);
    let k = tags.1;
    if i >= ls.len() || j >= ls.len() || k >= ls.len() {
        (None, seq![])
    } else {
        proof {
            lemma_skip_blank_bounds(ls, i);
            lemma_collect_tags_bounds(ls, j);
            lemma_parse_steps_bounds(ls, k + 1);
            lemma_parse_examples_bounds(ls, parse_steps_spec(ls, k + 1).1);
        }
        let t = tl(ls, k as int);
        if "Background:"@.is_prefix_of(t) {
            let steps = parse_steps_spec(ls, k + 1);
            let rest = parse_body_spec(ls, steps.1);
            (
                if rest.0 is Some {
                    rest.0
                } else {
                    Some(BackgroundView { steps: steps.0, line_number: k + 1 })
                },
                rest.1,
            )
        } else if "Scenario Outline:"@.is_prefix_of(t) || "Scenario:"@.is_prefix_of(t) {
            let outline = "Scenario Outline:"@.is_prefix_of(t);
            let steps = parse_steps_spec(ls, k + 1);
            let examples = parse_examples_spec(ls, steps.1);
            let rest = parse_body_spec(ls, examples.1);
            let sc = ScenarioView {
                name: if outline {
                    name_after(t, "Scenario Outline:"@)
                } else {
                    name_after(t, "Scenario:"@)
                },
                tags: tags.0,
                kind: if outline {
                    ScenarioKind::ScenarioOutline
                } else {
                    ScenarioKind::Scenario
                },
                steps: steps.0,
                examples: examples.0,
                line_number: k + 1,
            };
            (rest.0, seq![sc] + rest.1)
        } else {
            parse_body_spec(ls, k + 1)
        }
    }
}

/// The feature that a file with the given lines describes: tags, then the
/// `Feature:` line, then a description, then the body.
pub open spec fn parse_feature_spec(ls: Seq<Seq<char>>) -> FeatureView {
    let i0 = skip_blank(ls, 0);
    let tags = collect_tags(ls, i0);
    let i1 = tags.1;
    let has_feature = i1 < ls.len() && "Feature:"@.is_prefix_of(tl(ls, i1 as int));
    let name = if has_feature {
        name_after(tl(ls, i1 as int), "Feature:"@)
    } else {
        seq![]
    };
    let i2: nat = if has_feature {
        i1 + 1
    } else {
        i1
    };
    let desc = description_spec(ls, i2);
    let body = parse_body_spec(ls, desc.1);
    FeatureView {
        name,
        tags: tags.0,
        description: desc.0,
        background: body.0,
        scenarios: body.1,
        line_count: ls.len(),
    }
}


// ── The parser ───────────────────────────────────────────────────────────────

/// The trimmed text of line `i`.
fn trimmed_line(lines: &Vec<Vec<char>>, i: usize) -> (t: Vec<char>)
    requires
        i < lines.len(),
    ensures
        t@ == tl(texts(lines@), i as int),
{
    trim_chars(&lines[i])
}

/// The first line at or after `idx` that is neither blank nor a comment.
fn skip_blank_and_comments(lines: &Vec<Vec<char>>, idx: usize) -> (r: usize)
    requires
        idx <= lines.len(),
    ensures
        r == skip_blank(texts(lines@), idx as nat),
        r <= lines.len(),
{
    let ghost ls = texts(lines@);
    let mut i = idx;
    proof {
        lemma_skip_blank_bounds(ls, idx as nat);
    }
    while i < lines.len()
        invariant
            idx <= i <= lines.len(),
            ls == texts(lines@),
            skip_blank(ls, i as nat) == skip_blank(ls, idx as nat),
        decreases lines.len() - i,
    {
        let t = trimmed_line(lines, i);
        if t.len() == 0 || starts_with(&t, '#') {
            i += 1;
        } else {
            return i;
        }
    }
    i
}

/// The tags of one tag line: its words that start with `@`.
fn tags_of_line(t: &Vec<char>) -> (tags: Vec<String>)
    ensures
        strs(tags@) == line_tags(t@),
{
    let ws = split_words(t);
    let ghost w = texts(ws@);
    let mut tags: Vec<String> = Vec::new();
    let mut k: usize = 0;
    assert(w.take(0) =~= Seq::<Seq<char>>::empty());
    while k < ws.len()
        invariant
            k <= ws.len(),
            w == texts(ws@),
            strs(tags@) == at_words(w.take(k as int)),
        decreases ws.len() - k,
    {
        assert(w.take(k + 1).drop_last() =~= w.take(k as int));
        assert(w.take(k + 1).last() == ws@[k as int]@);
        if starts_with(&ws[k], '@') {
            let tag = string_of(&ws[k]);
            proof {
                lemma_strs_push(tags@, tag);
            }
            tags.push(tag);
        }
        k += 1;
    }
    assert(w.take(ws.len() as int) =~= w);
    tags
}

/// The tags on the consecutive tag lines from `*idx`; `*idx` moves past them.
fn collect_tags_at(lines: &Vec<Vec<char>>, idx: &mut usize) -> (tags: Vec<String>)
    requires
        *old(idx) <= lines.len(),
    ensures
        strs(tags@) == collect_tags(texts(lines@), *old(idx) as nat).0,
        *final(idx) == collect_tags(texts(lines@), *old(idx) as nat).1,
        *final(idx) <= lines.len(),
{
    let ghost ls = texts(lines@);
    let ghost i0 = *idx as nat;
    let mut i = *idx;
    let mut tags: Vec<String> = Vec::new();
    let mut done = false;
    while !done && i < lines.len()
        invariant
            i <= lines.len(),
            ls == texts(lines@),
            strs(tags@) + collect_tags(ls, i as nat).0 == collect_tags(ls, i0).0,
            collect_tags(ls, i as nat).1 == collect_tags(ls, i0).1,
            done ==> collect_tags(ls, i as nat).0.len() == 0 && collect_tags(ls, i as nat).1 == i,
        decreases lines.len() - i + (if done { 0int } else { 1int }),
    {
        let t = trimmed_line(lines, i);
        if starts_with(&t, '@') {
            let line = tags_of_line(&t);
            let ghost before = strs(tags@);
            let mut k: usize = 0;
            while k < line.len()
                invariant
                    k <= line.len(),
                    strs(tags@) == before + strs(line@).take(k as int),
                decreases line.len() - k,
            {
                let tag = line[k].clone();
                proof {
                    lemma_strs_push(tags@, tag);
                }
                tags.push(tag);
                k += 1;
                assert(strs(tags@) =~= before + strs(line@).take(k as int));
            }
            assert(strs(line@).take(line.len() as int) =~= strs(line@));
            i += 1;
        } else {
            done = true;
        }
    }
    assert(strs(tags@) + collect_tags(ls, i as nat).0 =~= strs(tags@));
    *idx = i;
    tags
}

/// Whether `t` starts with the keyword `kw` followed by nothing or a space.
fn keyword_at(t: &Vec<char>, kw: &str) -> (b: bool)
    ensures
        b == keyword_matches(t@, kw@),
{
    let k = chars_of(kw);
    if !has_prefix_str(t, kw) {
        return false;
    }
    k.len() == t.len() || t[k.len()] == ' '
}

/// The step of a line that starts with the keyword `kw`.
fn make_step(t: &Vec<char>, kw: &str, k: StepKeywordType, line_number: usize) -> (st: BddStep)
    requires
        keyword_matches(t@, kw@),
        kw@ == keyword_text(k),
    ensures
        st@ == (StepView {
            keyword: keyword_text(k),
            keyword_type: k,
            text: step_body(t@, keyword_text(k)),
            line_number: line_number as nat,
        }),
{
    let n = chars_of(kw).len();
    let mut lo = n;
    if n < t.len() && t[n] == ' ' {
        lo = n + 1;
    }
    let body = sub_chars(t, lo, t.len());
    proof {
        let rest = t@.skip(n as int);
        if starts_with_char(rest, ' ') {
            assert(body@ =~= rest.drop_first());
        } else {
            assert(body@ =~= rest);
        }
    }
    BddStep {
        keyword: String::from_str(kw),
        keyword_type: k,
        text: string_of(&body),
        line_number,
    }
}

/// The view of an optional step.
pub open spec fn step_opt_view(s: Option<BddStep>) -> Option<StepView> {
    match s {
        Some(st) => Some(st@),
        None => None,
    }
}

/// The step a trimmed line holds, if it starts with a step keyword.
fn try_parse_step(t: &Vec<char>, line_number: usize) -> (r: Option<BddStep>)
    ensures
        step_opt_view(r) == step_of(t@, line_number as nat),
{
    if keyword_at(t, "Given") {
        Some(make_step(t, "Given", StepKeywordType::Given, line_number))
    } else if keyword_at(t, "When") {
        Some(make_step(t, "When", StepKeywordType::When, line_number))
    } else if keyword_at(t, "Then") {
        Some(make_step(t, "Then", StepKeywordType::Then, line_number))
    } else if keyword_at(t, "And") {
        Some(make_step(t, "And", StepKeywordType::And, line_number))
    } else if keyword_at(t, "But") {
        Some(make_step(t, "But", StepKeywordType::But, line_number))
    } else {
        None
    }
}

/// Step recognition, for every trimmed line `t`: the step parser
/// (`try_parse_step`, whose result is `step_of`) succeeds exactly when the
/// line is a step line (`is_step_line`, whose result is `step_kind(t) is
/// Some`).  The step it gives keeps the line's number, its keyword type is
/// the one its keyword names, and keyword and body give the line back,
/// joined by one space when the body is not empty.
pub proof fn lemma_step_recognition(t: Seq<char>, line_number: nat)
    requires
        trim(t) == t,
    ensures
        (step_of(t, line_number) is Some) == (step_kind(t) is Some),
        step_of(t, line_number) matches Some(s) ==> {
            &&& s.line_number == line_number
            &&& s.keyword == keyword_text(s.keyword_type)
            &&& step_kind(s.keyword) == Some(s.keyword_type)
            &&& t == if s.text.len() == 0 { s.keyword } else { s.keyword + " "@ + s.text }
        },
{
    reveal_strlit("Given");
    reveal_strlit("When");
    reveal_strlit("Then");
    reveal_strlit("And");
    reveal_strlit("But");
    reveal_strlit(" ");
    if let Some(k) = step_kind(t) {
        let kw = keyword_text(k);
        let rest = t.skip(kw.len() as int);
        assert(t =~= kw + rest);
        if starts_with_char(rest, ' ') {
            if rest.len() == 1 {
                lemma_trimmed_end(t);
                assert(t.last() == ' ');
                assert(false);
            }
            assert(rest =~= " "@ + rest.drop_first());
        } else {
            assert(rest.len() == 0);
        }
    }
}

/// Whether a trimmed line starts with a step keyword.
fn is_step_line(t: &Vec<char>) -> (b: bool)
    ensures
        b == (step_kind(t@) is Some),
{
    keyword_at(t, "Given") || keyword_at(t, "When") || keyword_at(t, "Then") || keyword_at(
        t,
        "And",
    ) || keyword_at(t, "But")
}

/// Whether a trimmed line starts a structural element of a feature file.
fn is_structural_keyword(t: &Vec<char>) -> (b: bool)
    ensures
        b == is_structural(t@),
{
    has_prefix_str(t, "Feature:") || has_prefix_str(t, "Background:") || has_prefix_str(
        t,
        "Scenario Outline:",
    ) || has_prefix_str(t, "Scenario:") || has_prefix_str(t, "Examples:") || is_step_line(t)
}

/// The first line at or after `i` whose trimmed text is not empty.
fn skip_empty_lines(lines: &Vec<Vec<char>>, i: usize) -> (r: usize)
    requires
        i <= lines.len(),
    ensures
        r == skip_empty(texts(lines@), i as nat),
        r <= lines.len(),
{
    let ghost ls = texts(lines@);
    let mut j = i;
    while j < lines.len()
        invariant
            i <= j <= lines.len(),
            ls == texts(lines@),
            skip_empty(ls, j as nat) == skip_empty(ls, i as nat),
        decreases lines.len() - j,
    {
        if trimmed_line(lines, j).len() == 0 {
            j += 1;
        } else {
            return j;
        }
    }
    j
}

/// The line after the closing `marker` line of a doc string, from line `k`.
fn doc_string_end_at(lines: &Vec<Vec<char>>, k: usize, marker: &str) -> (r: usize)
    requires
        k <= lines.len(),
    ensures
        r == doc_string_end(texts(lines@), k as nat, marker@),
        r <= lines.len(),
{
    let ghost ls = texts(lines@);
    let mut j = k;
    while j < lines.len()
        invariant
            k <= j <= lines.len(),
            ls == texts(lines@),
            doc_string_end(ls, j as nat, marker@) == doc_string_end(ls, k as nat, marker@),
        decreases lines.len() - j,
    {
        let t = trimmed_line(lines, j);
        if has_prefix_str(&t, marker) {
            return j + 1;
        }
        j += 1;
    }
    j
}

/// The first line at or after `k` that is not a table row.
fn skip_table_rows(lines: &Vec<Vec<char>>, k: usize) -> (r: usize)
    requires
        k <= lines.len(),
    ensures
        r == skip_table(texts(lines@), k as nat),
        r <= lines.len(),
{
    let ghost ls = texts(lines@);
    let mut j = k;
    while j < lines.len()
        invariant
            k <= j <= lines.len(),
            ls == texts(lines@),
            skip_table(ls, j as nat) == skip_table(ls, k as nat),
        decreases lines.len() - j,
    {
        let t = trimmed_line(lines, j);
        if starts_with(&t, '|') {
            j += 1;
        } else {
            return j;
        }
    }
    j
}

/// Moves `*idx` past the doc string or data table that follows a step.
fn skip_doc_string_and_table(lines: &Vec<Vec<char>>, idx: &mut usize)
    requires
        *old(idx) <= lines.len(),
    ensures
        *final(idx) == skip_step_argument(texts(lines@), *old(idx) as nat),
        *final(idx) <= lines.len(),
{
    let j = skip_empty_lines(lines, *idx);
    if j >= lines.len() {
        *idx = j;
        return;
    }
    let t = trimmed_line(lines, j);
    if has_prefix_str(&t, "\"\"\"") {
        *idx = doc_string_end_at(lines, j + 1, "\"\"\"");
    } else if has_prefix_str(&t, "```") {
        *idx = doc_string_end_at(lines, j + 1, "```");
    } else if starts_with(&t, '|') {
        *idx = skip_table_rows(lines, j);
    } else {
        *idx = j;
    }
}

/// The steps from `*idx` on; `*idx` moves to the first line after them.
fn parse_steps(lines: &Vec<Vec<char>>, idx: &mut usize) -> (steps: Vec<BddStep>)
    requires
        *old(idx) <= lines.len(),
    ensures
        step_views(steps@) == parse_steps_spec(texts(lines@), *old(idx) as nat).0,
        *final(idx) == parse_steps_spec(texts(lines@), *old(idx) as nat).1,
        *final(idx) <= lines.len(),
{
    let ghost ls = texts(lines@);
    let ghost i0 = *idx as nat;
    let mut i = *idx;
    let mut steps: Vec<BddStep> = Vec::new();
    let mut done = false;
    while !done && i < lines.len()
        invariant
            i <= lines.len(),
            ls == texts(lines@),
            step_views(steps@) + parse_steps_spec(ls, i as nat).0 == parse_steps_spec(ls, i0).0,
            parse_steps_spec(ls, i as nat).1 == parse_steps_spec(ls, i0).1,
            done ==> parse_steps_spec(ls, i as nat).0.len() == 0 && parse_steps_spec(
                ls,
                i as nat,
            ).1 == i,
        decreases lines.len() - i + (if done { 0int } else { 1int }),
    {
        let t = trimmed_line(lines, i);
        if t.len() == 0 || starts_with(&t, '#') {
            i += 1;
        } else {
            match try_parse_step(&t, i + 1) {
                Some(step) => {
                    let ghost prev = step_views(steps@);
                    steps.push(step);
                    assert(step_views(steps@) =~= prev.push(step@));
                    let mut j = i + 1;
                    skip_doc_string_and_table(lines, &mut j);
                    proof {
                        lemma_skip_step_argument_bounds(ls, (i + 1) as nat);
                        assert(prev.push(step@) + parse_steps_spec(ls, j as nat).0 =~= prev + (seq![
                            step@]
                            + parse_steps_spec(ls, j as nat).0));
                    }
                    i = j;
                },
                None => {
                    done = true;
                },
            }
        }
    }
    assert(step_views(steps@) + parse_steps_spec(ls, i as nat).0 =~= step_views(steps@));
    *idx = i;
    steps
}

/// The cells of a table row.
fn parse_table_row(line: &Vec<char>) -> (cells: Vec<String>)
    ensures
        strs(cells@) == table_row(line@),
{
    let t = trim_chars(line);
    let a = if starts_with(&t, '|') {
        sub_chars(&t, 1, t.len())
    } else {
        sub_chars(&t, 0, t.len())
    };
    let inner = if a.len() > 0 && a[a.len() - 1] == '|' {
        sub_chars(&a, 0, a.len() - 1)
    } else {
        sub_chars(&t, 0, t.len())
    };
    proof {
        assert(t@.subrange(0, t@.len() as int) =~= t@);
        assert(t@.subrange(1, t@.len() as int) =~= t@.drop_first());
        assert(a@.subrange(0, a@.len() - 1) =~= a@.drop_last());
    }
    let parts = split_on_char(&inner, '|');
    let ghost ps = texts(parts@);
    let mut cells: Vec<String> = Vec::new();
    let mut k: usize = 0;
    while k < parts.len()
        invariant
            k <= parts.len(),
            ps == texts(parts@),
            strs(cells@) == ps.take(k as int).map_values(|c: Seq<char>| trim(c)),
        decreases parts.len() - k,
    {
        let cell = string_of(&trim_chars(&parts[k]));
        proof {
            lemma_strs_push(cells@, cell);
        }
        cells.push(cell);
        k += 1;
        assert(strs(cells@) =~= ps.take(k as int).map_values(|c: Seq<char>| trim(c)));
    }
    assert(ps.take(parts.len() as int) =~= ps);
    cells
}

/// The data rows from line `k` on, and the first line after them.
fn parse_table_rows(lines: &Vec<Vec<char>>, k: usize) -> (r: (Vec<Vec<String>>, usize))
    requires
        k <= lines.len(),
    ensures
        rows_view(r.0@) == table_rows(texts(lines@), k as nat).0,
        r.1 == table_rows(texts(lines@), k as nat).1,
        r.1 <= lines.len(),
{
    let ghost ls = texts(lines@);
    let mut rows: Vec<Vec<String>> = Vec::new();
    let mut j = k;
    let mut done = false;
    while !done && j < lines.len()
        invariant
            k <= j <= lines.len(),
            ls == texts(lines@),
            rows_view(rows@) + table_rows(ls, j as nat).0 == table_rows(ls, k as nat).0,
            table_rows(ls, j as nat).1 == table_rows(ls, k as nat).1,
            done ==> table_rows(ls, j as nat).0.len() == 0 && table_rows(ls, j as nat).1 == j,
        decreases lines.len() - j + (if done { 0int } else { 1int }),
    {
        let t = trimmed_line(lines, j);
        if starts_with(&t, '|') {
            let row = parse_table_row(&lines[j]);
            let ghost prev = rows_view(rows@);
            rows.push(row);
            assert(rows_view(rows@) =~= prev.push(strs(row@)));
            assert(prev.push(strs(row@)) + table_rows(ls, (j + 1) as nat).0 =~= prev + (seq![
                table_row(ls[j as int])] + table_rows(ls, (j + 1) as nat).0));
            j += 1;
        } else {
            done = true;
        }
    }
    assert(rows_view(rows@) + table_rows(ls, j as nat).0 =~= rows_view(rows@));
    (rows, j)
}

/// The `Examples:` blocks from `*idx` on; `*idx` moves to where reading resumes.
fn parse_examples_blocks(lines: &Vec<Vec<char>>, idx: &mut usize) -> (examples: Vec<ExamplesTable>)
    requires
        *old(idx) <= lines.len(),
    ensures
        examples_views(examples@) == parse_examples_spec(texts(lines@), *old(idx) as nat).0,
        *final(idx) == parse_examples_spec(texts(lines@), *old(idx) as nat).1,
        *final(idx) <= lines.len(),
{
    let ghost ls = texts(lines@);
    let ghost i0 = *idx as nat;
    let mut i = *idx;
    let mut examples: Vec<ExamplesTable> = Vec::new();
    let mut done = false;
    proof {
        lemma_parse_examples_bounds(ls, i0);
    }
    while !done
        invariant
            i <= lines.len(),
            ls == texts(lines@),
            examples_views(examples@) + parse_examples_spec(ls, i as nat).0 == parse_examples_spec(
                ls,
                i0,
            ).0,
            done ==> parse_examples_spec(ls, i as nat).0.len() == 0 && i == parse_examples_spec(
                ls,
                i0,
            ).1,
            !done ==> parse_examples_spec(ls, i as nat).1 == parse_examples_spec(ls, i0).1,
        decreases lines.len() - i + (if done { 0int } else { 1int }),
    {
        let saved = i;
        let peek = skip_blank_and_comments(lines, i);
        let mut k = peek;
        let tags = collect_tags_at(lines, &mut k);
        proof {
            lemma_skip_blank_bounds(ls, i as nat);
            lemma_collect_tags_bounds(ls, peek as nat);
        }
        if k >= lines.len() {
            i = if tags.len() > 0 {
                peek
            } else {
                k
            };
            done = true;
        } else {
            let t = trimmed_line(lines, k);
            if !has_prefix_str(&t, "Examples:") {
                i = if tags.len() == 0 {
                    saved
                } else {
                    peek
                };
                done = true;
            } else {
                let m2 = skip_empty_lines(lines, k + 1);
                let mut headers: Vec<String> = Vec::new();
                let mut m3 = m2;
                if m2 < lines.len() && starts_with(&trimmed_line(lines, m2), '|') {
                    headers = parse_table_row(&lines[m2]);
                    m3 = m2 + 1;
                }
                let (rows, m4) = parse_table_rows(lines, m3);
                let ex = ExamplesTable { tags, headers, rows, line_number: k + 1 };
                let ghost prev = examples_views(examples@);
                examples.push(ex);
                proof {
                    assert(examples_views(examples@) =~= prev.push(ex@));
                    assert(strs(ex.headers@) == examples_table(ls, (k + 1) as nat).0);
                    lemma_skip_blank_bounds(ls, i as nat);
                    lemma_collect_tags_bounds(ls, peek as nat);
                    lemma_examples_table_bounds(ls, (k + 1) as nat);
                    assert(prev.push(ex@) + parse_examples_spec(ls, m4 as nat).0 =~= prev + (seq![
                        ex@]
                        + parse_examples_spec(ls, m4 as nat).0));
                }
                i = m4;
            }
        }
    }
    assert(examples_views(examples@) + parse_examples_spec(ls, i as nat).0 =~= examples_views(
        examples@,
    ));
    *idx = i;
    examples
}

/// The description lines from `*idx` on; `*idx` moves to where they end.
fn parse_description(lines: &Vec<Vec<char>>, idx: &mut usize) -> (desc: Vec<String>)
    requires
        *old(idx) <= lines.len(),
    ensures
        strs(desc@) == description_spec(texts(lines@), *old(idx) as nat).0,
        *final(idx) == description_spec(texts(lines@), *old(idx) as nat).1,
        *final(idx) <= lines.len(),
{
    let ghost ls = texts(lines@);
    let ghost i0 = *idx as nat;
    let mut i = *idx;
    let mut desc: Vec<String> = Vec::new();
    let mut done = false;
    while !done && i < lines.len()
        invariant
            i <= lines.len(),
            ls == texts(lines@),
            strs(desc@) + description_spec(ls, i as nat).0 == description_spec(ls, i0).0,
            description_spec(ls, i as nat).1 == description_spec(ls, i0).1,
            done ==> description_spec(ls, i as nat).0.len() == 0 && description_spec(
                ls,
                i as nat,
            ).1 == i,
        decreases lines.len() - i + (if done { 0int } else { 1int }),
    {
        let t = trimmed_line(lines, i);
        if t.len() == 0 || starts_with(&t, '#') || (!is_structural_keyword(&t) && !starts_with(
            &t,
            '@',
        )) {
            if t.len() != 0 && !starts_with(&t, '#') {
                let d = string_of(&t);
                let ghost prev = strs(desc@);
                proof {
                    lemma_strs_push(desc@, d);
                }
                desc.push(d);
                assert(prev.push(t@) + description_spec(ls, (i + 1) as nat).0 =~= prev + (seq![t@]
                    + description_spec(ls, (i + 1) as nat).0));
            }
            i += 1;
        } else {
            done = true;
        }
    }
    assert(strs(desc@) + description_spec(ls, i as nat).0 =~= strs(desc@));
    *idx = i;
    desc
}

/// What the body still to be read adds to what was read so far: a later
/// background replaces an earlier one, scenarios are appended.
pub open spec fn combine_body(
    bg: Option<BackgroundView>,
    scs: Seq<ScenarioView>,
    rest: (Option<BackgroundView>, Seq<ScenarioView>),
) -> (Option<BackgroundView>, Seq<ScenarioView>) {
    (
        if rest.0 is Some {
            rest.0
        } else {
            bg
        },
        scs + rest.1,
    )
}

/// The name after the keyword `kw` on a trimmed line.
fn name_after_keyword(t: &Vec<char>, kw: &str) -> (name: String)
    requires
        kw@.len() <= t@.len(),
    ensures
        name@ == name_after(t@, kw@),
{
    let n = chars_of(kw).len();
    let rest = sub_chars(t, n, t.len());
    assert(rest@ =~= t@.skip(n as int));
    string_of(&trim_chars(&rest))
}

/// The background and scenarios of the body of a feature file from line `idx` on.
fn parse_body(lines: &Vec<Vec<char>>, idx: usize) -> (r: (Option<BddBackground>, Vec<BddScenario>))
    requires
        idx <= lines.len(),
    ensures
        background_view(r.0) == parse_body_spec(texts(lines@), idx as nat).0,
        scenario_views(r.1@) == parse_body_spec(texts(lines@), idx as nat).1,
{
    let ghost ls = texts(lines@);
    let ghost i0 = idx as nat;
    let mut i = idx;
    let mut background: Option<BddBackground> = None;
    let mut scenarios: Vec<BddScenario> = Vec::new();
    let mut done = false;
    assert(scenario_views(scenarios@) + parse_body_spec(ls, i0).1 =~= parse_body_spec(ls, i0).1);
    while !done && i < lines.len()
        invariant
            i <= lines.len(),
            ls == texts(lines@),
            combine_body(background_view(background), scenario_views(scenarios@), parse_body_spec(ls, i as nat))
                == parse_body_spec(ls, i0),
            done ==> parse_body_spec(ls, i as nat).0 is None && parse_body_spec(ls, i as nat).1.len()
                == 0,
        decreases lines.len() - i + (if done { 0int } else { 1int }),
    {
        let j = skip_blank_and_comments(lines, i);
        if j >= lines.len() {
            done = true;
        } else {
            let mut k = j;
            let block_tags = collect_tags_at(lines, &mut k);
            proof {
                lemma_skip_blank_bounds(ls, i as nat);
                lemma_collect_tags_bounds(ls, j as nat);
            }
            if k >= lines.len() {
                done = true;
            } else {
                let t = trimmed_line(lines, k);
                let ghost old_bg = background_view(background);
                let ghost old_sc = scenario_views(scenarios@);
                if has_prefix_str(&t, "Background:") {
                    let mut m = k + 1;
                    let steps = parse_steps(lines, &mut m);
                    proof {
                        lemma_parse_steps_bounds(ls, (k + 1) as nat);
                    }
                    background = Some(BddBackground { steps, line_number: k + 1 });
                    i = m;
                } else if has_prefix_str(&t, "Scenario Outline:") || has_prefix_str(&t, "Scenario:") {
                    let outline = has_prefix_str(&t, "Scenario Outline:");
                    let sc_name = if outline {
                        name_after_keyword(&t, "Scenario Outline:")
                    } else {
                        name_after_keyword(&t, "Scenario:")
                    };
                    let mut m = k + 1;
                    let steps = parse_steps(lines, &mut m);
                    let ghost m1 = m;
                    let examples = parse_examples_blocks(lines, &mut m);
                    proof {
                        lemma_parse_steps_bounds(ls, (k + 1) as nat);
                        lemma_parse_examples_bounds(ls, m1 as nat);
                    }
                    let sc = BddScenario {
                        name: sc_name,
                        tags: block_tags,
                        kind: if outline {
                            ScenarioKind::ScenarioOutline
                        } else {
                            ScenarioKind::Scenario
                        },
                        steps,
                        examples,
                        line_number: k + 1,
                    };
                    scenarios.push(sc);
                    proof {
                        assert(scenario_views(scenarios@) =~= old_sc.push(sc@));
                        let rest = parse_body_spec(ls, m as nat);
                        assert(old_sc.push(sc@) + rest.1 =~= old_sc + (seq![sc@] + rest.1));
                    }
                    i = m;
                } else {
                    i = k + 1;
                }
            }
        }
    }
    (background, scenarios)
}

/// The stem of a path given as text, as `Path::file_stem` (std) finds it
/// (the file name without its last extension), read back as text; `None`
/// for a path without a file name.  Paths are read with the separators of
/// the platform the library is built for.
pub uninterp spec fn path_stem(path: Seq<char>) -> Option<Seq<char>>;

/// `Path::file_stem` (std) of the path written as `path`, read back as text
/// (`OsStr::to_string_lossy`).  The result is `path_stem` of the text.
#[verifier::external_body]
fn path_file_stem(path: &str) -> (stem: Option<String>)
    ensures
        match stem {
            Some(s) => path_stem(path@) == Some(s@),
            None => path_stem(path@) is None,
        },
{
    match std::path::Path::new(path).file_stem() {
        Some(s) => Some(s.to_string_lossy().into_owned()),
        None => None,
    }
}

/// A stem, or `missing` where there is none.
pub open spec fn stem_or(stem: Option<Seq<char>>, missing: Seq<char>) -> Seq<char> {
    match stem {
        Some(s) => s,
        None => missing,
    }
}

/// The stems of the features' file paths, in project order, with `missing`
/// for a path that has none.
pub open spec fn stems_spec(features: Seq<BddFeature>, missing: Seq<char>) -> Seq<Seq<char>> {
    Seq::new(features.len(), |i: int| stem_or(path_stem(features[i].file_path@), missing))
}

/// The stems of the features' file paths, in project order, with `missing`
/// for a path that has none.
fn stems_or(project: &BddProject, missing: &str) -> (names: Vec<String>)
    ensures
        strs(names@) == stems_spec(project.features@, missing@),
{
    let mut names: Vec<String> = Vec::new();
    let mut i: usize = 0;
    while i < project.features.len()
        invariant
            i <= project.features.len(),
            strs(names@) == stems_spec(project.features@, missing@).take(i as int),
        decreases project.features.len() - i,
    {
        let stem = match path_file_stem(project.features[i].file_path.as_str()) {
            Some(s) => s,
            None => String::from_str(missing),
        };
        proof {
            lemma_strs_push(names@, stem);
        }
        names.push(stem);
        i += 1;
        assert(strs(names@) =~= stems_spec(project.features@, missing@).take(i as int));
    }
    assert(stems_spec(project.features@, missing@).take(i as int) =~= stems_spec(project.features@, missing@));
    names
}

/// The stem of feature `index`'s file path, when there is such a feature
/// and its path has a stem.
pub fn feature_stem(project: &BddProject, index: usize) -> (stem: Option<String>)
    ensures
        index >= project.features.len() ==> stem is None,
        index < project.features.len() ==> match stem {
            Some(s) => path_stem(project.features@[index as int].file_path@) == Some(s@),
            None => path_stem(project.features@[index as int].file_path@) is None,
        },
{
    if index < project.features.len() {
        path_file_stem(project.features[index].file_path.as_str())
    } else {
        None
    }
}

/// The display names of the features: the stems of their files' paths, in
/// project order (empty for a path without one).
pub fn feature_stems(project: &BddProject) -> (names: Vec<String>)
    ensures
        strs(names@) == stems_spec(project.features@, ""@),
{
    stems_or(project, "")
}

/// The labels of the features in the feature list: the stems of their
/// files' paths, in project order (`?` for a path without one).
pub fn feature_labels(project: &BddProject) -> (names: Vec<String>)
    ensures
        strs(names@) == stems_spec(project.features@, "?"@),
{
    stems_or(project, "?")
}

/// Parses a single `.feature` file from its raw text content.
pub fn parse_feature(content: &str, file_path: String) -> (f: BddFeature)
    ensures
        f@ == parse_feature_spec(lines_of(content@)),
        f.file_path == file_path,
{
    let cs = chars_of(content);
    let lines = split_lines(&cs);
    let ghost ls = texts(lines@);
    let line_count = lines.len();
    let mut idx = skip_blank_and_comments(&lines, 0);
    let feature_tags = collect_tags_at(&lines, &mut idx);
    let mut feature_name = String::new();
    if idx < lines.len() {
        let t = trimmed_line(&lines, idx);
        if has_prefix_str(&t, "Feature:") {
            feature_name = name_after_keyword(&t, "Feature:");
            idx += 1;
        }
    }
    let feature_description = parse_description(&lines, &mut idx);
    let (background, scenarios) = parse_body(&lines, idx);
    BddFeature {
        file_path,
        name: feature_name,
        tags: feature_tags,
        description: feature_description,
        background,
        scenarios,
        line_count,
    }
}


// ── Laws: every element sits on the line its number names ───────────────────

/// A step's line number names a line of the file, and that line holds the step.
pub open spec fn step_on_its_line(ls: Seq<Seq<char>>, st: StepView) -> bool {
    &&& 1 <= st.line_number <= ls.len()
    &&& step_of(tl(ls, st.line_number - 1), st.line_number) == Some(st)
}

/// Every step of a sequence is on its line.
pub open spec fn steps_on_their_lines(ls: Seq<Seq<char>>, steps: Seq<StepView>) -> bool {
    forall|k: int| 0 <= k < steps.len() ==> step_on_its_line(ls, #[trigger] steps[k])
}

/// An examples table's line number names a line that starts with `Examples:`.
pub open spec fn examples_on_its_line(ls: Seq<Seq<char>>, ex: ExamplesView) -> bool {
    &&& 1 <= ex.line_number <= ls.len()
    &&& "Examples:"@.is_prefix_of(tl(ls, ex.line_number - 1))
}

/// A scenario's line number names a line that starts with its keyword, and
/// its steps and examples are on their lines.
pub open spec fn scenario_on_its_line(ls: Seq<Seq<char>>, sc: ScenarioView) -> bool {
    &&& 1 <= sc.line_number <= ls.len()
    &&& match sc.kind {
        ScenarioKind::ScenarioOutline => "Scenario Outline:"@.is_prefix_of(tl(ls, sc.line_number - 1)),
        ScenarioKind::Scenario => "Scenario:"@.is_prefix_of(tl(ls, sc.line_number - 1)),
    }
    &&& steps_on_their_lines(ls, sc.steps)
    &&& forall|k: int| 0 <= k < sc.examples.len() ==> examples_on_its_line(ls, #[trigger] sc.examples[k])
}

/// A background's line number names a line that starts with `Background:`,
/// and its steps are on their lines.
pub open spec fn background_on_its_line(ls: Seq<Seq<char>>, bg: BackgroundView) -> bool {
    &&& 1 <= bg.line_number <= ls.len()
    &&& "Background:"@.is_prefix_of(tl(ls, bg.line_number - 1))
    &&& steps_on_their_lines(ls, bg.steps)
}

proof fn lemma_steps_on_lines(ls: Seq<Seq<char>>, i: nat)
    ensures
        steps_on_their_lines(ls, parse_steps_spec(ls, i).0),
    decreases ls.len() - i,
{
    if i < ls.len() {
        if is_blank_or_comment(tl(ls, i as int)) {
            lemma_steps_on_lines(ls, i + 1);
        } else if let Some(st) = step_of(tl(ls, i as int), i + 1) {
            let j = skip_step_argument(ls, i + 1);
            lemma_skip_step_argument_bounds(ls, i + 1);
            lemma_steps_on_lines(ls, j);
            let rest = parse_steps_spec(ls, j).0;
            let all = seq![st] + rest;
            assert(step_on_its_line(ls, st));
            assert forall|k: int| 0 <= k < all.len() implies step_on_its_line(ls, #[trigger] all[k]) by {
                if k > 0 {
                    assert(all[k] == rest[k - 1]);
                }
            }
        }
    }
}

proof fn lemma_examples_on_lines(ls: Seq<Seq<char>>, i: nat)
    ensures
        forall|k: int|
            0 <= k < parse_examples_spec(ls, i).0.len() ==> examples_on_its_line(
                ls,
                #[trigger] parse_examples_spec(ls, i).0[k],
            ),
    decreases ls.len() - i,
{
    let peek = skip_blank(ls, i);
    let tags = collect_tags(ls, peek);
    let k = tags.1;
    if k < ls.len() && "Examples:"@.is_prefix_of(tl(ls, k as int)) {
        lemma_skip_blank_bounds(ls, i);
        lemma_collect_tags_bounds(ls, peek);
        lemma_examples_table_bounds(ls, k + 1);
        let m = examples_table(ls, k + 1).2;
        lemma_examples_on_lines(ls, m);
        let all = parse_examples_spec(ls, i).0;
        let rest = parse_examples_spec(ls, m).0;
        assert forall|q: int| 0 <= q < all.len() implies examples_on_its_line(ls, #[trigger] all[q]) by {
            if q > 0 {
                assert(all[q] == rest[q - 1]);
            }
        }
    }
}

proof fn lemma_body_on_lines(ls: Seq<Seq<char>>, i: nat)
    ensures
        parse_body_spec(ls, i).0 matches Some(bg) ==> background_on_its_line(ls, bg),
        forall|q: int|
            0 <= q < parse_body_spec(ls, i).1.len() ==> scenario_on_its_line(
                ls,
                #[trigger] parse_body_spec(ls, i).1[q],
            ),
    decreases ls.len() - i,
{
    let j = skip_blank(ls, i);
    let tags = collect_tags(ls, j);
    let k = tags.1;
    if !(i >= ls.len() || j >= ls.len() || k >= ls.len()) {
        lemma_skip_blank_bounds(ls, i);
        lemma_collect_tags_bounds(ls, j);
        lemma_parse_steps_bounds(ls, k + 1);
        let steps = parse_steps_spec(ls, k + 1);
        lemma_parse_examples_bounds(ls, steps.1);
        lemma_steps_on_lines(ls, k + 1);
        let t = tl(ls, k as int);
        if "Background:"@.is_prefix_of(t) {
            lemma_body_on_lines(ls, steps.1);
        } else if "Scenario Outline:"@.is_prefix_of(t) || "Scenario:"@.is_prefix_of(t) {
            let examples = parse_examples_spec(ls, steps.1);
            lemma_examples_on_lines(ls, steps.1);
            lemma_body_on_lines(ls, examples.1);
            let all = parse_body_spec(ls, i).1;
            let rest = parse_body_spec(ls, examples.1).1;
            assert(scenario_on_its_line(ls, all[0]));
            assert forall|q: int| 0 <= q < all.len() implies scenario_on_its_line(ls, #[trigger] all[q]) by {
                if q > 0 {
                    assert(all[q] == rest[q - 1]);
                }
            }
        } else {
            lemma_body_on_lines(ls, k + 1);
        }
    }
}

/// The line numbers of a parsed feature point at the lines that hold what
/// they number: each step's line holds that very step, each scenario's line
/// starts with its keyword (`Scenario:` or `Scenario Outline:`), the
/// background's with `Background:`, each examples table's with `Examples:`;
/// all are 1-based and within the file.
pub proof fn lemma_line_numbers_point_at_lines(content: Seq<char>)
    ensures
        ({
            let ls = lines_of(content);
            let f = parse_feature_spec(ls);
            &&& (f.background matches Some(bg) ==> background_on_its_line(ls, bg))
            &&& forall|q: int| 0 <= q < f.scenarios.len() ==> scenario_on_its_line(ls, #[trigger] f.scenarios[q])
            &&& f.line_count == ls.len()
        }),
{
    let ls = lines_of(content);
    let i0 = skip_blank(ls, 0);
    let i1 = collect_tags(ls, i0).1;
    let i2: nat = if i1 < ls.len() && "Feature:"@.is_prefix_of(tl(ls, i1 as int)) { i1 + 1 } else { i1 };
    lemma_body_on_lines(ls, description_spec(ls, i2).1);
}

} // verus!

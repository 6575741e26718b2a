//! What the explorer shows: colours and styles, syntax highlighting of
//! Gherkin lines, key-hint footers, the help overlay, the raw view of a
//! feature and aligned example tables.  Drawing them on a terminal is left
//! to the application.

use vstd::prelude::*;
use vstd::utf8::{encode_scalar, encode_utf8};
use crate::explorer::{CellRect, UiState, UiView, scenario_count};
use crate::numfmt::{decimal, decimal_string};
use crate::status::{ScenarioStatusMap, status_count};
use crate::gherkin::{
    BddFeature, BddProject, BddScenario, BddStep, ExamplesTable, ExamplesView, FeatureView, ScenarioKind,
    ScenarioView, StepKeywordType, StepView, feature_views, keyword_matches, keyword_text, step_kind,
};
use crate::text::{join_by, join_strings, lemma_strs_push, lemma_join_has_each, lemma_occurs_in_wider, occurs_in};
use crate::text::{
    lines_of, split_lines,
    chars_of, has_prefix_str, lemma_texts_push, push_str, split_words, starts_with, starts_with_char,
    string_of, strs, sub_chars, texts, trim_start, trim_start_chars, words,
};

verus! {

/// A colour of the palette.
#[derive(Debug, Clone, Copy, PartialEq, Eq, Structural)]
pub enum UiColor {
    Rgb(u8, u8, u8),
    Yellow,
    DarkGray,
    White,
}

/// Foreground, background and weight of a piece of text.
#[derive(Debug, Clone, Copy, PartialEq, Eq, Structural)]
pub struct TextStyle {
    pub fg: Option<UiColor>,
    pub bg: Option<UiColor>,
    pub bold: bool,
}

/// A piece of text with its style.
#[derive(Debug, Clone)]
pub struct StyledSpan {
    pub text: String,
    pub style: TextStyle,
}

/// A styled span as plain values.
pub struct SpanView {
    pub text: Seq<char>,
    pub style: TextStyle,
}

impl View for StyledSpan {
    type V = SpanView;

    open spec fn view(&self) -> SpanView {
        SpanView { text: self.text@, style: self.style }
    }
}

/// The views of a sequence of spans.
pub open spec fn span_views(v: Seq<StyledSpan>) -> Seq<SpanView> {
    Seq::new(v.len(), |i: int| v[i]@)
}

// ── Palette ──────────────────────────────────────────────────────────────────

/// `Given` keywords (a readable blue).
pub open spec fn kwd_given() -> UiColor { UiColor::Rgb(86, 156, 214) }
/// `When` keywords (amber).
pub open spec fn kwd_when() -> UiColor { UiColor::Rgb(226, 183, 20) }
/// `Then` keywords (a muted green).
pub open spec fn kwd_then() -> UiColor { UiColor::Rgb(106, 153, 85) }
/// `And` / `But` keywords with no preceding major keyword (gray).
pub open spec fn kwd_and_but() -> UiColor { UiColor::Rgb(128, 128, 128) }
/// Structural headers (cyan).
pub open spec fn header_cyan() -> UiColor { UiColor::Rgb(86, 182, 194) }
/// The focused selection (yellow, shown bold).
pub open spec fn sel_focused_fg() -> UiColor { UiColor::Rgb(226, 183, 20) }
/// An unfocused selection (cyan).
pub open spec fn sel_unfocused_fg() -> UiColor { UiColor::Rgb(86, 182, 194) }
/// Muted text (dark gray).
pub open spec fn text_muted() -> UiColor { UiColor::Rgb(136, 136, 136) }
/// Tags (amber).
pub open spec fn tag_color() -> UiColor { UiColor::Rgb(226, 183, 20) }

/// No colour, not bold.
pub open spec fn plain() -> TextStyle { TextStyle { fg: None, bg: None, bold: false } }

/// Foreground colour only.
pub open spec fn fg(c: UiColor) -> TextStyle { TextStyle { fg: Some(c), bg: None, bold: false } }

/// Foreground colour, bold.
pub open spec fn fg_bold(c: UiColor) -> TextStyle { TextStyle { fg: Some(c), bg: None, bold: true } }

pub(crate) fn style_plain() -> (s: TextStyle)
    ensures s == plain(),
{
    TextStyle { fg: None, bg: None, bold: false }
}

pub(crate) fn style_fg(c: UiColor) -> (s: TextStyle)
    ensures s == fg(c),
{
    TextStyle { fg: Some(c), bg: None, bold: false }
}

pub(crate) fn style_fg_bold(c: UiColor) -> (s: TextStyle)
    ensures s == fg_bold(c),
{
    TextStyle { fg: Some(c), bg: None, bold: true }
}

pub(crate) fn muted() -> (c: UiColor)
    ensures c == text_muted(),
{
    UiColor::Rgb(136, 136, 136)
}

pub(crate) fn cyan() -> (c: UiColor)
    ensures c == header_cyan(),
{
    UiColor::Rgb(86, 182, 194)
}

/// A span of the given text and style.
pub(crate) fn span(text: &str, style: TextStyle) -> (s: StyledSpan)
    ensures
        s@ == (SpanView { text: text@, style }),
{
    StyledSpan { text: String::from_str(text), style }
}

/// The explorer's renderer.
pub struct AppUi;

/// The colour of a step keyword: Given, When and Then have their own and
/// become the last major colour; And and But take the last major colour,
/// or gray when there is none.
pub open spec fn keyword_color_spec(k: StepKeywordType, last_major: Option<UiColor>) -> (UiColor, Option<UiColor>) {
    match k {
        StepKeywordType::Given => (kwd_given(), Some(kwd_given())),
        StepKeywordType::When => (kwd_when(), Some(kwd_when())),
        StepKeywordType::Then => (kwd_then(), Some(kwd_then())),
        _ => (
            match last_major {
                Some(c) => c,
                None => kwd_and_but(),
            },
            last_major,
        ),
    }
}

/// The lines of the help overlay, each one span.
pub open spec fn help_lines_spec() -> Seq<SpanView> {
    seq![
        SpanView { text: "Keyboard Shortcuts"@, style: fg_bold(header_cyan()) },
        SpanView { text: ""@, style: plain() },
        SpanView { text: "  Tab / ← →    Focus columns (Explore)"@, style: plain() },
        SpanView { text: "  ↑ / ↓         Navigate items"@, style: plain() },
        SpanView { text: "  Enter         View raw feature / Toggle tree node"@, style: plain() },
        SpanView { text: "  Space         Toggle tree expand (MindMap)"@, style: plain() },
        SpanView { text: "  Backspace     Exit raw view"@, style: plain() },
        SpanView { text: "  1 / 2 / 3     Switch tabs"@, style: plain() },
        SpanView { text: "  r / R / t      Ping Runner / Reload / Simulate tests"@, style: plain() },
        SpanView { text: "  ?             Toggle this help"@, style: plain() },
        SpanView { text: "  q / Esc       Exit to homepage"@, style: plain() },
        SpanView { text: ""@, style: plain() },
        SpanView { text: "  Mouse clicks work on tabs and explore items."@, style: fg(text_muted()) },
        SpanView { text: ""@, style: plain() },
        SpanView { text: "  Press ? or Esc to close"@, style: fg(text_muted()) },
    ]
}

/// Where the help overlay goes in an area: 50 columns wide, two rows more
/// than it has lines, centred.
pub open spec fn help_area_spec(area: CellRect) -> CellRect {
    let h: u16 = 17;
    let w: u16 = 50;
    CellRect {
        x: ((if area.width > w { area.width - w } else { 0 }) / 2) as u16,
        y: ((if area.height > h { area.height - h } else { 0 }) / 2) as u16,
        width: w,
        height: h,
    }
}

impl AppUi {
    pub fn new() -> (ui: Self) {
        AppUi
    }

    /// Look up a keyword's colour and update `last_major` so And/But inherit
    /// the preceding Given/When/Then colour.
    pub fn keyword_color(&self, kw_type: StepKeywordType, last_major: &mut Option<UiColor>) -> (c: UiColor)
        ensures
            (c, *final(last_major)) == keyword_color_spec(kw_type, *old(last_major)),
    {
        match kw_type {
            StepKeywordType::Given => {
                *last_major = Some(UiColor::Rgb(86, 156, 214));
                UiColor::Rgb(86, 156, 214)
            },
            StepKeywordType::When => {
                *last_major = Some(UiColor::Rgb(226, 183, 20));
                UiColor::Rgb(226, 183, 20)
            },
            StepKeywordType::Then => {
                *last_major = Some(UiColor::Rgb(106, 153, 85));
                UiColor::Rgb(106, 153, 85)
            },
            _ => match *last_major {
                Some(c) => c,
                None => UiColor::Rgb(128, 128, 128),
            },
        }
    }

    /// Title style of an explore column block: yellow and bold when focused,
    /// muted otherwise.
    pub fn block_title_style(&self, focused: bool) -> (s: TextStyle)
        ensures
            s == (if focused { fg_bold(sel_focused_fg()) } else { fg(text_muted()) }),
    {
        if focused {
            style_fg_bold(UiColor::Rgb(226, 183, 20))
        } else {
            style_fg(muted())
        }
    }

    /// Selection style of a list item: yellow and bold when focused, cyan
    /// otherwise.
    pub fn selected_style(&self, focused: bool) -> (s: TextStyle)
        ensures
            s == (if focused { fg_bold(sel_focused_fg()) } else { fg(sel_unfocused_fg()) }),
    {
        if focused {
            style_fg_bold(UiColor::Rgb(226, 183, 20))
        } else {
            style_fg(cyan())
        }
    }

    /// A key-hint pill: the label in the unfocused selection style.
    pub fn footer_pill(&self, label: &str) -> (s: StyledSpan)
        ensures
            s@ == (SpanView { text: label@, style: fg(sel_unfocused_fg()) }),
    {
        let st = self.selected_style(false);
        span(label, st)
    }

    /// Key hints of the MindMap tab.
    pub fn mindmap_footer_hints(&self) -> (v: Vec<StyledSpan>)
        ensures
            span_views(v@) == seq![
                SpanView { text: " ↑↓ select "@, style: fg(sel_unfocused_fg()) },
                SpanView { text: " ←→ expand "@, style: fg(sel_unfocused_fg()) },
                SpanView { text: " Space toggle "@, style: fg(sel_unfocused_fg()) },
            ],
    {
        let mut v = Vec::new();
        v.push(self.footer_pill(" ↑↓ select "));
        v.push(self.footer_pill(" ←→ expand "));
        v.push(self.footer_pill(" Space toggle "));
        assert(span_views(v@) =~= seq![
            SpanView { text: " ↑↓ select "@, style: fg(sel_unfocused_fg()) },
            SpanView { text: " ←→ expand "@, style: fg(sel_unfocused_fg()) },
            SpanView { text: " Space toggle "@, style: fg(sel_unfocused_fg()) },
        ]);
        v
    }

    /// Key hints of the AI tab: a "Thinking..." note while a reply is
    /// awaited, otherwise the send and clear keys.
    pub fn ai_footer_hints(&self, s: &UiState) -> (v: Vec<StyledSpan>)
        ensures
            span_views(v@) == (if s.chat_waiting {
                seq![SpanView { text: " Thinking..."@, style: fg(kwd_when()) }]
            } else {
                seq![
                    SpanView { text: " Enter send "@, style: fg(sel_unfocused_fg()) },
                    SpanView { text: " Esc clear "@, style: fg(sel_unfocused_fg()) },
                ]
            }),
    {
        let mut v = Vec::new();
        if s.chat_waiting {
            v.push(span(" Thinking...", style_fg(UiColor::Rgb(226, 183, 20))));
            assert(span_views(v@) =~= seq![SpanView { text: " Thinking..."@, style: fg(kwd_when()) }]);
        } else {
            v.push(self.footer_pill(" Enter send "));
            v.push(self.footer_pill(" Esc clear "));
            assert(span_views(v@) =~= seq![
                SpanView { text: " Enter send "@, style: fg(sel_unfocused_fg()) },
                SpanView { text: " Esc clear "@, style: fg(sel_unfocused_fg()) },
            ]);
        }
        v
    }

    /// The lines of the help overlay.
    pub fn help_lines(&self) -> (v: Vec<StyledSpan>)
        ensures
            span_views(v@) == help_lines_spec(),
    {
        let mut v = Vec::new();
        v.push(span("Keyboard Shortcuts", style_fg_bold(cyan())));
        v.push(span("", style_plain()));
        v.push(span("  Tab / ← →    Focus columns (Explore)", style_plain()));
        v.push(span("  ↑ / ↓         Navigate items", style_plain()));
        v.push(span("  Enter         View raw feature / Toggle tree node", style_plain()));
        v.push(span("  Space         Toggle tree expand (MindMap)", style_plain()));
        v.push(span("  Backspace     Exit raw view", style_plain()));
        v.push(span("  1 / 2 / 3     Switch tabs", style_plain()));
        v.push(span("  r / R / t      Ping Runner / Reload / Simulate tests", style_plain()));
        v.push(span("  ?             Toggle this help", style_plain()));
        v.push(span("  q / Esc       Exit to homepage", style_plain()));
        v.push(span("", style_plain()));
        v.push(span("  Mouse clicks work on tabs and explore items.", style_fg(muted())));
        v.push(span("", style_plain()));
        v.push(span("  Press ? or Esc to close", style_fg(muted())));
        assert(span_views(v@) =~= help_lines_spec());
        v
    }

    /// Where the help overlay goes within `area`.
    pub fn help_area(&self, area: CellRect) -> (r: CellRect)
        ensures
            r == help_area_spec(area),
    {
        let lines = self.help_lines();
        assert(span_views(lines@).len() == 15);
        assert(lines.len() == 15);
        let h = lines.len() as u16 + 2;
        let w: u16 = 50;
        let x = area.width.saturating_sub(w) / 2;
        let y = area.height.saturating_sub(h) / 2;
        CellRect { x, y, width: w, height: h }
    }
}


// ── Syntax highlighting ──────────────────────────────────────────────────────

/// The number of bytes of a text in UTF-8.
pub open spec fn utf8_len(s: Seq<char>) -> nat {
    encode_utf8(s).len()
}

/// The indentation kept in front of a highlighted line: as many leading
/// characters of the line as its leading white space takes bytes.
pub open spec fn indentation(line: Seq<char>) -> Seq<char> {
    let a = utf8_len(line) as usize;
    let b = utf8_len(trim_start(line)) as usize;
    let k: int = if a >= b { a - b } else { 0 };
    line.take(if k < line.len() { k } else { line.len() as int })
}

/// An unstyled span.
pub open spec fn raw(t: Seq<char>) -> SpanView {
    SpanView { text: t, style: plain() }
}

/// The spans of the words of a tag line: each word (amber when it is a
/// tag) followed by a space.
pub open spec fn tag_spans(ws: Seq<Seq<char>>) -> Seq<SpanView>
    decreases ws.len(),
{
    if ws.len() == 0 {
        seq![]
    } else {
        let w = ws.last();
        tag_spans(ws.drop_last()) + seq![
            if starts_with_char(w, '@') {
                SpanView { text: w, style: fg(tag_color()) }
            } else {
                raw(w)
            },
            raw(" "@),
        ]
    }
}

/// The header keyword a trimmed line starts with, trying Feature:,
/// Scenario:, Scenario Outline:, Background: and Examples: in that order.
pub open spec fn header_keyword(t: Seq<char>) -> Option<Seq<char>> {
    if "Feature:"@.is_prefix_of(t) {
        Some("Feature:"@)
    } else if "Scenario:"@.is_prefix_of(t) {
        Some("Scenario:"@)
    } else if "Scenario Outline:"@.is_prefix_of(t) {
        Some("Scenario Outline:"@)
    } else if "Background:"@.is_prefix_of(t) {
        Some("Background:"@)
    } else if "Examples:"@.is_prefix_of(t) {
        Some("Examples:"@)
    } else {
        None
    }
}

/// The highlighted spans of a line, whether a doc string is open after it,
/// and the last major keyword colour after it.
pub open spec fn highlight_spec(line: Seq<char>, in_doc: bool, last_major: Option<UiColor>) -> (
    Seq<SpanView>,
    bool,
    Option<UiColor>,
) {
    let t = trim_start(line);
    let ws = indentation(line);
    if "\"\"\""@.is_prefix_of(t) || "```"@.is_prefix_of(t) {
        (seq![raw(ws), SpanView { text: t, style: fg(text_muted()) }], !in_doc, last_major)
    } else if in_doc || starts_with_char(t, '#') || starts_with_char(t, '|') {
        (seq![SpanView { text: line, style: fg(text_muted()) }], in_doc, last_major)
    } else if starts_with_char(t, '@') {
        (seq![raw(ws)] + tag_spans(words(t)), in_doc, last_major)
    } else if header_keyword(t) is Some {
        let kw = header_keyword(t).unwrap();
        (
            seq![raw(ws), SpanView { text: kw, style: fg_bold(header_cyan()) }, raw(t.skip(kw.len() as int))],
            in_doc,
            None,
        )
    } else if step_kind(t) is Some {
        let k = step_kind(t).unwrap();
        let kw = keyword_text(k);
        let c = keyword_color_spec(k, last_major);
        (seq![raw(ws), SpanView { text: kw, style: fg(c.0) }, raw(t.skip(kw.len() as int))], in_doc, c.1)
    } else {
        (seq![raw(line)], in_doc, last_major)
    }
}

/// A span holding the given characters.
fn span_of(cs: &Vec<char>, style: TextStyle) -> (s: StyledSpan)
    ensures
        s@ == (SpanView { text: cs@, style }),
{
    StyledSpan { text: string_of(cs), style }
}

/// The spans of the words of a tag line.
fn tag_line_spans(out: &mut Vec<StyledSpan>, t: &Vec<char>)
    ensures
        span_views(final(out)@) == span_views(old(out)@) + tag_spans(words(t@)),
{
    let ws = split_words(t);
    let ghost w = texts(ws@);
    let ghost base = span_views(out@);
    let mut k: usize = 0;
    assert(w.take(0) =~= Seq::<Seq<char>>::empty());
    assert(span_views(out@) =~= base + tag_spans(w.take(0)));
    while k < ws.len()
        invariant
            k <= ws.len(),
            w == texts(ws@),
            span_views(out@) == base + tag_spans(w.take(k as int)),
        decreases ws.len() - k,
    {
        let ghost prev = span_views(out@);
        let part = &ws[k];
        let first = if starts_with(part, '@') {
            span_of(part, style_fg(UiColor::Rgb(226, 183, 20)))
        } else {
            span_of(part, style_plain())
        };
        let sp = span(" ", style_plain());
        out.push(first);
        out.push(sp);
        proof {
            assert(span_views(out@) =~= prev + seq![first@, sp@]);
            assert(w.take(k + 1).drop_last() =~= w.take(k as int));
            assert(w.take(k + 1).last() == part@);
            assert(span_views(out@) =~= base + tag_spans(w.take(k + 1)));
        }
        k += 1;
    }
    assert(w.take(ws.len() as int) =~= w);
}

impl AppUi {
    /// Apply inline Gherkin syntax colouring to a single line.  Doc-string
    /// markers toggle `in_doc_string`; structural headers reset `last_major`;
    /// step keywords are coloured as `keyword_color` says.
    pub fn highlight_gherkin_line(
        &self,
        line: &str,
        in_doc_string: &mut bool,
        last_major: &mut Option<UiColor>,
    ) -> (spans: Vec<StyledSpan>)
        ensures
            (span_views(spans@), *final(in_doc_string), *final(last_major)) == highlight_spec(
                line@,
                *old(in_doc_string),
                *old(last_major),
            ),
    {
        let lc = chars_of(line);
        let t = trim_start_chars(&lc);
        let trimmed = string_of(&t);
        let n = line.len().saturating_sub(trimmed.as_str().len());
        let take = if n < lc.len() { n } else { lc.len() };
        let ws = sub_chars(&lc, 0, take);
        proof {
            assert(ws@ =~= indentation(line@));
        }
        let mut out: Vec<StyledSpan> = Vec::new();
        if has_prefix_str(&t, "\"\"\"") || has_prefix_str(&t, "```") {
            *in_doc_string = !*in_doc_string;
            out.push(span_of(&ws, style_plain()));
            out.push(span_of(&t, style_fg(muted())));
            assert(span_views(out@) =~= seq![raw(ws@), SpanView { text: t@, style: fg(text_muted()) }]);
            return out;
        }
        if *in_doc_string || starts_with(&t, '#') || starts_with(&t, '|') {
            out.push(span(line, style_fg(muted())));
            assert(span_views(out@) =~= seq![SpanView { text: line@, style: fg(text_muted()) }]);
            return out;
        }
        if starts_with(&t, '@') {
            out.push(span_of(&ws, style_plain()));
            tag_line_spans(&mut out, &t);
            assert(span_views(out@) =~= seq![raw(ws@)] + tag_words_view(t@));
            return out;
        }
        let header = if has_prefix_str(&t, "Feature:") {
            Some("Feature:")
        } else if has_prefix_str(&t, "Scenario:") {
            Some("Scenario:")
        } else if has_prefix_str(&t, "Scenario Outline:") {
            Some("Scenario Outline:")
        } else if has_prefix_str(&t, "Background:") {
            Some("Background:")
        } else if has_prefix_str(&t, "Examples:") {
            Some("Examples:")
        } else {
            None
        };
        match header {
            Some(kw) => {
                assert(header_keyword(t@) == Some(kw@));
                *last_major = None;
                let kl = chars_of(kw).len();
                let rest = sub_chars(&t, kl, t.len());
                out.push(span_of(&ws, style_plain()));
                out.push(span(kw, style_fg_bold(cyan())));
                out.push(span_of(&rest, style_plain()));
                assert(rest@ =~= t@.skip(kw@.len() as int));
                assert(span_views(out@) =~= seq![raw(ws@), SpanView { text: kw@, style: fg_bold(header_cyan()) }, raw(rest@)]);
                return out;
            },
            None => {},
        }
        let step = if keyword_at_line(&t, "Given") {
            Some((StepKeywordType::Given, "Given"))
        } else if keyword_at_line(&t, "When") {
            Some((StepKeywordType::When, "When"))
        } else if keyword_at_line(&t, "Then") {
            Some((StepKeywordType::Then, "Then"))
        } else if keyword_at_line(&t, "And") {
            Some((StepKeywordType::And, "And"))
        } else if keyword_at_line(&t, "But") {
            Some((StepKeywordType::But, "But"))
        } else {
            None
        };
        match step {
            Some((k, kw)) => {
                assert(step_kind(t@) == Some(k));
                assert(keyword_text(k) == kw@);
                let color = self.keyword_color(k, last_major);
                let kl = chars_of(kw).len();
                let rest = sub_chars(&t, kl, t.len());
                out.push(span_of(&ws, style_plain()));
                out.push(span(kw, style_fg(color)));
                out.push(span_of(&rest, style_plain()));
                assert(rest@ =~= t@.skip(kw@.len() as int));
                assert(span_views(out@) =~= seq![raw(ws@), SpanView { text: kw@, style: fg(color) }, raw(rest@)]);
                out
            },
            None => {
                out.push(span(line, style_plain()));
                assert(span_views(out@) =~= seq![raw(line@)]);
                out
            },
        }
    }
}

/// The text of a line of spans: their texts, in order.
pub open spec fn spans_text(spans: Seq<SpanView>) -> Seq<char>
    decreases spans.len(),
{
    if spans.len() == 0 {
        seq![]
    } else {
        spans_text(spans.drop_last()) + spans.last().text
    }
}

/// The number of leading white-space characters of a text.
pub open spec fn leading_len(s: Seq<char>) -> int {
    s.len() - trim_start(s).len()
}

proof fn lemma_spans_text_small(a: SpanView, b: SpanView, c: SpanView)
    ensures
        spans_text(seq![a]) == a.text,
        spans_text(seq![a, b]) == a.text + b.text,
        spans_text(seq![a, b, c]) == a.text + b.text + c.text,
{
    let e = Seq::<SpanView>::empty();
    assert(spans_text(e) == Seq::<char>::empty());
    assert(seq![a].drop_last() =~= e);
    assert(spans_text(seq![a]) == spans_text(e) + a.text);
    assert(Seq::<char>::empty() + a.text =~= a.text);
    assert(seq![a, b].drop_last() =~= seq![a]);
    assert(spans_text(seq![a, b]) == spans_text(seq![a]) + b.text);
    assert(seq![a, b, c].drop_last() =~= seq![a, b]);
}

proof fn lemma_trim_start_skips_lead(s: Seq<char>)
    ensures
        0 <= leading_len(s) <= s.len(),
        trim_start(s) == s.skip(leading_len(s)),
    decreases s.len(),
{
    if s.len() > 0 && crate::text::is_white_space(s[0]) {
        lemma_trim_start_skips_lead(s.drop_first());
        assert(s.drop_first().skip(leading_len(s.drop_first())) =~= s.skip(leading_len(s)));
    } else {
        assert(s.skip(0) =~= s);
    }
}

proof fn lemma_utf8_concat(a: Seq<char>, b: Seq<char>)
    ensures
        encode_utf8(a + b) == encode_utf8(a) + encode_utf8(b),
    decreases a.len(),
{
    if a.len() > 0 {
        lemma_utf8_concat(a.drop_first(), b);
        assert((a + b).drop_first() =~= a.drop_first() + b);
        assert((a + b)[0] == a[0]);
        assert(encode_scalar(a[0] as u32) + (encode_utf8(a.drop_first()) + encode_utf8(b))
            =~= encode_utf8(a) + encode_utf8(b));
    } else {
        assert(a + b =~= b);
        assert(encode_utf8(a) + encode_utf8(b) =~= encode_utf8(b));
    }
}

proof fn lemma_ascii_utf8_len(s: Seq<char>)
    requires
        forall|k: int| 0 <= k < s.len() ==> (#[trigger] s[k] as u32) < 0x80,
    ensures
        utf8_len(s) == s.len(),
    decreases s.len(),
{
    if s.len() > 0 {
        assert(s.drop_first().len() < s.len());
        assert forall|k: int| 0 <= k < s.drop_first().len() implies (#[trigger] s.drop_first()[k] as u32) < 0x80 by {
            assert(s.drop_first()[k] == s[k + 1]);
        }
        lemma_ascii_utf8_len(s.drop_first());
        assert((s[0] as u32) < 0x80);
        assert(encode_scalar(s[0] as u32).len() == 1);
    }
}

/// Highlighting only colours a line and keeps its text: apart from tag
/// lines (whose words are re-spaced), the spans' texts put together give back
/// the line, when its leading white space is ASCII.
pub proof fn lemma_highlight_keeps_text(line: Seq<char>, in_doc: bool, last_major: Option<UiColor>)
    requires
        utf8_len(line) <= usize::MAX,
        forall|k: int| 0 <= k < leading_len(line) ==> (#[trigger] line[k] as u32) < 0x80,
        in_doc || !starts_with_char(trim_start(line), '@'),
    ensures
        spans_text(highlight_spec(line, in_doc, last_major).0) == line,
{
    let t = trim_start(line);
    let j = leading_len(line);
    lemma_trim_start_skips_lead(line);
    let lead = line.take(j);
    assert(line =~= lead + t);
    lemma_utf8_concat(lead, t);
    assert forall|k: int| 0 <= k < lead.len() implies (#[trigger] lead[k] as u32) < 0x80 by {
        assert(lead[k] == line[k]);
    }
    lemma_ascii_utf8_len(lead);
    assert(indentation(line) =~= lead);
    let out = highlight_spec(line, in_doc, last_major).0;
    let muted_t = SpanView { text: t, style: fg(text_muted()) };
    if "\"\"\""@.is_prefix_of(t) || "```"@.is_prefix_of(t) {
        lemma_spans_text_small(raw(lead), muted_t, muted_t);
    } else if in_doc || starts_with_char(t, '#') || starts_with_char(t, '|') {
        lemma_spans_text_small(SpanView { text: line, style: fg(text_muted()) }, muted_t, muted_t);
    } else if header_keyword(t) is Some {
        let kw = header_keyword(t).unwrap();
        assert(kw + t.skip(kw.len() as int) =~= t);
        lemma_spans_text_small(raw(lead), out[1], raw(t.skip(kw.len() as int)));
        assert(lead + kw + t.skip(kw.len() as int) =~= line);
    } else if step_kind(t) is Some {
        let kw = keyword_text(step_kind(t).unwrap());
        assert(kw + t.skip(kw.len() as int) =~= t);
        lemma_spans_text_small(raw(lead), out[1], raw(t.skip(kw.len() as int)));
        assert(lead + kw + t.skip(kw.len() as int) =~= line);
    } else {
        lemma_spans_text_small(raw(line), muted_t, muted_t);
    }
}

/// The spans of a tag line's words.
pub open spec fn tag_words_view(t: Seq<char>) -> Seq<SpanView> {
    tag_spans(words(t))
}

/// Whether `t` starts with the keyword `kw` followed by nothing or a space.
fn keyword_at_line(t: &Vec<char>, kw: &str) -> (b: bool)
    ensures
        b == keyword_matches(t@, kw@),
{
    let k = chars_of(kw);
    if !has_prefix_str(t, kw) {
        return false;
    }
    k.len() == t.len() || t[k.len()] == ' '
}


// ── Display widths ───────────────────────────────────────────────────────────

/// The displayed width in columns of a text, as `UnicodeWidthStr::width`
/// of the unicode-width crate reports it.
pub uninterp spec fn display_width(s: Seq<char>) -> usize;

/// `UnicodeWidthStr::width` (unicode-width): the displayed width of `s`.
/// The crate's rules for determining width give a space one column and make
/// a run of spaces as wide as it is long; nothing else about the widths is
/// claimed here.
#[verifier::external_body]
fn text_width(s: &str) -> (w: usize)
    ensures
        w == display_width(s@),
        (forall|i: int| 0 <= i < s@.len() ==> s@[i] == ' ') ==> w == s@.len(),
{
    unicode_width::UnicodeWidthStr::width(s)
}

/// `n` spaces.
pub open spec fn spaces(n: nat) -> Seq<char> {
    Seq::new(n, |i: int| ' ')
}

/// Appends `n` spaces.
pub(crate) fn push_spaces(s: &mut String, n: usize)
    ensures
        final(s)@ == old(s)@ + spaces(n as nat),
{
    let ghost s0 = s@;
    let mut i: usize = 0;
    while i < n
        invariant
            i <= n,
            s@ == s0 + spaces(i as nat),
        decreases n - i,
    {
        crate::text::push_char(s, ' ');
        i += 1;
        assert(s@ =~= s0 + spaces(i as nat));
    }
}

// ── Examples tables ──────────────────────────────────────────────────────────

/// Column widths widened to fit a row's cells (cells beyond the columns
/// are ignored).
pub open spec fn widen(ws: Seq<usize>, row: Seq<Seq<char>>) -> Seq<usize> {
    Seq::new(
        ws.len(),
        |i: int|
            if i < row.len() && display_width(row[i]) > ws[i] {
                display_width(row[i])
            } else {
                ws[i]
            },
    )
}

/// The column widths of a table: the widest header or cell of each column.
pub open spec fn table_widths(headers: Seq<Seq<char>>, rows: Seq<Seq<Seq<char>>>) -> Seq<usize>
    decreases rows.len(),
{
    if rows.len() == 0 {
        Seq::new(headers.len(), |i: int| display_width(headers[i]))
    } else {
        widen(table_widths(headers, rows.drop_last()), rows.last())
    }
}

/// A row of an aligned table: `|`, then for each column a space, the cell
/// (empty when the row has no such cell), padding to the column width, and
/// ` |`.
pub open spec fn aligned_row(cells: Seq<Seq<char>>, ws: Seq<usize>) -> Seq<char>
    decreases ws.len(),
{
    if ws.len() == 0 {
        "|"@
    } else {
        let i = ws.len() - 1;
        let cell = if i < cells.len() { cells[i] } else { seq![] };
        let cw = display_width(cell);
        let pad: nat = if ws[i] >= cw { (ws[i] - cw) as nat } else { 0 };
        aligned_row(cells, ws.drop_last()) + " "@ + cell + spaces(pad) + " |"@
    }
}

/// The lines of an aligned examples table: none without headers, otherwise
/// the header row and then each data row.
pub open spec fn examples_table_lines(headers: Seq<Seq<char>>, rows: Seq<Seq<Seq<char>>>) -> Seq<Seq<char>> {
    if headers.len() == 0 {
        seq![]
    } else {
        let ws = table_widths(headers, rows);
        seq![aligned_row(headers, ws)] + Seq::new(rows.len(), |r: int| aligned_row(rows[r], ws))
    }
}

/// Widths widened to fit one row.
fn widen_widths(ws: &Vec<usize>, row: &Vec<String>) -> (r: Vec<usize>)
    ensures
        r@ == widen(ws@, strs(row@)),
{
    let mut r: Vec<usize> = Vec::new();
    let mut i: usize = 0;
    while i < ws.len()
        invariant
            i <= ws.len(),
            r@ == widen(ws@, strs(row@)).take(i as int),
        decreases ws.len() - i,
    {
        let mut w = ws[i];
        if i < row.len() {
            let cw = text_width(row[i].as_str());
            if cw > w {
                w = cw;
            }
        }
        r.push(w);
        i += 1;
        assert(r@ =~= widen(ws@, strs(row@)).take(i as int));
    }
    assert(widen(ws@, strs(row@)).take(ws.len() as int) =~= widen(ws@, strs(row@)));
    r
}

/// One aligned row.
fn format_row(cells: &Vec<String>, widths: &Vec<usize>) -> (out: String)
    ensures
        out@ == aligned_row(strs(cells@), widths@),
{
    let mut out = String::from_str("|");
    let mut i: usize = 0;
    assert(widths@.take(0) =~= Seq::<usize>::empty());
    while i < widths.len()
        invariant
            i <= widths.len(),
            out@ == aligned_row(strs(cells@), widths@.take(i as int)),
        decreases widths.len() - i,
    {
        let empty = String::new();
        let cell: &String = if i < cells.len() {
            &cells[i]
        } else {
            &empty
        };
        let cell_w = text_width(cell.as_str());
        let pad = widths[i].saturating_sub(cell_w);
        push_str(&mut out, " ");
        push_str(&mut out, cell.as_str());
        push_spaces(&mut out, pad);
        push_str(&mut out, " |");
        proof {
            let t = widths@.take(i + 1);
            assert(t.drop_last() =~= widths@.take(i as int));
            assert(t.last() == widths@[i as int]);
        }
        i += 1;
    }
    assert(widths@.take(widths.len() as int) =~= widths@);
    out
}

/// Renders an Examples table with aligned column widths.
pub fn render_examples_table_lines(headers: &Vec<String>, rows: &Vec<Vec<String>>) -> (out: Vec<String>)
    ensures
        strs(out@) == examples_table_lines(strs(headers@), crate::gherkin::rows_view(rows@)),
{
    let ghost rv = crate::gherkin::rows_view(rows@);
    if headers.len() == 0 {
        return Vec::new();
    }
    let mut widths: Vec<usize> = Vec::new();
    let mut i: usize = 0;
    while i < headers.len()
        invariant
            i <= headers.len(),
            widths@ == Seq::new(i as nat, |k: int| display_width(strs(headers@)[k])),
        decreases headers.len() - i,
    {
        widths.push(text_width(headers[i].as_str()));
        i += 1;
        assert(widths@ =~= Seq::new(i as nat, |k: int| display_width(strs(headers@)[k])));
    }
    let mut r: usize = 0;
    assert(rv.take(0) =~= Seq::<Seq<Seq<char>>>::empty());
    while r < rows.len()
        invariant
            r <= rows.len(),
            rv == crate::gherkin::rows_view(rows@),
            widths@ == table_widths(strs(headers@), rv.take(r as int)),
        decreases rows.len() - r,
    {
        widths = widen_widths(&widths, &rows[r]);
        proof {
            assert(rv.take(r + 1).drop_last() =~= rv.take(r as int));
            assert(rv.take(r + 1).last() == strs(rows@[r as int]@));
        }
        r += 1;
    }
    assert(rv.take(rows.len() as int) =~= rv);
    let mut out: Vec<String> = Vec::new();
    let head = format_row(headers, &widths);
    out.push(head);
    let mut k: usize = 0;
    let ghost ws = widths@;
    assert(strs(out@) =~= seq![aligned_row(strs(headers@), ws)] + Seq::new(0, |q: int| aligned_row(rv[q], ws)));
    while k < rows.len()
        invariant
            k <= rows.len(),
            ws == widths@,
            rv == crate::gherkin::rows_view(rows@),
            strs(out@) == seq![aligned_row(strs(headers@), ws)] + Seq::new(k as nat, |q: int| aligned_row(rv[q], ws)),
        decreases rows.len() - k,
    {
        let line = format_row(&rows[k], &widths);
        let ghost prev = strs(out@);
        assert(rv[k as int] == strs(rows@[k as int]@));
        proof {
            crate::text::lemma_strs_push(out@, line);
        }
        out.push(line);
        k += 1;
        assert(strs(out@) =~= seq![aligned_row(strs(headers@), ws)] + Seq::new(k as nat, |q: int| aligned_row(rv[q], ws)));
    }
    out
}

// ── Truncating and padding lines ─────────────────────────────────────────────

/// The displayed width of a line: the sum of its spans' widths.
pub open spec fn line_width(spans: Seq<SpanView>) -> nat
    decreases spans.len(),
{
    if spans.len() == 0 {
        0
    } else {
        line_width(spans.drop_last()) + display_width(spans.last().text) as nat
    }
}

/// How many leading characters of `t` fit in `budget` columns, counting on
/// from `k`: the prefix grows one character at a time while its displayed
/// width stays within the budget.
pub open spec fn clip_len(t: Seq<char>, budget: nat, k: nat) -> nat
    decreases t.len() - k,
{
    if k < t.len() && display_width(t.take(k + 1 as int)) <= budget {
        clip_len(t, budget, k + 1)
    } else {
        k
    }
}

/// The longest prefix of `t`, grown from the left, that fits in `budget` columns.
pub open spec fn clip_text(t: Seq<char>, budget: nat) -> Seq<char> {
    t.take(clip_len(t, budget, 0) as int)
}

/// The spans that fit a budget of columns, from the left: whole spans while
/// they fit, then the first span that does not fit cut by display width to
/// the columns that remain, followed by an unstyled run of spaces for any
/// column the cut leaves empty (a wide character that does not fit whole).
pub open spec fn clip_spans(spans: Seq<SpanView>, budget: nat) -> Seq<SpanView>
    decreases spans.len(),
{
    if spans.len() == 0 || budget == 0 {
        seq![]
    } else {
        let sw = display_width(spans[0].text);
        if sw <= budget {
            seq![spans[0]] + clip_spans(spans.drop_first(), (budget - sw) as nat)
        } else {
            let cut = clip_text(spans[0].text, budget);
            let cw = display_width(cut);
            seq![SpanView { text: cut, style: spans[0].style }] + (if cw < budget {
                seq![SpanView { text: spaces((budget - cw) as nat), style: plain() }]
            } else {
                Seq::<SpanView>::empty()
            })
        }
    }
}

/// A line made exactly `width` columns wide: clipped when wider, padded with
/// an unstyled run of spaces when narrower.
pub open spec fn fit_line(spans: Seq<SpanView>, width: nat) -> Seq<SpanView> {
    let lw = line_width(spans);
    if lw > width {
        clip_spans(spans, width)
    } else if lw < width {
        spans.push(SpanView { text: spaces((width - lw) as nat), style: plain() })
    } else {
        spans
    }
}

proof fn lemma_line_width_prefix(spans: Seq<SpanView>, k: int)
    requires
        0 <= k <= spans.len(),
    ensures
        line_width(spans.take(k)) <= line_width(spans),
    decreases spans.len() - k,
{
    if k < spans.len() {
        lemma_line_width_prefix(spans, k + 1);
        assert(spans.take(k + 1).drop_last() =~= spans.take(k));
    } else {
        assert(spans.take(k) =~= spans);
    }
}

/// The displayed width of a line.
fn spans_width(line: &Vec<StyledSpan>) -> (w: usize)
    requires
        line_width(span_views(line@)) <= usize::MAX,
    ensures
        w == line_width(span_views(line@)),
{
    let ghost sv = span_views(line@);
    let mut w: usize = 0;
    let mut i: usize = 0;
    assert(sv.take(0) =~= Seq::<SpanView>::empty());
    while i < line.len()
        invariant
            i <= line.len(),
            sv == span_views(line@),
            line_width(sv) <= usize::MAX,
            w == line_width(sv.take(i as int)),
        decreases line.len() - i,
    {
        proof {
            assert(sv.take(i + 1).drop_last() =~= sv.take(i as int));
            assert(sv.take(i + 1).last() == line@[i as int]@);
            lemma_line_width_prefix(sv, i + 1);
        }
        w = w + text_width(line[i].text.as_str());
        i += 1;
    }
    assert(sv.take(line.len() as int) =~= sv);
    w
}

/// The number of leading characters of `t` that fit in `budget` columns
/// (`clip_len(t, budget, 0)`), measured one prefix at a time.
fn fitting_prefix_len(cs: &Vec<char>, budget: usize) -> (k: usize)
    ensures
        k == clip_len(cs@, budget as nat, 0),
        k <= cs@.len(),
        k > 0 ==> display_width(cs@.take(k as int)) <= budget,
{
    let mut k: usize = 0;
    while k < cs.len()
        invariant_except_break
            k <= cs.len(),
            clip_len(cs@, budget as nat, k as nat) == clip_len(cs@, budget as nat, 0),
            k > 0 ==> display_width(cs@.take(k as int)) <= budget,
        ensures
            k <= cs.len(),
            clip_len(cs@, budget as nat, k as nat) == k,
            clip_len(cs@, budget as nat, k as nat) == clip_len(cs@, budget as nat, 0),
            k > 0 ==> display_width(cs@.take(k as int)) <= budget,
        decreases cs.len() - k,
    {
        let prefix = string_of(&sub_chars(cs, 0, k + 1));
        assert(prefix@ =~= cs@.take(k + 1));
        if text_width(prefix.as_str()) > budget {
            break;
        }
        k += 1;
    }
    k
}

/// A run of `n` spaces as an unstyled span, with its measured width.
fn space_span(n: usize) -> (out: StyledSpan)
    ensures
        out@ == (SpanView { text: spaces(n as nat), style: plain() }),
        display_width(spaces(n as nat)) == n,
{
    let mut pad = String::new();
    push_spaces(&mut pad, n);
    let pw = text_width(pad.as_str());
    assert(pw == n);
    StyledSpan { text: pad, style: style_plain() }
}

impl AppUi {
    /// Truncate or pad a line to exactly `width` columns.
    pub fn truncate_or_pad(&self, line: Vec<StyledSpan>, width: u16) -> (out: Vec<StyledSpan>)
        requires
            line_width(span_views(line@)) <= usize::MAX,
        ensures
            span_views(out@) == fit_line(span_views(line@), width as nat),
            line_width(span_views(out@)) == width,
    {
        let ghost sv = span_views(line@);
        let w = width as usize;
        let line_w = spans_width(&line);
        if line_w > w {
            let mut budget = w;
            let mut out: Vec<StyledSpan> = Vec::new();
            let mut i: usize = 0;
            let mut done = false;
            assert(sv.skip(0) =~= sv);
            assert(span_views(out@) + clip_spans(sv.skip(0), budget as nat) =~= clip_spans(sv, w as nat));
            assert(sv.take(0) =~= Seq::<SpanView>::empty());
            while !done && i < line.len()
                invariant
                    i <= line.len(),
                    sv == span_views(line@),
                    line_w == line_width(sv),
                    line_w > w,
                    span_views(out@) + clip_spans(sv.skip(i as int), budget as nat) == clip_spans(sv, w as nat),
                    done ==> clip_spans(sv.skip(i as int), budget as nat).len() == 0,
                    done ==> budget == 0,
                    !done ==> span_views(out@) == sv.take(i as int),
                    line_width(span_views(out@)) + budget == w,
                decreases line.len() - i + (if done { 0int } else { 1int }),
            {
                let ghost rest = sv.skip(i as int);
                let ghost prev = span_views(out@);
                if budget == 0 {
                    done = true;
                } else {
                    let sp = &line[i];
                    let sw = text_width(sp.text.as_str());
                    assert(rest[0] == sp@);
                    assert(rest.drop_first() =~= sv.skip(i + 1));
                    if sw <= budget {
                        let c = StyledSpan { text: sp.text.clone(), style: sp.style };
                        out.push(c);
                        budget = budget - sw;
                        assert(span_views(out@) =~= prev.push(sp@));
                        assert(span_views(out@).drop_last() =~= prev);
                        assert(line_width(span_views(out@)) == line_width(prev) + sw);
                        assert(prev.push(sp@) + clip_spans(sv.skip(i + 1), budget as nat) =~= prev + (seq![sp@] + clip_spans(rest.drop_first(), budget as nat)));
                        assert(sv.take(i + 1) =~= sv.take(i as int).push(sp@));
                        i += 1;
                    } else {
                        let cs = chars_of(sp.text.as_str());
                        let k = fitting_prefix_len(&cs, budget);
                        let cut = string_of(&sub_chars(&cs, 0, k));
                        assert(cut@ =~= sp@.text.take(k as int));
                        let cw = text_width(cut.as_str());
                        assert(cw <= budget) by {
                            if k == 0 {
                                assert(cut@.len() == 0);
                            }
                        }
                        let c = StyledSpan { text: cut, style: sp.style };
                        out.push(c);
                        assert(span_views(out@) =~= prev.push(c@));
                        assert(span_views(out@).drop_last() =~= prev);
                        assert(line_width(span_views(out@)) == line_width(prev) + cw);
                        if cw < budget {
                            let ghost mid = span_views(out@);
                            let pad = space_span(budget - cw);
                            out.push(pad);
                            assert(span_views(out@) =~= mid.push(pad@));
                            assert(span_views(out@).drop_last() =~= mid);
                            assert(line_width(span_views(out@)) == line_width(mid) + (budget - cw));
                            assert(span_views(out@) =~= prev + clip_spans(rest, budget as nat));
                        } else {
                            assert(span_views(out@) =~= prev + clip_spans(rest, budget as nat));
                        }
                        budget = 0;
                        done = true;
                        assert(clip_spans(sv.skip(i as int), 0) =~= Seq::<SpanView>::empty());
                    }
                }
            }
            if !done {
                assert(sv.take(i as int) =~= sv);
                assert(false);
            }
            assert(span_views(out@) + clip_spans(sv.skip(i as int), budget as nat) =~= span_views(out@));
            out
        } else if line_w < w {
            let mut out = line;
            let pad = space_span(w - line_w);
            let ghost prev = span_views(out@);
            out.push(pad);
            assert(span_views(out@) =~= prev.push(SpanView { text: spaces((w - line_w) as nat), style: plain() }));
            assert(span_views(out@).drop_last() =~= prev);
            out
        } else {
            line
        }
    }
}


// ── The raw view of a feature ────────────────────────────────────────────────

/// The raw line of a step.
pub open spec fn raw_step_line(st: StepView) -> Seq<char> {
    "    "@ + st.keyword + " "@ + st.text
}

/// The raw lines of steps.
pub open spec fn raw_step_lines(steps: Seq<StepView>) -> Seq<Seq<char>> {
    Seq::new(steps.len(), |i: int| raw_step_line(steps[i]))
}

/// A table row in the raw view.
pub open spec fn raw_table_row(cells: Seq<Seq<char>>) -> Seq<char> {
    "      | "@ + join_by(cells, " | "@) + " |"@
}

/// The raw lines of one examples table.
pub open spec fn raw_examples_lines(ex: ExamplesView) -> Seq<Seq<char>> {
    seq!["    Examples:"@] + (if ex.headers.len() > 0 {
        seq![raw_table_row(ex.headers)]
    } else {
        seq![]
    }) + Seq::new(ex.rows.len(), |r: int| raw_table_row(ex.rows[r]))
}

/// A row of cells in the raw view starts with the indent and a pipe, ends
/// with a pipe, and shows every cell of the row.
pub proof fn lemma_raw_row_shows_cells(cells: Seq<Seq<char>>, c: int)
    requires
        0 <= c < cells.len(),
    ensures
        raw_table_row(cells).take(8) == "      | "@,
        raw_table_row(cells).skip(raw_table_row(cells).len() - 2) == " |"@,
        occurs_in(cells[c], raw_table_row(cells)),
{
    reveal_strlit("      | ");
    reveal_strlit(" |");
    let joined = join_by(cells, " | "@);
    assert(raw_table_row(cells).take(8) =~= "      | "@);
    assert(raw_table_row(cells).skip(raw_table_row(cells).len() - 2) =~= " |"@);
    lemma_join_has_each(cells, " | "@, c);
    lemma_occurs_in_wider(cells[c], joined, "      | "@, " |"@);
}

/// The raw view of an examples table has one line per data row: the
/// `Examples:` line, the header line when there are headers, then the rows
/// in order, each showing every one of its cells.
pub proof fn lemma_raw_examples_one_line_per_row(ex: ExamplesView)
    ensures
        raw_examples_lines(ex).len() == 1 + (if ex.headers.len() > 0 { 1int } else { 0int }) + ex.rows.len(),
        raw_examples_lines(ex)[0] == "    Examples:"@,
        forall|r: int, c: int|
            0 <= r < ex.rows.len() && 0 <= c < ex.rows[r].len() ==> occurs_in(
                #[trigger] ex.rows[r][c],
                raw_examples_lines(ex)[1 + (if ex.headers.len() > 0 { 1int } else { 0int }) + r],
            ),
        forall|c: int|
            0 <= c < ex.headers.len() ==> occurs_in(#[trigger] ex.headers[c], raw_examples_lines(ex)[1]),
{
    let h: int = if ex.headers.len() > 0 { 1 } else { 0 };
    let ls = raw_examples_lines(ex);
    assert forall|r: int, c: int|
        0 <= r < ex.rows.len() && 0 <= c < ex.rows[r].len() implies occurs_in(
            #[trigger] ex.rows[r][c],
            raw_examples_lines(ex)[1 + (if ex.headers.len() > 0 { 1int } else { 0int }) + r],
        ) by {
        assert(ls[1 + h + r] == raw_table_row(ex.rows[r]));
        lemma_raw_row_shows_cells(ex.rows[r], c);
    }
    assert forall|c: int| 0 <= c < ex.headers.len() implies occurs_in(#[trigger] ex.headers[c], raw_examples_lines(ex)[1]) by {
        assert(ls[1] == raw_table_row(ex.headers));
        lemma_raw_row_shows_cells(ex.headers, c);
    }
}

/// The raw lines of examples tables, table by table.
pub open spec fn raw_all_examples_lines(exs: Seq<ExamplesView>) -> Seq<Seq<char>>
    decreases exs.len(),
{
    if exs.len() == 0 {
        seq![]
    } else {
        raw_all_examples_lines(exs.drop_last()) + raw_examples_lines(exs.last())
    }
}

/// The header keyword of a scenario kind.
pub open spec fn scenario_header(k: ScenarioKind) -> Seq<char> {
    match k {
        ScenarioKind::Scenario => "Scenario:"@,
        ScenarioKind::ScenarioOutline => "Scenario Outline:"@,
    }
}

/// The raw lines of one scenario, ending with an empty line.
pub open spec fn raw_scenario_lines(sc: ScenarioView) -> Seq<Seq<char>> {
    (if sc.tags.len() > 0 {
        seq!["  "@ + join_by(sc.tags, " "@)]
    } else {
        seq![]
    }) + seq!["  "@ + scenario_header(sc.kind) + " "@ + sc.name] + raw_step_lines(sc.steps)
        + raw_all_examples_lines(sc.examples) + seq![Seq::<char>::empty()]
}

/// The raw lines of scenarios, scenario by scenario.
pub open spec fn raw_all_scenario_lines(scs: Seq<ScenarioView>) -> Seq<Seq<char>>
    decreases scs.len(),
{
    if scs.len() == 0 {
        seq![]
    } else {
        raw_all_scenario_lines(scs.drop_last()) + raw_scenario_lines(scs.last())
    }
}

/// The raw lines of a feature: tags, the Feature line, the description,
/// an empty line, the background, then the scenarios.
pub open spec fn raw_feature_lines(f: FeatureView) -> Seq<Seq<char>> {
    (if f.tags.len() > 0 {
        seq![join_by(f.tags, " "@)]
    } else {
        seq![]
    }) + seq!["Feature: "@ + f.name] + Seq::new(f.description.len(), |i: int| "  "@ + f.description[i])
        + seq![Seq::<char>::empty()] + (match f.background {
        Some(bg) => seq!["  Background:"@] + raw_step_lines(bg.steps) + seq![Seq::<char>::empty()],
        None => seq![],
    }) + raw_all_scenario_lines(f.scenarios)
}

/// The raw view of feature `i` of the features, or a notice that there is none.
pub open spec fn raw_feature_text(fs: Seq<FeatureView>, i: nat) -> Seq<char> {
    if i < fs.len() {
        join_by(raw_feature_lines(fs[i as int]), "\n"@)
    } else {
        "Feature not found."@
    }
}

/// Appends a line to a list of lines.
fn push_line(lines: &mut Vec<String>, line: String)
    ensures
        strs(final(lines)@) == strs(old(lines)@).push(line@),
{
    proof {
        lemma_strs_push(lines@, line);
    }
    lines.push(line);
}

/// `a` followed by `b`.
pub(crate) fn concat2(a: &str, b: &str) -> (r: String)
    ensures
        r@ == a@ + b@,
{
    let mut r = String::from_str(a);
    push_str(&mut r, b);
    r
}

/// A string made of the given pieces, in order.
pub(crate) fn concat3(a: &str, b: &str, c: &str) -> (r: String)
    ensures
        r@ == a@ + b@ + c@,
{
    let mut r = String::from_str(a);
    push_str(&mut r, b);
    push_str(&mut r, c);
    r
}

/// Appends the raw lines of steps.
fn push_step_lines(lines: &mut Vec<String>, steps: &Vec<BddStep>)
    ensures
        strs(final(lines)@) == strs(old(lines)@) + raw_step_lines(crate::gherkin::step_views(steps@)),
{
    let ghost base = strs(lines@);
    let ghost sv = crate::gherkin::step_views(steps@);
    let mut i: usize = 0;
    assert(strs(lines@) =~= base + raw_step_lines(sv.take(0)));
    while i < steps.len()
        invariant
            i <= steps.len(),
            sv == crate::gherkin::step_views(steps@),
            strs(lines@) == base + raw_step_lines(sv.take(i as int)),
        decreases steps.len() - i,
    {
        let mut l = concat3("    ", steps[i].keyword.as_str(), " ");
        push_str(&mut l, steps[i].text.as_str());
        push_line(lines, l);
        i += 1;
        assert(strs(lines@) =~= base + raw_step_lines(sv.take(i as int)));
    }
    assert(sv.take(steps.len() as int) =~= sv);
}

/// A table row of the raw view.
fn raw_row(cells: &Vec<String>) -> (r: String)
    ensures
        r@ == raw_table_row(strs(cells@)),
{
    let j = join_strings(cells, " | ");
    concat3("      | ", j.as_str(), " |")
}

/// Appends the raw lines of examples tables.
fn push_examples_lines(lines: &mut Vec<String>, exs: &Vec<ExamplesTable>)
    ensures
        strs(final(lines)@) == strs(old(lines)@) + raw_all_examples_lines(crate::gherkin::examples_views(exs@)),
{
    let ghost base = strs(lines@);
    let ghost ev = crate::gherkin::examples_views(exs@);
    let mut i: usize = 0;
    assert(ev.take(0) =~= Seq::<ExamplesView>::empty());
    assert(strs(lines@) =~= base + raw_all_examples_lines(ev.take(0)));
    while i < exs.len()
        invariant
            i <= exs.len(),
            ev == crate::gherkin::examples_views(exs@),
            strs(lines@) == base + raw_all_examples_lines(ev.take(i as int)),
        decreases exs.len() - i,
    {
        let ex = &exs[i];
        let ghost before = strs(lines@);
        push_line(lines, String::from_str("    Examples:"));
        if ex.headers.len() > 0 {
            push_line(lines, raw_row(&ex.headers));
        }
        let ghost mid = strs(lines@);
        let mut r: usize = 0;
        while r < ex.rows.len()
            invariant
                r <= ex.rows.len(),
                strs(lines@) == mid + Seq::new(r as nat, |q: int| raw_table_row(ex@.rows[q])),
            decreases ex.rows.len() - r,
        {
            push_line(lines, raw_row(&ex.rows[r]));
            r += 1;
            assert(strs(lines@) =~= mid + Seq::new(r as nat, |q: int| raw_table_row(ex@.rows[q])));
        }
        proof {
            assert(ev.take(i + 1).drop_last() =~= ev.take(i as int));
            assert(ev.take(i + 1).last() == ex@);
            assert(strs(lines@) =~= before + raw_examples_lines(ex@));
        }
        i += 1;
    }
    assert(ev.take(exs.len() as int) =~= ev);
}

/// Appends the raw lines of one scenario.
fn push_scenario_lines(lines: &mut Vec<String>, sc: &BddScenario)
    ensures
        strs(final(lines)@) == strs(old(lines)@) + raw_scenario_lines(sc@),
{
    let ghost base = strs(lines@);
    if sc.tags.len() > 0 {
        let j = join_strings(&sc.tags, " ");
        push_line(lines, concat2("  ", j.as_str()));
    }
    let header = match sc.kind {
        ScenarioKind::Scenario => "Scenario:",
        ScenarioKind::ScenarioOutline => "Scenario Outline:",
    };
    let mut h = concat3("  ", header, " ");
    push_str(&mut h, sc.name.as_str());
    push_line(lines, h);
    let ghost a = strs(lines@);
    push_step_lines(lines, &sc.steps);
    let ghost b = strs(lines@);
    push_examples_lines(lines, &sc.examples);
    let ghost c = strs(lines@);
    push_line(lines, String::new());
    assert(strs(lines@) =~= base + raw_scenario_lines(sc@));
}

/// The raw lines of a feature.
fn feature_raw_lines(f: &BddFeature) -> (lines: Vec<String>)
    ensures
        strs(lines@) == raw_feature_lines(f@),
{
    let mut lines: Vec<String> = Vec::new();
    if f.tags.len() > 0 {
        push_line(&mut lines, join_strings(&f.tags, " "));
    }
    push_line(&mut lines, concat2("Feature: ", f.name.as_str()));
    let ghost d0 = strs(lines@);
    let mut i: usize = 0;
    while i < f.description.len()
        invariant
            i <= f.description.len(),
            strs(lines@) == d0 + Seq::new(i as nat, |k: int| "  "@ + f@.description[k]),
        decreases f.description.len() - i,
    {
        push_line(&mut lines, concat2("  ", f.description[i].as_str()));
        i += 1;
        assert(strs(lines@) =~= d0 + Seq::new(i as nat, |k: int| "  "@ + f@.description[k]));
    }
    push_line(&mut lines, String::new());
    let ghost b0 = strs(lines@);
    match &f.background {
        Some(bg) => {
            push_line(&mut lines, String::from_str("  Background:"));
            push_step_lines(&mut lines, &bg.steps);
            push_line(&mut lines, String::new());
            assert(strs(lines@) =~= b0 + (seq!["  Background:"@] + raw_step_lines(bg@.steps) + seq![Seq::<char>::empty()]));
        },
        None => {
            assert(strs(lines@) =~= b0 + Seq::<Seq<char>>::empty());
        },
    }
    let ghost s0 = strs(lines@);
    let ghost scv = crate::gherkin::scenario_views(f.scenarios@);
    let mut k: usize = 0;
    assert(scv.take(0) =~= Seq::<ScenarioView>::empty());
    assert(strs(lines@) =~= s0 + raw_all_scenario_lines(scv.take(0)));
    while k < f.scenarios.len()
        invariant
            k <= f.scenarios.len(),
            scv == crate::gherkin::scenario_views(f.scenarios@),
            strs(lines@) == s0 + raw_all_scenario_lines(scv.take(k as int)),
        decreases f.scenarios.len() - k,
    {
        push_scenario_lines(&mut lines, &f.scenarios[k]);
        proof {
            assert(scv.take(k + 1).drop_last() =~= scv.take(k as int));
            assert(scv.take(k + 1).last() == f.scenarios@[k as int]@);
        }
        k += 1;
        assert(strs(lines@) =~= s0 + raw_all_scenario_lines(scv.take(k as int)));
    }
    assert(scv.take(f.scenarios.len() as int) =~= scv);
    assert(strs(lines@) =~= raw_feature_lines(f@));
    lines
}

impl AppUi {
    /// The content of the raw view of feature `index`.
    pub fn raw_feature_content(&self, project: &BddProject, index: usize) -> (text: String)
        ensures
            text@ == raw_feature_text(feature_views(project.features@), index as nat),
    {
        if index < project.features.len() {
            let lines = feature_raw_lines(&project.features[index]);
            join_strings(&lines, "\n")
        } else {
            String::from_str("Feature not found.")
        }
    }

    /// The title of the raw view of a feature with the given display name.
    pub fn raw_feature_title(&self, name: &str) -> (title: String)
        ensures
            title@ == " "@ + name@ + " (raw) "@,
    {
        concat3(" ", name, " (raw) ")
    }
}


// ── The Explore tab's footer ─────────────────────────────────────────────────

/// A key-hint pill as plain values.
pub open spec fn pill(label: Seq<char>) -> SpanView {
    SpanView { text: label, style: fg(sel_unfocused_fg()) }
}

/// The Explore tab's footer: in the raw view its keys; otherwise the
/// selected feature's display name and scenario name, the keys, and the
/// run results when the feature has scenarios.
pub open spec fn explore_hints_spec(
    s: UiView,
    fs: Seq<FeatureView>,
    stem: Option<Seq<char>>,
    passed: nat,
    failed: nat,
) -> Seq<SpanView> {
    if s.show_raw_feature {
        seq![pill(" Enter/Back "@), pill(" 1-3 tabs "@)]
    } else {
        let feat = match stem {
            Some(x) => x,
            None => "-"@,
        };
        let scen = if s.selected_feature < fs.len() && s.selected_scenario
            < fs[s.selected_feature as int].scenarios.len() {
            fs[s.selected_feature as int].scenarios[s.selected_scenario as int].name
        } else {
            "-"@
        };
        let left = " "@ + feat + "  "@ + scen + " "@;
        let base = seq![
            SpanView { text: left, style: fg(text_muted()) },
            pill(" Tab "@),
            pill(" ↑↓ "@),
            pill(" Enter "@),
            pill(" ? "@),
        ];
        let total = scenario_count(fs, s.selected_feature);
        if total > 0 {
            base.push(
                SpanView {
                    text: " "@ + decimal(passed) + "/"@ + decimal(total) + " passed, "@ + decimal(failed)
                        + " failed "@,
                    style: fg(text_muted()),
                },
            )
        } else {
            base
        }
    }
}

/// The number of terminal rows a text of `len` bytes takes when wrapped at
/// `col_width` columns (one row at least, and for very narrow columns).
pub open spec fn line_rows_spec(len: usize, col_width: u16) -> u16 {
    if col_width < 2 || len == 0 {
        1
    } else {
        let r = (len + col_width - 1) / (col_width as int);
        (if r < 1 { 1 } else { r }) as u16
    }
}

impl AppUi {
    /// Key hints of the Explore tab.  `selected_stem` is the display name of
    /// the selected feature, if there is one; the run results are counted
    /// from `statuses`.
    pub fn explore_footer_hints(
        &self,
        s: &UiState,
        project: &BddProject,
        statuses: &ScenarioStatusMap,
        selected_stem: Option<String>,
    ) -> (v: Vec<StyledSpan>)
        ensures
            span_views(v@) == explore_hints_spec(
                s@,
                feature_views(project.features@),
                crate::explorer::opt_str(selected_stem),
                status_count(statuses@, "passed"@),
                status_count(statuses@, "failed"@),
            ),
    {
        let passed = statuses.count("passed") as u64;
        let failed = statuses.count("failed") as u64;
        let mut v: Vec<StyledSpan> = Vec::new();
        if s.show_raw_feature {
            v.push(self.footer_pill(" Enter/Back "));
            v.push(self.footer_pill(" 1-3 tabs "));
            assert(span_views(v@) =~= seq![pill(" Enter/Back "@), pill(" 1-3 tabs "@)]);
            return v;
        }
        let ghost stem_view = crate::explorer::opt_str(selected_stem);
        let feat = match selected_stem {
            Some(x) => x,
            None => String::from_str("-"),
        };
        let fi = s.explore_selected_feature;
        let si = s.explore_selected_scenario;
        let scen = if fi < project.features.len() && si < project.features[fi].scenarios.len() {
            project.features[fi].scenarios[si].name.clone()
        } else {
            String::from_str("-")
        };
        let mut left = concat3(" ", feat.as_str(), "  ");
        push_str(&mut left, scen.as_str());
        push_str(&mut left, " ");
        v.push(StyledSpan { text: left, style: style_fg(muted()) });
        v.push(self.footer_pill(" Tab "));
        v.push(self.footer_pill(" ↑↓ "));
        v.push(self.footer_pill(" Enter "));
        v.push(self.footer_pill(" ? "));
        let total = if fi < project.features.len() {
            project.features[fi].scenarios.len()
        } else {
            0
        };
        if total > 0 {
            let mut st = concat3(" ", decimal_string(passed).as_str(), "/");
            push_str(&mut st, decimal_string(total as u64).as_str());
            push_str(&mut st, " passed, ");
            push_str(&mut st, decimal_string(failed).as_str());
            push_str(&mut st, " failed ");
            v.push(StyledSpan { text: st, style: style_fg(muted()) });
        }
        let ghost fv = feature_views(project.features@);
        let ghost e = explore_hints_spec(s@, fv, stem_view, passed as nat, failed as nat);
        assert(span_views(v@) =~= e);
        v
    }

    /// The number of terminal rows `content` takes when wrapped at
    /// `col_width` columns.
    pub fn line_rows(&self, content: &str, col_width: u16) -> (rows: u16)
        ensures
            rows == line_rows_spec(utf8_len(content@) as usize, col_width),
    {
        if col_width < 2 {
            return 1;
        }
        let w = content.len();
        if w == 0 {
            return 1;
        }
        let cw = col_width as usize;
        proof {
            lemma_ceil_div(w as int, cw as int);
        }
        let q = w / cw;
        let r = if w % cw == 0 { q } else { q + 1 };
        (if r < 1 { 1 } else { r }) as u16
    }
}

proof fn lemma_ceil_div(w: int, c: int)
    requires
        w >= 0,
        c >= 2,
    ensures
        (w + c - 1) / c == w / c + if w % c == 0 { 0int } else { 1int },
        w / c <= w / 2,
{
    assert((w + c - 1) / c == w / c + if w % c == 0 { 0int } else { 1int }) by (nonlinear_arith)
        requires
            w >= 0,
            c >= 2,
    {
        let q = w / c;
        let r = w % c;
        assert(w == q * c + r);
        assert(0 <= r < c);
        if r == 0 {
            assert(w + c - 1 == q * c + (c - 1));
        } else {
            assert(w + c - 1 == (q + 1) * c + (r - 1));
        }
    }
    assert(w / c <= w / 2) by (nonlinear_arith)
        requires
            w >= 0,
            c >= 2,
    ;
}


// ── The AI chat panel ────────────────────────────────────────────────────────

/// The rectangle at `(x, y)` of the given size, cut at the last terminal
/// column and row (as `Rect::new` of ratatui does).
pub open spec fn clamped_rect(x: u16, y: u16, width: int, height: int) -> CellRect {
    CellRect {
        x,
        y,
        width: (if x + width > u16::MAX { u16::MAX - x } else { width }) as u16,
        height: (if y + height > u16::MAX { u16::MAX - y } else { height }) as u16,
    }
}

fn clamped(x: u16, y: u16, width: u16, height: u16) -> (r: CellRect)
    ensures
        r == clamped_rect(x, y, width as int, height as int),
{
    CellRect { x, y, width: x.saturating_add(width) - x, height: y.saturating_add(height) - y }
}

/// The rows the chat input shows: its lines, at least one.
pub open spec fn chat_input_rows(input: Seq<char>) -> nat {
    let n = crate::text::lines_of(input).len();
    if n > 1 {
        n
    } else {
        1
    }
}

/// The split of the chat panel's inside into the history, a status bar one
/// row high and the input box (its lines plus a border, at most a third of
/// the height but at least three rows).
pub open spec fn chat_layout_spec(inner: CellRect, input: Seq<char>) -> (CellRect, CellRect, CellRect) {
    let rows = (chat_input_rows(input) as u16) as int;
    let third = (inner.height / 3) as int;
    let cap: int = if third > 3 { third } else { 3 };
    let input_h: int = if rows + 2 < cap { rows + 2 } else { cap };
    let chat_h: int = if inner.height > 1 + input_h { inner.height - 1 - input_h } else { 0 };
    (
        clamped_rect(inner.x, inner.y, inner.width as int, chat_h),
        clamped_rect(inner.x, (inner.y + chat_h) as u16, inner.width as int, 1),
        clamped_rect(inner.x, (inner.y + chat_h + 1) as u16, inner.width as int, input_h),
    )
}

/// The first and the past-the-end line shown of `total` lines in a panel
/// `height` rows high: the last lines.
pub open spec fn visible_window_spec(total: nat, height: nat) -> (nat, nat) {
    let start: nat = if total > height { (total - height) as nat } else { 0 };
    let end: nat = if start + height < total { start + height } else { total };
    (start, end)
}

/// The lines of the agents sidebar: the single default agent, a blank
/// line and the count.
pub open spec fn agent_sidebar_spec() -> Seq<SpanView> {
    seq![
        SpanView { text: "▸ ○ Default"@, style: fg_bold(UiColor::Yellow) },
        SpanView { text: ""@, style: plain() },
        SpanView { text: " 1 agent "@, style: fg(text_muted()) },
    ]
}

/// The colour of the user's role (cyan).
pub open spec fn ai_user() -> UiColor { UiColor::Rgb(86, 182, 194) }
/// The colour of the assistant's role (green).
pub open spec fn ai_assistant() -> UiColor { UiColor::Rgb(106, 153, 85) }

/// The header line of a chat message, by its role.
pub open spec fn role_header_spec(role: Seq<char>) -> SpanView {
    if role == "user"@ {
        SpanView { text: "▶ You"@, style: fg_bold(ai_user()) }
    } else if role == "system"@ {
        SpanView { text: " ●"@, style: fg_bold(text_muted()) }
    } else {
        SpanView { text: "> 🥰"@, style: fg_bold(ai_assistant()) }
    }
}

/// The colour of the waiting indicator (amber).
pub open spec fn ai_waiting() -> UiColor { UiColor::Rgb(226, 183, 20) }

/// The views of lines of spans.
pub open spec fn span_lines(v: Seq<Vec<StyledSpan>>) -> Seq<Seq<SpanView>> {
    Seq::new(v.len(), |i: int| span_views(v[i]@))
}

/// A line of a message's content, indented by two spaces.
pub open spec fn content_line(t: Seq<char>) -> Seq<SpanView> {
    seq![SpanView { text: "  "@, style: plain() }, SpanView { text: t, style: plain() }]
}

/// The lines of one chat message: the header of its role, its content line
/// by line, then a blank line.
pub open spec fn message_lines(role: Seq<char>, content: Seq<char>) -> Seq<Seq<SpanView>> {
    seq![seq![role_header_spec(role)]] + Seq::new(
        lines_of(content).len(),
        |i: int| content_line(lines_of(content)[i]),
    ) + seq![Seq::<SpanView>::empty()]
}

/// The lines of the chat messages, in order.
pub open spec fn messages_lines(msgs: Seq<(String, String)>) -> Seq<Seq<SpanView>>
    decreases msgs.len(),
{
    if msgs.len() == 0 {
        seq![]
    } else {
        messages_lines(msgs.drop_last()) + message_lines(msgs.last().0@, msgs.last().1@)
    }
}

/// The chat history: a welcome note while there are no messages, the
/// messages, and the assistant's "Thinking..." placeholder while a reply is
/// awaited.
pub open spec fn transcript_spec(msgs: Seq<(String, String)>, waiting: bool) -> Seq<Seq<SpanView>> {
    (if msgs.len() == 0 {
        seq![
            seq![SpanView { text: "Welcome to AI Chat! Type a message below and press Enter."@, style: plain() }],
            Seq::<SpanView>::empty(),
        ]
    } else {
        seq![]
    }) + messages_lines(msgs) + (if waiting {
        seq![
            seq![SpanView { text: "> 🥰:"@, style: fg_bold(ai_assistant()) }],
            seq![SpanView { text: "  Thinking..."@, style: fg(ai_waiting()) }],
            Seq::<SpanView>::empty(),
        ]
    } else {
        seq![]
    })
}

/// A line of one span.
fn one_span_line(s: StyledSpan) -> (l: Vec<StyledSpan>)
    ensures
        span_views(l@) == seq![s@],
{
    let mut l: Vec<StyledSpan> = Vec::new();
    l.push(s);
    assert(span_views(l@) =~= seq![s@]);
    l
}

/// A line without spans.
fn blank_line() -> (l: Vec<StyledSpan>)
    ensures
        span_views(l@) == Seq::<SpanView>::empty(),
{
    let l: Vec<StyledSpan> = Vec::new();
    assert(span_views(l@) =~= Seq::<SpanView>::empty());
    l
}

/// Appends a line to the lines.
fn push_span_line(out: &mut Vec<Vec<StyledSpan>>, l: Vec<StyledSpan>)
    ensures
        span_lines(final(out)@) == span_lines(old(out)@).push(span_views(l@)),
{
    let ghost before = out@;
    out.push(l);
    assert(span_lines(out@) =~= span_lines(before).push(span_views(l@)));
}

impl AppUi {
    /// Splits the inside of the chat panel into history, status bar and
    /// input box, for the given input text.
    pub fn chat_layout(&self, inner: CellRect, input: &str) -> (parts: (CellRect, CellRect, CellRect))
        requires
            inner.height >= 1,
            inner.y + inner.height <= u16::MAX,
            (chat_input_rows(input@) as u16) + 2 <= u16::MAX,
        ensures
            parts == chat_layout_spec(inner, input@),
    {
        let n = crate::text::split_lines(&crate::text::chars_of(input)).len();
        let rows = (if n > 1 { n } else { 1 }) as u16;
        let third = inner.height / 3;
        let cap = if third > 3 { third } else { 3 };
        let want = rows + 2;
        let input_h = if want < cap { want } else { cap };
        let chat_h = inner.height.saturating_sub(1 + input_h);
        let chat = clamped(inner.x, inner.y, inner.width, chat_h);
        let status = clamped(inner.x, inner.y + chat_h, inner.width, 1);
        let input_area = clamped(inner.x, inner.y + chat_h + 1, inner.width, input_h);
        (chat, status, input_area)
    }

    /// The lines shown of `total` history lines in a panel `height` rows
    /// high, as a start and a past-the-end index: the last ones.
    pub fn visible_window(&self, total: usize, height: u16) -> (w: (usize, usize))
        ensures
            (w.0 as nat, w.1 as nat) == visible_window_spec(total as nat, height as nat),
    {
        let h = height as usize;
        let start = total.saturating_sub(h);
        let end = if start + h < total { start + h } else { total };
        (start, end)
    }

    /// The header of a chat message by its role: "▶ You" for the user, a dot
    /// for the system, the assistant's mark otherwise.
    pub fn chat_role_header(&self, role: &str) -> (s: StyledSpan)
        ensures
            s@ == role_header_spec(role@),
    {
        let r = String::from_str(role);
        if r == String::from_str("user") {
            span("▶ You", style_fg_bold(UiColor::Rgb(86, 182, 194)))
        } else if r == String::from_str("system") {
            span(" ●", style_fg_bold(muted()))
        } else {
            span("> 🥰", style_fg_bold(UiColor::Rgb(106, 153, 85)))
        }
    }

    /// The lines of the agents sidebar that fit `height` rows: the one
    /// default agent, then the count.
    pub fn agent_sidebar_lines(&self, height: u16) -> (v: Vec<StyledSpan>)
        ensures
            span_views(v@) == agent_sidebar_spec().take(if height < 3 { height as int } else { 3 }),
    {
        let mut all: Vec<StyledSpan> = Vec::new();
        all.push(span("▸ ○ Default", style_fg_bold(UiColor::Yellow)));
        all.push(span("", style_plain()));
        all.push(span(" 1 agent ", style_fg(muted())));
        assert(span_views(all@) =~= agent_sidebar_spec());
        let n: usize = if height < 3 { height as usize } else { 3 };
        let mut v: Vec<StyledSpan> = Vec::new();
        let mut i: usize = 0;
        while i < n
            invariant
                i <= n,
                n <= 3,
                all@.len() == 3,
                span_views(all@) == agent_sidebar_spec(),
                span_views(v@) == agent_sidebar_spec().take(i as int),
            decreases n - i,
        {
            let c = StyledSpan { text: all[i].text.clone(), style: all[i].style };
            assert(c@ == span_views(all@)[i as int]);
            let ghost prev = span_views(v@);
            v.push(c);
            assert(span_views(v@) =~= prev.push(c@));
            assert(agent_sidebar_spec().take(i + 1) =~= agent_sidebar_spec().take(i as int).push(agent_sidebar_spec()[i as int]));
            i += 1;
        }
        v
    }

    /// The first line shown of a preview of `lines` lines in a panel
    /// `height` rows high, so that the cursor's line sits in the middle:
    /// the top while the cursor is in the upper half or everything fits,
    /// otherwise half a panel above the cursor, but never past the last
    /// full panel.
    pub fn preview_scroll_row(&self, cursor: usize, lines: usize, height: usize) -> (r: usize)
        ensures
            r == (if cursor < height / 2 || lines <= height {
                0
            } else if cursor - height / 2 < lines - height {
                cursor - height / 2
            } else {
                lines - height
            }),
    {
        let max_scroll = lines.saturating_sub(height);
        if cursor < height / 2 || lines <= height {
            0
        } else {
            let centred = cursor - height / 2;
            if centred < max_scroll {
                centred
            } else {
                max_scroll
            }
        }
    }

    /// The lines of the chat history, from the messages as (role, content)
    /// pairs and whether a reply is awaited.
    pub fn chat_transcript(&self, messages: &Vec<(String, String)>, waiting: bool) -> (out: Vec<Vec<StyledSpan>>)
        ensures
            span_lines(out@) == transcript_spec(messages@, waiting),
    {
        let mut out: Vec<Vec<StyledSpan>> = Vec::new();
        if messages.len() == 0 {
            push_span_line(&mut out, one_span_line(span("Welcome to AI Chat! Type a message below and press Enter.", style_plain())));
            push_span_line(&mut out, blank_line());
        }
        let ghost head = span_lines(out@);
        let mut i: usize = 0;
        assert(messages@.take(0) =~= Seq::<(String, String)>::empty());
        assert(span_lines(out@) =~= head + messages_lines(messages@.take(0)));
        while i < messages.len()
            invariant
                i <= messages.len(),
                span_lines(out@) == head + messages_lines(messages@.take(i as int)),
            decreases messages.len() - i,
        {
            let ghost before = span_lines(out@);
            let ghost role = messages@[i as int].0@;
            let ghost content = messages@[i as int].1@;
            push_span_line(&mut out, one_span_line(self.chat_role_header(messages[i].0.as_str())));
            let ls = split_lines(&chars_of(messages[i].1.as_str()));
            let mut j: usize = 0;
            assert(span_lines(out@) =~= before + seq![seq![role_header_spec(role)]] + Seq::new(0, |k: int| content_line(lines_of(content)[k])));
            while j < ls.len()
                invariant
                    j <= ls.len(),
                    texts(ls@) == lines_of(content),
                    span_lines(out@) == before + seq![seq![role_header_spec(role)]] + Seq::new(
                        j as nat,
                        |k: int| content_line(lines_of(content)[k]),
                    ),
                decreases ls.len() - j,
            {
                let mut l: Vec<StyledSpan> = Vec::new();
                l.push(span("  ", style_plain()));
                l.push(StyledSpan { text: string_of(&ls[j]), style: style_plain() });
                assert(texts(ls@)[j as int] == ls@[j as int]@);
                assert(span_views(l@) =~= content_line(lines_of(content)[j as int]));
                push_span_line(&mut out, l);
                j += 1;
                assert(span_lines(out@) =~= before + seq![seq![role_header_spec(role)]] + Seq::new(
                    j as nat,
                    |k: int| content_line(lines_of(content)[k]),
                ));
            }
            push_span_line(&mut out, blank_line());
            i += 1;
            assert(messages@.take(i as int).drop_last() =~= messages@.take(i - 1));
            assert(messages@.take(i as int).last() == messages@[i - 1]);
            assert(span_lines(out@) =~= head + messages_lines(messages@.take(i as int)));
        }
        assert(messages@.take(messages.len() as int) =~= messages@);
        if waiting {
            push_span_line(&mut out, one_span_line(span("> 🥰:", style_fg_bold(UiColor::Rgb(106, 153, 85)))));
            push_span_line(&mut out, one_span_line(span("  Thinking...", style_fg(UiColor::Rgb(226, 183, 20)))));
            push_span_line(&mut out, blank_line());
        }
        assert(span_lines(out@) =~= transcript_spec(messages@, waiting));
        out
    }

    /// The text of the chat's status bar.
    pub fn chat_status_text(&self, waiting: bool) -> (t: String)
        ensures
            t@ == (if waiting { " Teshi is thinking..."@ } else { ""@ }),
    {
        if waiting {
            String::from_str(" Teshi is thinking...")
        } else {
            proof {
                reveal_strlit("");
            }
            let t = String::new();
            assert(t@ =~= ""@);
            t
        }
    }
}


// ── Tabs and the footer ──────────────────────────────────────────────────────

/// The titles of the three tabs.
pub open spec fn tab_titles_spec() -> Seq<Seq<char>> {
    seq![" Explore [1] "@, " MindMap [2] "@, " AI [3] "@]
}

/// The footer of a tab: a separator, a space, then the tab's key hints.
pub open spec fn footer_spec(
    s: UiView,
    fs: Seq<FeatureView>,
    m: Map<(nat, nat), Seq<char>>,
    stem: Option<Seq<char>>,
) -> Seq<SpanView> {
    seq![SpanView { text: "─"@, style: fg(text_muted()) }, raw(" "@)] + if s.active_tab == 0 {
        explore_hints_spec(s, fs, stem, status_count(m, "passed"@), status_count(m, "failed"@))
    } else if s.active_tab == 1 {
        seq![pill(" ↑↓ select "@), pill(" ←→ expand "@), pill(" Space toggle "@)]
    } else if s.active_tab == 2 {
        if s.chat_waiting {
            seq![SpanView { text: " Thinking..."@, style: fg(kwd_when()) }]
        } else {
            seq![pill(" Enter send "@), pill(" Esc clear "@)]
        }
    } else {
        seq![]
    }
}

impl AppUi {
    /// The titles of the three tabs.
    pub fn tab_titles(&self) -> (v: Vec<String>)
        ensures
            strs(v@) == tab_titles_spec(),
    {
        let mut v: Vec<String> = Vec::new();
        v.push(String::from_str(" Explore [1] "));
        v.push(String::from_str(" MindMap [2] "));
        v.push(String::from_str(" AI [3] "));
        assert(strs(v@) =~= tab_titles_spec());
        v
    }

    /// The status footer of the active tab.
    pub fn footer_line(
        &self,
        s: &UiState,
        project: &BddProject,
        statuses: &ScenarioStatusMap,
        selected_stem: Option<String>,
    ) -> (v: Vec<StyledSpan>)
        ensures
            span_views(v@) == footer_spec(
                s@,
                feature_views(project.features@),
                statuses@,
                crate::explorer::opt_str(selected_stem),
            ),
    {
        let mut v: Vec<StyledSpan> = Vec::new();
        v.push(span("─", style_fg(muted())));
        v.push(span(" ", style_plain()));
        let ghost head = span_views(v@);
        let hints = if s.active_tab == 0 {
            self.explore_footer_hints(s, project, statuses, selected_stem)
        } else if s.active_tab == 1 {
            self.mindmap_footer_hints()
        } else if s.active_tab == 2 {
            self.ai_footer_hints(s)
        } else {
            Vec::new()
        };
        let ghost hv = span_views(hints@);
        let mut i: usize = 0;
        while i < hints.len()
            invariant
                i <= hints.len(),
                hv == span_views(hints@),
                span_views(v@) == head + hv.take(i as int),
            decreases hints.len() - i,
        {
            let c = StyledSpan { text: hints[i].text.clone(), style: hints[i].style };
            let ghost prev = span_views(v@);
            v.push(c);
            assert(span_views(v@) =~= prev.push(hv[i as int]));
            assert(hv.take(i + 1) =~= hv.take(i as int).push(hv[i as int]));
            i += 1;
        }
        assert(hv.take(hints.len() as int) =~= hv);
        assert(head =~= seq![SpanView { text: "─"@, style: fg(text_muted()) }, raw(" "@)]);
        v
    }
}

} // verus!

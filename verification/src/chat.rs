//! The assistant chat: messages and the canned replies that answer
//! questions about the loaded project.

use vstd::prelude::*;
use crate::gherkin::{BddProject, FeatureView, ScenarioKind, ScenarioView, feature_views};
use crate::numfmt::{decimal, decimal_string};
use crate::text::{
    contains_str, contains_text, join_by, join_strings, occurs_in, occurs_in_order, lemma_join_has_each,
    lemma_join_keeps_order, lemma_occurs_in_wider, lemma_strs_push, lowercase, lowercase_of,
    push_str, strs,
};

verus! {

/// A chat message in a conversation.
#[derive(Debug, Clone)]
pub struct ChatMessage {
    pub role: String,
    pub content: String,
}

/// The reply to a greeting.
pub open spec fn hello_reply() -> Seq<char> {
    "Hello! I'm Teshi AI. I can help you analyze your Gherkin feature files, suggest test scenarios, and answer BDD questions. What would you like to know?"@
}

/// The reply about features when none is loaded.
pub open spec fn no_features_reply() -> Seq<char> {
    "No features loaded yet. Go to the homepage and click 'Load Demo Data' to get started."@
}

/// The reply about scenarios when there is none.
pub open spec fn no_scenarios_reply() -> Seq<char> {
    "No scenarios found. Load some feature files first."@
}

/// The reply about steps.
pub open spec fn steps_reply() -> Seq<char> {
    "Steps in Gherkin are organized with keywords: **Given** (precondition), **When** (action), **Then** (expected outcome), **And**/**But** (conjunction).\n\nThe MindMap tab builds a step-sequence tree so you can see how steps flow across scenarios."@
}

/// The reply to a request for help.
pub open spec fn help_reply() -> Seq<char> {
    "**Keyboard shortcuts:**\n  • 1/2/3 — Switch tabs\n  • Tab/←→ — Focus columns (Explore)\n  • ↑↓ — Navigate items\n  • Enter — View raw / Toggle tree node\n  • ? — Toggle this help\n  • q/Esc — Exit to homepage\n\n**Tips:**\n  • Click features/scenarios in Explore tab\n  • Build step-sequence trees in MindMap tab\n  • I can answer questions about your features!"@
}

/// ` [tag, tag]` after a feature name, or nothing when it has no tags.
pub open spec fn tags_suffix(tags: Seq<Seq<char>>) -> Seq<char> {
    if tags.len() == 0 {
        seq![]
    } else {
        " ["@ + join_by(tags, ", "@) + "]"@
    }
}

/// The summary line of a feature.
pub open spec fn feature_line(f: FeatureView, name: Seq<char>) -> Seq<char> {
    "  • "@ + name + tags_suffix(f.tags) + " — "@ + decimal(f.scenarios.len()) + " scenarios"@
}

/// The label of a scenario kind.
pub open spec fn kind_label(k: ScenarioKind) -> Seq<char> {
    match k {
        ScenarioKind::Scenario => "Scenario"@,
        ScenarioKind::ScenarioOutline => "Outline"@,
    }
}

/// The line of one scenario of the feature named `fname`.
pub open spec fn scenario_line(fname: Seq<char>, sc: ScenarioView) -> Seq<char> {
    "  • ["@ + fname + "] "@ + sc.name + " ("@ + kind_label(sc.kind) + ")"@
}

/// The lines of every scenario of the features, feature by feature.
pub open spec fn scenario_lines(fs: Seq<FeatureView>, names: Seq<Seq<char>>) -> Seq<Seq<char>>
    decreases fs.len(),
{
    if fs.len() == 0 {
        seq![]
    } else {
        let i = fs.len() - 1;
        scenario_lines(fs.drop_last(), names) + Seq::new(
            fs.last().scenarios.len(),
            |j: int| scenario_line(names[i], fs.last().scenarios[j]),
        )
    }
}

/// The block describing a feature whose name matches the question.
pub open spec fn matched_block(f: FeatureView, name: Seq<char>) -> Seq<char> {
    "**"@ + name + "**\n"@ + decimal(f.scenarios.len()) + " scenarios\n"@ + join_by(
        Seq::new(f.scenarios.len(), |j: int| "    • "@ + f.scenarios[j].name),
        "\n"@,
    )
}

/// Whether a feature name and the lower-cased question contain one another
/// (the name lower-cased too).
pub open spec fn name_matches(msg_lower: Seq<char>, name: Seq<char>) -> bool {
    contains_text(msg_lower, lowercase(name)) || contains_text(lowercase(name), msg_lower)
}

/// The blocks of the features whose names match the question, in order.
pub open spec fn matched_blocks(fs: Seq<FeatureView>, names: Seq<Seq<char>>, msg_lower: Seq<char>) -> Seq<
    Seq<char>,
>
    decreases fs.len(),
{
    if fs.len() == 0 {
        seq![]
    } else {
        let i = fs.len() - 1;
        let rest = matched_blocks(fs.drop_last(), names, msg_lower);
        if name_matches(msg_lower, names[i]) {
            rest.push(matched_block(fs.last(), names[i]))
        } else {
            rest
        }
    }
}

/// The reply of the assistant to a message, given the loaded features and
/// their display names.
pub open spec fn chat_reply(msg: Seq<char>, fs: Seq<FeatureView>, names: Seq<Seq<char>>) -> Seq<
    char,
> {
    let m = lowercase(msg);
    if contains_text(m, "hello"@) || contains_text(m, "hi "@) || m == "hi"@ {
        hello_reply()
    } else if contains_text(m, "feature"@) || contains_text(m, "project"@) || contains_text(
        m,
        "what"@,
    ) {
        if fs.len() == 0 {
            no_features_reply()
        } else {
            "Your project has "@ + decimal(fs.len()) + " feature file(s):\n"@ + join_by(
                Seq::new(fs.len(), |i: int| feature_line(fs[i], names[i])),
                "\n"@,
            )
                + "\n\nPress Enter on a feature in the Explore tab to see its raw content. Switch to the MindMap tab (press 2) to see the step-sequence tree."@
        }
    } else if contains_text(m, "scenario"@) || contains_text(m, "test"@) {
        let lines = scenario_lines(fs, names);
        if lines.len() == 0 {
            no_scenarios_reply()
        } else {
            "Here are all scenarios across your project:\n"@ + join_by(lines, "\n"@)
                + "\n\nUse ↑↓ in the Explore tab to browse them."@
        }
    } else if contains_text(m, "step"@) || contains_text(m, "given"@) || contains_text(m, "when"@)
        || contains_text(m, "then"@) {
        steps_reply()
    } else if contains_text(m, "help"@) || contains_text(m, "?"@) {
        help_reply()
    } else {
        let matched = matched_blocks(fs, names, m);
        if matched.len() > 0 {
            "I found matching features:\n\n"@ + join_by(matched, "\n\n"@)
        } else {
            "I'm not sure I understand. I can help with questions about your "@ + decimal(fs.len())
                + " feature file(s):\n"@ + join_by(
                Seq::new(fs.len(), |i: int| "  • "@ + names[i]),
                "\n"@,
            )
                + "\n\nTry asking about a specific feature or type 'help' for keyboard shortcuts."@
        }
    }
}


/// The summary line of a feature.
fn feature_line_text(f: &crate::gherkin::BddFeature, name: &String) -> (r: String)
    ensures
        r@ == feature_line(f@, name@),
{
    let mut r = String::from_str("  • ");
    push_str(&mut r, name.as_str());
    if f.tags.len() > 0 {
        push_str(&mut r, " [");
        let joined = join_strings(&f.tags, ", ");
        push_str(&mut r, joined.as_str());
        push_str(&mut r, "]");
    }
    push_str(&mut r, " — ");
    let n = decimal_string(f.scenarios.len() as u64);
    push_str(&mut r, n.as_str());
    push_str(&mut r, " scenarios");
    proof {
        let t = tags_suffix(f@.tags);
        assert(r@ =~= "  • "@ + name@ + t + " — "@ + decimal(f@.scenarios.len()) + " scenarios"@);
    }
    r
}

/// One line per element of `items`: the element's text after `prefix`.
fn prefixed_lines(items: &Vec<String>, prefix: &str) -> (r: Vec<String>)
    ensures
        strs(r@) == Seq::new(items@.len(), |i: int| prefix@ + items@[i]@),
{
    let mut r: Vec<String> = Vec::new();
    let mut i: usize = 0;
    while i < items.len()
        invariant
            i <= items.len(),
            strs(r@) == Seq::new(i as nat, |k: int| prefix@ + items@[k]@),
        decreases items.len() - i,
    {
        let mut line = String::from_str(prefix);
        push_str(&mut line, items[i].as_str());
        proof {
            lemma_strs_push(r@, line);
        }
        r.push(line);
        i += 1;
        assert(strs(r@) =~= Seq::new(i as nat, |k: int| prefix@ + items@[k]@));
    }
    r
}

/// The names of the scenarios of a feature.
fn scenario_names(f: &crate::gherkin::BddFeature) -> (r: Vec<String>)
    ensures
        r@.len() == f@.scenarios.len(),
        forall|j: int| 0 <= j < r@.len() ==> #[trigger] r@[j]@ == f@.scenarios[j].name,
{
    let mut r: Vec<String> = Vec::new();
    let mut j: usize = 0;
    while j < f.scenarios.len()
        invariant
            j <= f.scenarios.len(),
            r@.len() == j,
            forall|k: int| 0 <= k < j ==> #[trigger] r@[k]@ == f@.scenarios[k].name,
        decreases f.scenarios.len() - j,
    {
        r.push(f.scenarios[j].name.clone());
        j += 1;
    }
    r
}

/// The block describing one matching feature.
fn matched_block_text(f: &crate::gherkin::BddFeature, name: &String) -> (r: String)
    ensures
        r@ == matched_block(f@, name@),
{
    let mut r = String::from_str("**");
    push_str(&mut r, name.as_str());
    push_str(&mut r, "**\n");
    let n = decimal_string(f.scenarios.len() as u64);
    push_str(&mut r, n.as_str());
    push_str(&mut r, " scenarios\n");
    let names = scenario_names(f);
    let lines = prefixed_lines(&names, "    • ");
    let joined = join_strings(&lines, "\n");
    push_str(&mut r, joined.as_str());
    proof {
        assert(strs(lines@) =~= Seq::new(f@.scenarios.len(), |j: int| "    • "@ + f@.scenarios[j].name));
    }
    r
}

/// The text of a scenario line.
fn scenario_line_text(fname: &String, sc: &crate::gherkin::BddScenario) -> (r: String)
    ensures
        r@ == scenario_line(fname@, sc@),
{
    let mut r = String::from_str("  • [");
    push_str(&mut r, fname.as_str());
    push_str(&mut r, "] ");
    push_str(&mut r, sc.name.as_str());
    push_str(&mut r, " (");
    match sc.kind {
        ScenarioKind::Scenario => push_str(&mut r, "Scenario"),
        ScenarioKind::ScenarioOutline => push_str(&mut r, "Outline"),
    }
    push_str(&mut r, ")");
    r
}

/// The lines of every scenario of the project.
fn all_scenario_lines(project: &BddProject, names: &Vec<String>) -> (r: Vec<String>)
    requires
        names.len() == project.features.len(),
    ensures
        strs(r@) == scenario_lines(feature_views(project.features@), strs(names@)),
{
    let ghost fv = feature_views(project.features@);
    let ghost nm = strs(names@);
    let mut r: Vec<String> = Vec::new();
    let mut fi: usize = 0;
    assert(fv.take(0) =~= Seq::<FeatureView>::empty());
    while fi < project.features.len()
        invariant
            fi <= project.features.len(),
            names.len() == project.features.len(),
            fv == feature_views(project.features@),
            nm == strs(names@),
            strs(r@) == scenario_lines(fv.take(fi as int), nm),
        decreases project.features.len() - fi,
    {
        let f = &project.features[fi];
        let ghost base = strs(r@);
        let mut j: usize = 0;
        while j < f.scenarios.len()
            invariant
                j <= f.scenarios.len(),
                fi < names.len(),
                nm == strs(names@),
                f@ == fv[fi as int],
                strs(r@) == base + Seq::new(j as nat, |k: int| scenario_line(nm[fi as int], f@.scenarios[k])),
            decreases f.scenarios.len() - j,
        {
            let line = scenario_line_text(&names[fi], &f.scenarios[j]);
            proof {
                lemma_strs_push(r@, line);
            }
            r.push(line);
            j += 1;
            assert(strs(r@) =~= base + Seq::new(j as nat, |k: int| scenario_line(nm[fi as int], f@.scenarios[k])));
        }
        proof {
            assert(fv.take(fi + 1).drop_last() =~= fv.take(fi as int));
            assert(fv.take(fi + 1).last() == f@);
            assert(strs(r@) =~= scenario_lines(fv.take(fi + 1), nm));
        }
        fi += 1;
    }
    assert(fv.take(project.features.len() as int) =~= fv);
    r
}

/// The blocks of the features whose names match the lower-cased question.
fn matching_blocks(project: &BddProject, names: &Vec<String>, msg_lower: &String) -> (r: Vec<String>)
    requires
        names.len() == project.features.len(),
    ensures
        strs(r@) == matched_blocks(feature_views(project.features@), strs(names@), msg_lower@),
{
    let ghost fv = feature_views(project.features@);
    let ghost nm = strs(names@);
    let mut r: Vec<String> = Vec::new();
    let mut fi: usize = 0;
    assert(fv.take(0) =~= Seq::<FeatureView>::empty());
    while fi < project.features.len()
        invariant
            fi <= project.features.len(),
            names.len() == project.features.len(),
            fv == feature_views(project.features@),
            nm == strs(names@),
            strs(r@) == matched_blocks(fv.take(fi as int), nm, msg_lower@),
        decreases project.features.len() - fi,
    {
        let name_lower = lowercase_of(names[fi].as_str());
        let hit = contains_str(msg_lower.as_str(), name_lower.as_str()) || contains_str(
            name_lower.as_str(),
            msg_lower.as_str(),
        );
        proof {
            assert(fv.take(fi + 1).drop_last() =~= fv.take(fi as int));
            assert(fv.take(fi + 1).last() == project.features@[fi as int]@);
            assert(nm[fi as int] == names@[fi as int]@);
        }
        if hit {
            let block = matched_block_text(&project.features[fi], &names[fi]);
            proof {
                lemma_strs_push(r@, block);
            }
            r.push(block);
        }
        fi += 1;
    }
    assert(fv.take(project.features.len() as int) =~= fv);
    r
}

/// The reply of the assistant to a message about the loaded project;
/// `names[i]` is the display name of feature `i`.
pub fn simulate_chat_response(user_msg: &str, project: &BddProject, names: &Vec<String>) -> (reply: String)
    requires
        names.len() == project.features.len(),
    ensures
        reply@ == chat_reply(user_msg@, feature_views(project.features@), strs(names@)),
{
    let ghost fv = feature_views(project.features@);
    let ghost nm = strs(names@);
    let m = lowercase_of(user_msg);
    let ms = m.as_str();
    if contains_str(ms, "hello") || contains_str(ms, "hi ") || m == String::from_str("hi") {
        String::from_str(
            "Hello! I'm Teshi AI. I can help you analyze your Gherkin feature files, suggest test scenarios, and answer BDD questions. What would you like to know?",
        )
    } else if contains_str(ms, "feature") || contains_str(ms, "project") || contains_str(ms, "what") {
        if project.features.len() == 0 {
            String::from_str(
                "No features loaded yet. Go to the homepage and click 'Load Demo Data' to get started.",
            )
        } else {
            let mut lines: Vec<String> = Vec::new();
            let mut i: usize = 0;
            while i < project.features.len()
                invariant
                    i <= project.features.len(),
                    names.len() == project.features.len(),
                    fv == feature_views(project.features@),
                    nm == strs(names@),
                    strs(lines@) == Seq::new(i as nat, |k: int| feature_line(fv[k], nm[k])),
                decreases project.features.len() - i,
            {
                let line = feature_line_text(&project.features[i], &names[i]);
                proof {
                    lemma_strs_push(lines@, line);
                }
                lines.push(line);
                i += 1;
                assert(strs(lines@) =~= Seq::new(i as nat, |k: int| feature_line(fv[k], nm[k])));
            }
            let mut r = String::from_str("Your project has ");
            push_str(&mut r, decimal_string(project.features.len() as u64).as_str());
            push_str(&mut r, " feature file(s):\n");
            push_str(&mut r, join_strings(&lines, "\n").as_str());
            push_str(
                &mut r,
                "\n\nPress Enter on a feature in the Explore tab to see its raw content. Switch to the MindMap tab (press 2) to see the step-sequence tree.",
            );
            r
        }
    } else if contains_str(ms, "scenario") || contains_str(ms, "test") {
        let lines = all_scenario_lines(project, names);
        if lines.len() == 0 {
            String::from_str("No scenarios found. Load some feature files first.")
        } else {
            let mut r = String::from_str("Here are all scenarios across your project:\n");
            push_str(&mut r, join_strings(&lines, "\n").as_str());
            push_str(&mut r, "\n\nUse ↑↓ in the Explore tab to browse them.");
            r
        }
    } else if contains_str(ms, "step") || contains_str(ms, "given") || contains_str(ms, "when")
        || contains_str(ms, "then") {
        String::from_str(
            "Steps in Gherkin are organized with keywords: **Given** (precondition), **When** (action), **Then** (expected outcome), **And**/**But** (conjunction).\n\nThe MindMap tab builds a step-sequence tree so you can see how steps flow across scenarios.",
        )
    } else if contains_str(ms, "help") || contains_str(ms, "?") {
        String::from_str(
            "**Keyboard shortcuts:**\n  • 1/2/3 — Switch tabs\n  • Tab/←→ — Focus columns (Explore)\n  • ↑↓ — Navigate items\n  • Enter — View raw / Toggle tree node\n  • ? — Toggle this help\n  • q/Esc — Exit to homepage\n\n**Tips:**\n  • Click features/scenarios in Explore tab\n  • Build step-sequence trees in MindMap tab\n  • I can answer questions about your features!",
        )
    } else {
        let matched = matching_blocks(project, names, &m);
        if matched.len() > 0 {
            let mut r = String::from_str("I found matching features:\n\n");
            push_str(&mut r, join_strings(&matched, "\n\n").as_str());
            r
        } else {
            let lines = prefixed_lines(names, "  • ");
            let mut r = String::from_str(
                "I'm not sure I understand. I can help with questions about your ",
            );
            push_str(&mut r, decimal_string(project.features.len() as u64).as_str());
            push_str(&mut r, " feature file(s):\n");
            push_str(&mut r, join_strings(&lines, "\n").as_str());
            push_str(
                &mut r,
                "\n\nTry asking about a specific feature or type 'help' for keyboard shortcuts.",
            );
            proof {
                assert(strs(lines@) =~= Seq::new(fv.len(), |i: int| "  • "@ + nm[i]));
            }
            r
        }
    }
}

/// The summary line of a feature starts with its name after the bullet and
/// lists every tag of the feature, each after the ones before it.
pub proof fn lemma_feature_line_lists_all_tags(f: FeatureView, name: Seq<char>, i: int, j: int)
    requires
        0 <= i < j < f.tags.len(),
    ensures
        feature_line(f, name).take(("  • "@ + name).len() as int) == "  • "@ + name,
        occurs_in(f.tags[i], feature_line(f, name)),
        occurs_in(f.tags[j], feature_line(f, name)),
        occurs_in_order(f.tags[i], f.tags[j], feature_line(f, name)),
{
    let pre = "  • "@ + name + " ["@;
    let post = "]"@ + " — "@ + decimal(f.scenarios.len()) + " scenarios"@;
    let joined = join_by(f.tags, ", "@);
    assert(feature_line(f, name) =~= pre + joined + post);
    assert(feature_line(f, name).take(("  • "@ + name).len() as int) =~= "  • "@ + name);
    lemma_join_has_each(f.tags, ", "@, i);
    lemma_occurs_in_wider(f.tags[i], joined, pre, post);
    lemma_join_has_each(f.tags, ", "@, j);
    lemma_occurs_in_wider(f.tags[j], joined, pre, post);
    lemma_join_keeps_order(f.tags, ", "@, i, j);
    let (a, b, c) = choose|a: Seq<char>, b: Seq<char>, c: Seq<char>| joined == a + f.tags[i] + b + f.tags[j] + c;
    assert(feature_line(f, name) =~= (pre + a) + f.tags[i] + b + f.tags[j] + (c + post));
}

/// The summary line of a feature with tags lists each of them.
pub proof fn lemma_feature_line_lists_each_tag(f: FeatureView, name: Seq<char>, i: int)
    requires
        0 <= i < f.tags.len(),
    ensures
        occurs_in(f.tags[i], feature_line(f, name)),
{
    let pre = "  • "@ + name + " ["@;
    let post = "]"@ + " — "@ + decimal(f.scenarios.len()) + " scenarios"@;
    let joined = join_by(f.tags, ", "@);
    assert(feature_line(f, name) =~= pre + joined + post);
    lemma_join_has_each(f.tags, ", "@, i);
    lemma_occurs_in_wider(f.tags[i], joined, pre, post);
}

} // verus!

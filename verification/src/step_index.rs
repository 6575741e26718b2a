//! Step reuse index: step bodies are normalised (keyword-agnostic, white
//! space collapsed, lower-cased) and every place where each normalised body
//! occurs in a project is recorded, in project order.

use vstd::prelude::*;
use crate::gherkin::{
    BddProject, FeatureView, ScenarioView, StepView, feature_views, scenario_views, step_views,
    BddFeature, BddStep,
};
use crate::text::{
    chars_of, join_spaced, join_words, lowercase, lowercase_of, split_words, string_of, words,
};

verus! {

/// Keyword-agnostic normal form of a step body: words joined by single
/// spaces, lower-cased.
pub open spec fn normalize_spec(text: Seq<char>) -> Seq<char> {
    lowercase(join_spaced(words(text)))
}

/// Keyword-agnostic normalization: collapse white space, trim, lowercase.
fn normalize(text: &str) -> (r: String)
    ensures
        r@ == normalize_spec(text@),
{
    let ws = split_words(&chars_of(text));
    let joined = string_of(&join_words(&ws));
    lowercase_of(joined.as_str())
}

/// Where a step occurs within the project tree.
#[derive(Debug, Clone, Copy, PartialEq, Eq, Structural)]
pub struct StepLocation {
    pub feature_idx: usize,
    /// `usize::MAX` for a step of the feature's background.
    pub scenario_idx: usize,
    pub step_idx: usize,
}

/// All locations of one normalised step body.
#[derive(Debug, Clone)]
pub struct StepUsage {
    pub key: String,
    pub locations: Vec<StepLocation>,
}

/// Maps normalized step body text to all locations that share it.
#[derive(Debug, Clone)]
pub struct StepIndex {
    /// All usages, one per distinct normalised body, in order of first occurrence.
    ///
    /// A list with distinct keys rather than a `HashMap<String, _>`: vstd
    /// specifies `HashMap` only for key types whose hashing it models, and
    /// `String` is not one of them, so nothing could be proved of such a map.
    pub usages: Vec<StepUsage>,
}

// ── Model ────────────────────────────────────────────────────────────────────

/// The steps of one list, with their locations.
pub open spec fn step_occurrences(steps: Seq<StepView>, fi: nat, sci: usize) -> Seq<
    (Seq<char>, StepLocation),
> {
    Seq::new(
        steps.len(),
        |si: int|
            (
                steps[si].text,
                StepLocation { feature_idx: fi as usize, scenario_idx: sci, step_idx: si as usize },
            ),
    )
}

/// The steps of a feature's scenarios, scenario by scenario.
pub open spec fn scenario_occurrences(scs: Seq<ScenarioView>, fi: nat) -> Seq<
    (Seq<char>, StepLocation),
>
    decreases scs.len(),
{
    if scs.len() == 0 {
        seq![]
    } else {
        scenario_occurrences(scs.drop_last(), fi) + step_occurrences(
            scs.last().steps,
            fi,
            (scs.len() - 1) as usize,
        )
    }
}

/// The steps of a feature: its background's first, then its scenarios'.
pub open spec fn feature_occurrences(f: FeatureView, fi: nat) -> Seq<(Seq<char>, StepLocation)> {
    (match f.background {
        Some(bg) => step_occurrences(bg.steps, fi, usize::MAX),
        None => seq![],
    }) + scenario_occurrences(f.scenarios, fi)
}

/// Every step of the features, in project order, with its location.
pub open spec fn project_occurrences(fs: Seq<FeatureView>) -> Seq<(Seq<char>, StepLocation)>
    decreases fs.len(),
{
    if fs.len() == 0 {
        seq![]
    } else {
        project_occurrences(fs.drop_last()) + feature_occurrences(fs.last(), (fs.len() - 1) as nat)
    }
}

/// The locations, in order, of the occurrences whose normalised body is `key`.
pub open spec fn keyed_locations(occ: Seq<(Seq<char>, StepLocation)>, key: Seq<char>) -> Seq<
    StepLocation,
>
    decreases occ.len(),
{
    if occ.len() == 0 {
        seq![]
    } else if normalize_spec(occ.last().0) == key {
        keyed_locations(occ.drop_last(), key).push(occ.last().1)
    } else {
        keyed_locations(occ.drop_last(), key)
    }
}

/// The position of the first usage at or after `i` whose key is `key`.
pub open spec fn usage_index(us: Seq<StepUsage>, key: Seq<char>, i: nat) -> Option<nat>
    decreases us.len() - i,
{
    if i >= us.len() {
        None
    } else if us[i as int].key@ == key {
        Some(i)
    } else {
        usage_index(us, key, i + 1)
    }
}

/// The locations of the first usage whose key is `key` (none when there is none).
pub open spec fn usage_locations(us: Seq<StepUsage>, key: Seq<char>) -> Seq<StepLocation> {
    match usage_index(us, key, 0) {
        Some(i) => us[i as int].locations@,
        None => seq![],
    }
}

/// No key occurs twice and every usage has a location.
pub open spec fn usages_wf(us: Seq<StepUsage>) -> bool {
    &&& forall|i: int, j: int|
        0 <= i < j < us.len() ==> #[trigger] us[i].key@ != #[trigger] us[j].key@
    &&& forall|i: int| 0 <= i < us.len() ==> #[trigger] us[i].locations@.len() > 0
}

impl StepIndex {
    /// The recorded locations of a normalised body (none when it is absent).
    pub open spec fn locations_for(&self, key: Seq<char>) -> Seq<StepLocation> {
        usage_locations(self.usages@, key)
    }

    /// No normalised body has two usages, and every usage has a location.
    pub open spec fn wf(&self) -> bool {
        usages_wf(self.usages@)
    }
}


proof fn lemma_usage_index_found(us: Seq<StepUsage>, key: Seq<char>, i: nat)
    ensures
        usage_index(us, key, i) matches Some(j) ==> i <= j < us.len() && us[j as int].key@ == key,
        usage_index(us, key, i) is None ==> forall|k: int| i <= k < us.len() ==> #[trigger] us[k].key@ != key,
    decreases us.len() - i,
{
    if i < us.len() && us[i as int].key@ != key {
        lemma_usage_index_found(us, key, i + 1);
    }
}

proof fn lemma_usage_index_same_keys(us: Seq<StepUsage>, vs: Seq<StepUsage>, key: Seq<char>, i: nat)
    requires
        us.len() == vs.len(),
        forall|k: int| 0 <= k < us.len() ==> #[trigger] us[k].key@ == vs[k].key@,
    ensures
        usage_index(us, key, i) == usage_index(vs, key, i),
    decreases us.len() - i,
{
    if i < us.len() {
        lemma_usage_index_same_keys(us, vs, key, i + 1);
    }
}

proof fn lemma_usage_index_push(us: Seq<StepUsage>, u: StepUsage, key: Seq<char>, i: nat)
    requires
        i <= us.len(),
    ensures
        usage_index(us.push(u), key, i) == (if usage_index(us, key, i) is Some {
            usage_index(us, key, i)
        } else if u.key@ == key {
            Some(us.len())
        } else {
            None
        }),
    decreases us.len() - i,
{
    assert(us.push(u)[us.len() as int] == u);
    if i < us.len() {
        assert(us.push(u)[i as int] == us[i as int]);
        lemma_usage_index_push(us, u, key, i + 1);
    } else {
        assert(usage_index(us, key, i) is None);
        if u.key@ != key {
            assert(usage_index(us.push(u), key, i + 1) is None);
        }
    }
}

/// The occurrences as plain values.
pub open spec fn occ_views(v: Seq<(String, StepLocation)>) -> Seq<(Seq<char>, StepLocation)> {
    Seq::new(v.len(), |i: int| (v[i].0@, v[i].1))
}

/// Appends the steps of one list, with their locations.
fn append_steps(out: &mut Vec<(String, StepLocation)>, steps: &Vec<BddStep>, fi: usize, sci: usize)
    ensures
        occ_views(final(out)@) == occ_views(old(out)@) + step_occurrences(
            step_views(steps@),
            fi as nat,
            sci,
        ),
{
    let ghost base = occ_views(out@);
    let ghost sv = step_views(steps@);
    let mut si: usize = 0;
    assert(occ_views(out@) =~= base + step_occurrences(sv.take(0), fi as nat, sci));
    while si < steps.len()
        invariant
            si <= steps.len(),
            sv == step_views(steps@),
            occ_views(out@) == base + step_occurrences(sv.take(si as int), fi as nat, sci),
        decreases steps.len() - si,
    {
        let loc = StepLocation { feature_idx: fi, scenario_idx: sci, step_idx: si };
        let text = steps[si].text.clone();
        let ghost prev = occ_views(out@);
        out.push((text, loc));
        proof {
            assert(occ_views(out@) =~= prev.push((text@, loc)));
            assert(text@ == sv[si as int].text);
            assert(step_occurrences(sv.take(si + 1), fi as nat, sci) =~= step_occurrences(
                sv.take(si as int),
                fi as nat,
                sci,
            ).push((text@, loc)));
        }
        si += 1;
    }
    assert(sv.take(steps.len() as int) =~= sv);
}

/// Every step of the project with its location, in project order.
fn collect_occurrences(project: &BddProject) -> (r: Vec<(String, StepLocation)>)
    ensures
        occ_views(r@) == project_occurrences(feature_views(project.features@)),
{
    let ghost fv = feature_views(project.features@);
    let mut out: Vec<(String, StepLocation)> = Vec::new();
    let mut fi: usize = 0;
    assert(occ_views(out@) =~= project_occurrences(fv.take(0)));
    while fi < project.features.len()
        invariant
            fi <= project.features.len(),
            fv == feature_views(project.features@),
            occ_views(out@) == project_occurrences(fv.take(fi as int)),
        decreases project.features.len() - fi,
    {
        let feature = &project.features[fi];
        let ghost base = occ_views(out@);
        let ghost f = fv[fi as int];
        assert(f == feature@);
        match &feature.background {
            Some(bg) => {
                append_steps(&mut out, &bg.steps, fi, usize::MAX);
            },
            None => {},
        }
        let ghost bgpart = match f.background {
            Some(bg) => step_occurrences(bg.steps, fi as nat, usize::MAX),
            None => seq![],
        };
        assert(occ_views(out@) == base + bgpart);
        let ghost sv = scenario_views(feature.scenarios@);
        let mut sci: usize = 0;
        assert(occ_views(out@) =~= base + bgpart + scenario_occurrences(sv.take(0), fi as nat));
        while sci < feature.scenarios.len()
            invariant
                sci <= feature.scenarios.len(),
                sv == scenario_views(feature.scenarios@),
                occ_views(out@) == base + bgpart + scenario_occurrences(sv.take(sci as int), fi as nat),
            decreases feature.scenarios.len() - sci,
        {
            let ghost before = occ_views(out@);
            append_steps(&mut out, &feature.scenarios[sci].steps, fi, sci);
            proof {
                assert(sv.take(sci + 1).drop_last() =~= sv.take(sci as int));
                assert(sv.take(sci + 1).last() == feature.scenarios@[sci as int]@);
                assert(occ_views(out@) =~= base + bgpart + scenario_occurrences(
                    sv.take(sci + 1),
                    fi as nat,
                ));
            }
            sci += 1;
        }
        proof {
            assert(sv.take(feature.scenarios.len() as int) =~= sv);
            assert(fv.take(fi + 1).drop_last() =~= fv.take(fi as int));
            assert(fv.take(fi + 1).last() == f);
            assert(occ_views(out@) =~= project_occurrences(fv.take(fi + 1)));
        }
        fi += 1;
    }
    assert(fv.take(project.features.len() as int) =~= fv);
    out
}

/// Adding an occurrence to the usage that already holds its key.
proof fn lemma_add_to_usage(
    us: Seq<StepUsage>,
    vs: Seq<StepUsage>,
    i: nat,
    key: Seq<char>,
    loc: StepLocation,
    occ: Seq<(Seq<char>, StepLocation)>,
)
    requires
        occ.len() > 0,
        normalize_spec(occ.last().0) == key,
        occ.last().1 == loc,
        usage_index(us, key, 0) == Some(i),
        usages_wf(us),
        vs.len() == us.len(),
        forall|k: int| 0 <= k < us.len() && k != i ==> #[trigger] vs[k] == us[k],
        vs[i as int].key@ == key,
        vs[i as int].locations@ == us[i as int].locations@.push(loc),
        forall|k: Seq<char>| #[trigger] usage_locations(us, k) == keyed_locations(occ.drop_last(), k),
    ensures
        usages_wf(vs),
        forall|k: Seq<char>| #[trigger] usage_locations(vs, k) == keyed_locations(occ, k),
{
    lemma_usage_index_found(us, key, 0);
    assert forall|k: int| 0 <= k < us.len() implies #[trigger] us[k].key@ == vs[k].key@ by {}
    assert forall|k: Seq<char>| #[trigger] usage_locations(vs, k) == keyed_locations(occ, k) by {
        lemma_usage_index_same_keys(us, vs, k, 0);
        lemma_usage_index_found(us, k, 0);
        assert(usage_locations(us, k) == keyed_locations(occ.drop_last(), k));
    }
    assert forall|a: int, b: int| 0 <= a < b < vs.len() implies #[trigger] vs[a].key@ != #[trigger] vs[b].key@ by {
        assert(us[a].key@ == vs[a].key@);
        assert(us[b].key@ == vs[b].key@);
    }
    assert forall|a: int| 0 <= a < vs.len() implies #[trigger] vs[a].locations@.len() > 0 by {
        if a != i {
            assert(vs[a] == us[a]);
        }
    }
}

/// Adding an occurrence whose key has no usage yet.
proof fn lemma_add_new_usage(
    us: Seq<StepUsage>,
    u: StepUsage,
    key: Seq<char>,
    loc: StepLocation,
    occ: Seq<(Seq<char>, StepLocation)>,
)
    requires
        occ.len() > 0,
        normalize_spec(occ.last().0) == key,
        occ.last().1 == loc,
        usage_index(us, key, 0) is None,
        usages_wf(us),
        u.key@ == key,
        u.locations@ == seq![loc],
        forall|k: Seq<char>| #[trigger] usage_locations(us, k) == keyed_locations(occ.drop_last(), k),
    ensures
        usages_wf(us.push(u)),
        forall|k: Seq<char>| #[trigger] usage_locations(us.push(u), k) == keyed_locations(occ, k),
{
    lemma_usage_index_found(us, key, 0);
    assert forall|k: Seq<char>| #[trigger] usage_locations(us.push(u), k) == keyed_locations(occ, k) by {
        lemma_usage_index_push(us, u, k, 0);
        lemma_usage_index_found(us, k, 0);
        assert(usage_locations(us, k) == keyed_locations(occ.drop_last(), k));
        if k == key {
            assert(keyed_locations(occ.drop_last(), k) =~= Seq::<StepLocation>::empty());
            assert(keyed_locations(occ, k) =~= seq![loc]);
            assert(us.push(u)[us.len() as int] == u);
        }
    }
    let vs = us.push(u);
    assert forall|a: int, b: int| 0 <= a < b < vs.len() implies #[trigger] vs[a].key@ != #[trigger] vs[b].key@ by {
        if b == us.len() {
            assert(vs[a] == us[a]);
        } else {
            assert(vs[a] == us[a] && vs[b] == us[b]);
        }
    }
    assert forall|a: int| 0 <= a < vs.len() implies #[trigger] vs[a].locations@.len() > 0 by {
        if a < us.len() {
            assert(vs[a] == us[a]);
        }
    }
}

impl StepIndex {
    /// Builds the index by scanning every step in every scenario (including
    /// backgrounds, whose steps have scenario index `usize::MAX`).
    pub fn build(project: &BddProject) -> (idx: StepIndex)
        ensures
            idx.wf(),
            forall|key: Seq<char>|
                #[trigger] idx.locations_for(key) == keyed_locations(
                    project_occurrences(feature_views(project.features@)),
                    key,
                ),
    {
        let occ = collect_occurrences(project);
        let ghost ov = occ_views(occ@);
        let mut usages: Vec<StepUsage> = Vec::new();
        let mut n: usize = 0;
        proof {
            assert forall|key: Seq<char>| #[trigger] usage_locations(usages@, key) == keyed_locations(
                ov.take(0),
                key,
            ) by {
                assert(ov.take(0) =~= Seq::<(Seq<char>, StepLocation)>::empty());
            }
        }
        while n < occ.len()
            invariant
                n <= occ.len(),
                ov == occ_views(occ@),
                usages_wf(usages@),
                forall|key: Seq<char>| #[trigger] usage_locations(usages@, key) == keyed_locations(
                    ov.take(n as int),
                    key,
                ),
            decreases occ.len() - n,
        {
            let key = normalize(occ[n].0.as_str());
            let loc = occ[n].1;
            let ghost us = usages@;
            let mut i: usize = 0;
            while i < usages.len() && !(usages[i].key == key)
                invariant
                    i <= usages.len(),
                    us == usages@,
                    usage_index(us, key@, i as nat) == usage_index(us, key@, 0),
                decreases usages.len() - i,
            {
                i += 1;
            }
            proof {
                assert(ov.take(n + 1).drop_last() =~= ov.take(n as int));
                assert(ov.take(n + 1).last() == ov[n as int]);
                assert(normalize_spec(ov[n as int].0) == key@);
            }
            if i < usages.len() {
                let mut u = usages.remove(i);
                u.locations.push(loc);
                usages.insert(i, u);
                proof {
                    assert(usages@ =~= us.update(i as int, u));
                    lemma_add_to_usage(us, usages@, i as nat, key@, loc, ov.take(n + 1));
                }
            } else {
                let mut locations: Vec<StepLocation> = Vec::new();
                locations.push(loc);
                let u = StepUsage { key, locations };
                usages.push(u);
                proof {
                    lemma_add_new_usage(us, u, u.key@, loc, ov.take(n + 1));
                }
            }
            n += 1;
        }
        assert(ov.take(occ.len() as int) =~= ov);
        StepIndex { usages }
    }

    /// Returns the total usage count for a step body (>= 2 means reused).
    pub fn reuse_count(&self, step_text: &str) -> (count: usize)
        ensures
            count == self.locations_for(normalize_spec(step_text@)).len(),
    {
        let key = normalize(step_text);
        let ghost us = self.usages@;
        let mut i: usize = 0;
        while i < self.usages.len() && !(self.usages[i].key == key)
            invariant
                i <= self.usages.len(),
                us == self.usages@,
                usage_index(us, key@, i as nat) == usage_index(us, key@, 0),
            decreases self.usages.len() - i,
        {
            i += 1;
        }
        if i < self.usages.len() {
            self.usages[i].locations.len()
        } else {
            0
        }
    }
}

// ── Laws ─────────────────────────────────────────────────────────────────────

/// Step bodies that differ only in their spacing have one normal form, so
/// they share one entry of the index and one reuse count.
pub proof fn lemma_normal_form_ignores_spacing(a: Seq<char>, b: Seq<char>)
    requires
        words(a) == words(b),
    ensures
        normalize_spec(a) == normalize_spec(b),
{
}

/// The reuse count of a step text, in an index built from a project, is the
/// number of steps of the project (backgrounds included) whose normal form is
/// that of the text.
pub proof fn lemma_reuse_count_counts_steps(idx: StepIndex, fs: Seq<FeatureView>, text: Seq<char>)
    requires
        forall|key: Seq<char>| #[trigger] idx.locations_for(key) == keyed_locations(project_occurrences(fs), key),
    ensures
        idx.locations_for(normalize_spec(text)).len() == project_occurrences(fs).filter(
            |o: (Seq<char>, StepLocation)| normalize_spec(o.0) == normalize_spec(text),
        ).len(),
{
    lemma_keyed_locations_count(project_occurrences(fs), normalize_spec(text));
}

proof fn lemma_keyed_locations_count(occ: Seq<(Seq<char>, StepLocation)>, key: Seq<char>)
    ensures
        keyed_locations(occ, key).len() == occ.filter(|o: (Seq<char>, StepLocation)| normalize_spec(o.0) == key).len(),
    decreases occ.len(),
{
    reveal(Seq::filter);
    if occ.len() > 0 {
        lemma_keyed_locations_count(occ.drop_last(), key);
    }
}

/// The number of steps of scenarios, whatever their kind.
pub open spec fn scenario_step_total(scs: Seq<ScenarioView>) -> nat
    decreases scs.len(),
{
    if scs.len() == 0 {
        0
    } else {
        scenario_step_total(scs.drop_last()) + scs.last().steps.len()
    }
}

/// The number of steps of a feature: its background's and its scenarios'.
pub open spec fn feature_step_total(f: FeatureView) -> nat {
    (match f.background {
        Some(bg) => bg.steps.len(),
        None => 0,
    }) + scenario_step_total(f.scenarios)
}

/// The number of steps of a project, backgrounds included.
pub open spec fn project_step_total(fs: Seq<FeatureView>) -> nat
    decreases fs.len(),
{
    if fs.len() == 0 {
        0
    } else {
        project_step_total(fs.drop_last()) + feature_step_total(fs.last())
    }
}

proof fn lemma_scenario_occurrences(scs: Seq<ScenarioView>, fi: nat)
    ensures
        scenario_occurrences(scs, fi).len() == scenario_step_total(scs),
        forall|sci: int, si: int|
            0 <= sci < scs.len() && 0 <= si < scs[sci].steps.len() ==> scenario_occurrences(scs, fi).contains(
                (
                    #[trigger] scs[sci].steps[si].text,
                    StepLocation { feature_idx: fi as usize, scenario_idx: sci as usize, step_idx: si as usize },
                ),
            ),
    decreases scs.len(),
{
    if scs.len() > 0 {
        let init = scs.drop_last();
        lemma_scenario_occurrences(init, fi);
        let a = scenario_occurrences(init, fi);
        let b = step_occurrences(scs.last().steps, fi, (scs.len() - 1) as usize);
        assert forall|sci: int, si: int|
            0 <= sci < scs.len() && 0 <= si < scs[sci].steps.len() implies scenario_occurrences(scs, fi).contains(
                (
                    #[trigger] scs[sci].steps[si].text,
                    StepLocation { feature_idx: fi as usize, scenario_idx: sci as usize, step_idx: si as usize },
                ),
            ) by {
            let o = (
                scs[sci].steps[si].text,
                StepLocation { feature_idx: fi as usize, scenario_idx: sci as usize, step_idx: si as usize },
            );
            if sci == scs.len() - 1 {
                assert((a + b)[a.len() + si] == o);
            } else {
                assert(init[sci] == scs[sci]);
                assert(init[sci].steps[si].text == scs[sci].steps[si].text);
                assert(a.contains(o));
                let j = choose|j: int| 0 <= j < a.len() && a[j] == o;
                assert((a + b)[j] == o);
            }
        }
    }
}

proof fn lemma_feature_occurrences(f: FeatureView, fi: nat)
    ensures
        feature_occurrences(f, fi).len() == feature_step_total(f),
        forall|sci: int, si: int|
            0 <= sci < f.scenarios.len() && 0 <= si < f.scenarios[sci].steps.len() ==> feature_occurrences(f, fi).contains(
                (
                    #[trigger] f.scenarios[sci].steps[si].text,
                    StepLocation { feature_idx: fi as usize, scenario_idx: sci as usize, step_idx: si as usize },
                ),
            ),
{
    lemma_scenario_occurrences(f.scenarios, fi);
    let a = match f.background {
        Some(bg) => step_occurrences(bg.steps, fi, usize::MAX),
        None => seq![],
    };
    let b = scenario_occurrences(f.scenarios, fi);
    assert forall|sci: int, si: int|
        0 <= sci < f.scenarios.len() && 0 <= si < f.scenarios[sci].steps.len() implies feature_occurrences(f, fi).contains(
            (
                #[trigger] f.scenarios[sci].steps[si].text,
                StepLocation { feature_idx: fi as usize, scenario_idx: sci as usize, step_idx: si as usize },
            ),
        ) by {
        let o = (
            f.scenarios[sci].steps[si].text,
            StepLocation { feature_idx: fi as usize, scenario_idx: sci as usize, step_idx: si as usize },
        );
        assert(b.contains(o));
        let j = choose|j: int| 0 <= j < b.len() && b[j] == o;
        assert((a + b)[a.len() + j] == o);
    }
}

/// The index is built over every step of the project: the occurrences it
/// is built from are as many as the background and scenario steps of all
/// features together, whatever the kind of each scenario (outlines
/// included), and every step of every scenario is among them, with its
/// feature, scenario and step positions.
pub proof fn lemma_every_step_is_indexed(fs: Seq<FeatureView>)
    ensures
        project_occurrences(fs).len() == project_step_total(fs),
        forall|fi: int, sci: int, si: int|
            0 <= fi < fs.len() && 0 <= sci < fs[fi].scenarios.len() && 0 <= si < fs[fi].scenarios[sci].steps.len()
                ==> project_occurrences(fs).contains(
                (
                    #[trigger] fs[fi].scenarios[sci].steps[si].text,
                    StepLocation { feature_idx: fi as usize, scenario_idx: sci as usize, step_idx: si as usize },
                ),
            ),
    decreases fs.len(),
{
    if fs.len() > 0 {
        let init = fs.drop_last();
        let last_fi = (fs.len() - 1) as nat;
        lemma_every_step_is_indexed(init);
        lemma_feature_occurrences(fs.last(), last_fi);
        let a = project_occurrences(init);
        let b = feature_occurrences(fs.last(), last_fi);
        assert forall|fi: int, sci: int, si: int|
            0 <= fi < fs.len() && 0 <= sci < fs[fi].scenarios.len() && 0 <= si < fs[fi].scenarios[sci].steps.len()
                implies project_occurrences(fs).contains(
                (
                    #[trigger] fs[fi].scenarios[sci].steps[si].text,
                    StepLocation { feature_idx: fi as usize, scenario_idx: sci as usize, step_idx: si as usize },
                ),
            ) by {
            let o = (
                fs[fi].scenarios[sci].steps[si].text,
                StepLocation { feature_idx: fi as usize, scenario_idx: sci as usize, step_idx: si as usize },
            );
            if fi == fs.len() - 1 {
                assert(fs.last().scenarios[sci].steps[si].text == fs[fi].scenarios[sci].steps[si].text);
                assert(b.contains(o));
                let j = choose|j: int| 0 <= j < b.len() && b[j] == o;
                assert((a + b)[a.len() + j] == o);
            } else {
                assert(init[fi] == fs[fi]);
                assert(init[fi].scenarios[sci].steps[si].text == fs[fi].scenarios[sci].steps[si].text);
                assert(a.contains(o));
                let j = choose|j: int| 0 <= j < a.len() && a[j] == o;
                assert((a + b)[j] == o);
            }
        }
    }
}

} // verus!

//! The run status recorded for each scenario, keyed by feature and scenario
//! index.

use vstd::prelude::*;
use crate::explorer::{ScenarioMark, mark_views};
use crate::text::push_str;

verus! {

/// Run statuses ("passed", "failed", "running", ...) by `(feature, scenario)`
/// index.  At most one status per scenario; a new one replaces the old.
///
/// The entries are a list with distinct keys rather than a
/// `HashMap<(usize, usize), String>`: vstd specifies `HashMap` only for key
/// types whose hashing it models, and a pair of indices is not one of them.
#[derive(Debug)]
pub struct ScenarioStatusMap {
    entries: Vec<(usize, usize, String)>,
}

/// The map that a list of entries describes; a later entry wins.
pub open spec fn entries_map(es: Seq<(usize, usize, String)>) -> Map<(nat, nat), Seq<char>>
    decreases es.len(),
{
    if es.len() == 0 {
        Map::empty()
    } else {
        entries_map(es.drop_last()).insert((es.last().0 as nat, es.last().1 as nat), es.last().2@)
    }
}

/// The key of an entry.
pub open spec fn entry_key(e: (usize, usize, String)) -> (nat, nat) {
    (e.0 as nat, e.1 as nat)
}

/// No two entries have the same key.
pub open spec fn keys_distinct(es: Seq<(usize, usize, String)>) -> bool {
    forall|a: int, b: int| 0 <= a < b < es.len() ==> entry_key(#[trigger] es[a]) != entry_key(#[trigger] es[b])
}

/// Whether a scenario's status in `m` is `status`.
pub open spec fn has_status(m: Map<(nat, nat), Seq<char>>, status: Seq<char>) -> spec_fn((nat, nat)) -> bool {
    |k: (nat, nat)| m[k] == status
}

/// The number of scenarios whose status is `status`.
pub open spec fn status_count(m: Map<(nat, nat), Seq<char>>, status: Seq<char>) -> nat {
    m.dom().filter(has_status(m, status)).len()
}

/// The statuses after recording marks in order.
pub open spec fn apply_marks(m: Map<(nat, nat), Seq<char>>, ms: Seq<(nat, nat, Seq<char>)>) -> Map<
    (nat, nat),
    Seq<char>,
>
    decreases ms.len(),
{
    if ms.len() == 0 {
        m
    } else {
        apply_marks(m, ms.drop_last()).insert((ms.last().0, ms.last().1), ms.last().2)
    }
}

impl View for ScenarioStatusMap {
    type V = Map<(nat, nat), Seq<char>>;

    closed spec fn view(&self) -> Map<(nat, nat), Seq<char>> {
        entries_map(self.entries@)
    }
}

proof fn lemma_entries_map_domain(es: Seq<(usize, usize, String)>)
    ensures
        entries_map(es).dom().finite(),
        forall|k: (nat, nat)|
            #[trigger] entries_map(es).dom().contains(k) <==> exists|i: int| 0 <= i < es.len() && entry_key(es[i]) == k,
    decreases es.len(),
{
    if es.len() > 0 {
        let init = es.drop_last();
        lemma_entries_map_domain(init);
        assert forall|k: (nat, nat)| #[trigger] entries_map(es).dom().contains(k) <==> exists|i: int|
            0 <= i < es.len() && entry_key(es[i]) == k by {
            if entries_map(es).dom().contains(k) {
                if k == entry_key(es.last()) {
                    assert(entry_key(es[es.len() - 1]) == k);
                } else {
                    let i = choose|i: int| 0 <= i < init.len() && entry_key(init[i]) == k;
                    assert(entry_key(es[i]) == k);
                }
            }
            if exists|i: int| 0 <= i < es.len() && entry_key(es[i]) == k {
                let i = choose|i: int| 0 <= i < es.len() && entry_key(es[i]) == k;
                if i < init.len() {
                    assert(init[i] == es[i]);
                }
            }
        }
    }
}

proof fn lemma_entries_map_value(es: Seq<(usize, usize, String)>, i: int)
    requires
        keys_distinct(es),
        0 <= i < es.len(),
    ensures
        entries_map(es).dom().contains(entry_key(es[i])),
        entries_map(es)[entry_key(es[i])] == es[i].2@,
    decreases es.len(),
{
    let init = es.drop_last();
    if i < es.len() - 1 {
        assert(init[i] == es[i]);
        assert(keys_distinct(init)) by {
            assert forall|a: int, b: int| 0 <= a < b < init.len() implies entry_key(#[trigger] init[a])
                != entry_key(#[trigger] init[b]) by {
                assert(init[a] == es[a] && init[b] == es[b]);
            }
        }
        lemma_entries_map_value(init, i);
        assert(entry_key(es[i]) != entry_key(es[es.len() - 1]));
    }
}

proof fn lemma_keys_distinct_init(es: Seq<(usize, usize, String)>)
    requires
        keys_distinct(es),
        es.len() > 0,
    ensures
        keys_distinct(es.drop_last()),
        !entries_map(es.drop_last()).dom().contains(entry_key(es.last())),
{
    let init = es.drop_last();
    assert forall|a: int, b: int| 0 <= a < b < init.len() implies entry_key(#[trigger] init[a]) != entry_key(
        #[trigger] init[b],
    ) by {
        assert(init[a] == es[a] && init[b] == es[b]);
    }
    lemma_entries_map_domain(init);
    if entries_map(init).dom().contains(entry_key(es.last())) {
        let i = choose|i: int| 0 <= i < init.len() && entry_key(init[i]) == entry_key(es.last());
        assert(init[i] == es[i]);
        assert(entry_key(es[i]) != entry_key(es[es.len() - 1]));
    }
}

/// The number of entries whose status is `status`.
pub open spec fn entries_count(es: Seq<(usize, usize, String)>, status: Seq<char>) -> nat
    decreases es.len(),
{
    if es.len() == 0 {
        0
    } else {
        entries_count(es.drop_last(), status) + if es.last().2@ == status {
            1nat
        } else {
            0nat
        }
    }
}

proof fn lemma_entries_count(es: Seq<(usize, usize, String)>, status: Seq<char>)
    requires
        keys_distinct(es),
    ensures
        entries_count(es, status) == status_count(entries_map(es), status),
    decreases es.len(),
{
    let m = entries_map(es);
    if es.len() == 0 {
        assert(m.dom().filter(has_status(m, status)) =~= Set::<(nat, nat)>::empty());
    } else {
        let init = es.drop_last();
        lemma_keys_distinct_init(es);
        lemma_entries_count(init, status);
        lemma_entries_map_domain(init);
        let mi = entries_map(init);
        let k = entry_key(es.last());
        let fi = mi.dom().filter(has_status(mi, status));
        let f = m.dom().filter(has_status(m, status));
        assert(fi.finite()) by {
            mi.dom().lemma_len_filter(has_status(mi, status));
        }
        assert(m == mi.insert(k, es.last().2@));
        assert(!mi.dom().contains(k));
        assert(!fi.contains(k));
        if es.last().2@ == status {
            assert(f =~= fi.insert(k));
            assert(f.len() == fi.len() + 1);
        } else {
            assert(f =~= fi);
        }
    }
}

proof fn lemma_entries_count_step(es: Seq<(usize, usize, String)>, i: int, status: Seq<char>)
    requires
        0 <= i < es.len(),
    ensures
        entries_count(es.take(i + 1), status) == entries_count(es.take(i), status) + if es[i].2@ == status {
            1nat
        } else {
            0nat
        },
{
    assert(es.take(i + 1).drop_last() =~= es.take(i));
}

impl ScenarioStatusMap {
    /// The entries have distinct keys.
    #[verifier::type_invariant]
    spec fn keys_unique(self) -> bool {
        keys_distinct(self.entries@)
    }

    /// No status recorded.
    pub fn new() -> (m: Self)
        ensures
            m@ == Map::<(nat, nat), Seq<char>>::empty(),
    {
        ScenarioStatusMap { entries: Vec::new() }
    }

    /// Records `status` for scenario `scenario_idx` of feature `feature_idx`,
    /// replacing any status it had.
    pub fn insert(&mut self, feature_idx: usize, scenario_idx: usize, status: String)
        ensures
            final(self)@ == old(self)@.insert((feature_idx as nat, scenario_idx as nat), status@),
    {
        proof {
            use_type_invariant(&*self);
        }
        let ghost es = self.entries@;
        let ghost key = (feature_idx as nat, scenario_idx as nat);
        let mut i: usize = 0;
        while i < self.entries.len() && !(self.entries[i].0 == feature_idx && self.entries[i].1
            == scenario_idx)
            invariant
                i <= self.entries.len(),
                es == self.entries@,
                key == (feature_idx as nat, scenario_idx as nat),
                forall|j: int| 0 <= j < i ==> entry_key(#[trigger] es[j]) != key,
            decreases self.entries.len() - i,
        {
            assert(entry_key(es[i as int]) != key);
            i += 1;
        }
        proof {
            lemma_entries_map_domain(es);
        }
        let mut entries: Vec<(usize, usize, String)> = Vec::new();
        std::mem::swap(&mut entries, &mut self.entries);
        if i < entries.len() {
            let ghost old_m = entries_map(es);
            entries.set(i, (feature_idx, scenario_idx, status));
            let ghost ns = entries@;
            proof {
                assert(entry_key(es[i as int]) == key);
                assert forall|a: int, b: int| 0 <= a < b < ns.len() implies entry_key(#[trigger] ns[a])
                    != entry_key(#[trigger] ns[b]) by {
                    assert(entry_key(ns[a]) == entry_key(es[a]));
                    assert(entry_key(ns[b]) == entry_key(es[b]));
                }
                lemma_entries_map_domain(ns);
                assert forall|k: (nat, nat)| #[trigger] entries_map(ns).dom().contains(k) <==> old_m.insert(
                    key,
                    status@,
                ).dom().contains(k) by {
                    if entries_map(ns).dom().contains(k) {
                        let j = choose|j: int| 0 <= j < ns.len() && entry_key(ns[j]) == k;
                        assert(entry_key(es[j]) == k);
                    }
                    if old_m.dom().contains(k) {
                        let j = choose|j: int| 0 <= j < es.len() && entry_key(es[j]) == k;
                        assert(entry_key(ns[j]) == k);
                    }
                }
                assert forall|k: (nat, nat)| #[trigger] entries_map(ns).dom().contains(k) implies entries_map(
                    ns,
                )[k] == old_m.insert(key, status@)[k] by {
                    let j = choose|j: int| 0 <= j < ns.len() && entry_key(ns[j]) == k;
                    lemma_entries_map_value(ns, j);
                    if j != i {
                        assert(ns[j] == es[j]);
                        lemma_entries_map_value(es, j);
                    }
                }
                assert(entries_map(ns) =~= old_m.insert(key, status@));
            }
        } else {
            entries.push((feature_idx, scenario_idx, status));
            proof {
                let ns = entries@;
                assert(ns.drop_last() =~= es);
                assert forall|a: int, b: int| 0 <= a < b < ns.len() implies entry_key(#[trigger] ns[a])
                    != entry_key(#[trigger] ns[b]) by {
                    if b == es.len() {
                        assert(ns[a] == es[a]);
                    } else {
                        assert(ns[a] == es[a] && ns[b] == es[b]);
                    }
                }
            }
        }
        self.entries = entries;
    }

    /// Records marks in order: a later mark for a scenario wins.
    pub fn apply(&mut self, marks: &Vec<ScenarioMark>)
        ensures
            final(self)@ == apply_marks(old(self)@, mark_views(marks@)),
    {
        let ghost m0 = self@;
        let ghost mv = mark_views(marks@);
        let mut i: usize = 0;
        assert(mv.take(0) =~= Seq::<(nat, nat, Seq<char>)>::empty());
        while i < marks.len()
            invariant
                i <= marks.len(),
                mv == mark_views(marks@),
                self@ == apply_marks(m0, mv.take(i as int)),
            decreases marks.len() - i,
        {
            let m = &marks[i];
            self.insert(m.feature_idx, m.scenario_idx, m.status.clone());
            proof {
                assert(mv.take(i + 1).drop_last() =~= mv.take(i as int));
                assert(mv.take(i + 1).last() == mv[i as int]);
            }
            i += 1;
        }
        assert(mv.take(marks.len() as int) =~= mv);
    }

    /// The status recorded for a scenario, if any.
    pub fn get(&self, feature_idx: usize, scenario_idx: usize) -> (r: Option<String>)
        ensures
            match r {
                Some(s) => self@.contains_key((feature_idx as nat, scenario_idx as nat)) && s@ == self@[(
                    feature_idx as nat,
                    scenario_idx as nat,
                )],
                None => !self@.contains_key((feature_idx as nat, scenario_idx as nat)),
            },
    {
        proof {
            use_type_invariant(self);
        }
        let ghost es = self.entries@;
        let ghost key = (feature_idx as nat, scenario_idx as nat);
        let mut i: usize = 0;
        while i < self.entries.len()
            invariant
                i <= self.entries.len(),
                es == self.entries@,
                keys_distinct(es),
                key == (feature_idx as nat, scenario_idx as nat),
                forall|j: int| 0 <= j < i ==> entry_key(#[trigger] es[j]) != key,
            decreases self.entries.len() - i,
        {
            if self.entries[i].0 == feature_idx && self.entries[i].1 == scenario_idx {
                proof {
                    lemma_entries_map_value(es, i as int);
                }
                return Some(self.entries[i].2.clone());
            }
            assert(entry_key(es[i as int]) != key);
            i += 1;
        }
        proof {
            lemma_entries_map_domain(es);
        }
        None
    }

    /// The number of scenarios whose recorded status is `status`.
    pub fn count(&self, status: &str) -> (n: usize)
        ensures
            n == status_count(self@, status@),
    {
        proof {
            use_type_invariant(self);
        }
        let ghost es = self.entries@;
        let target = String::from_str(status);
        let mut n: usize = 0;
        let mut i: usize = 0;
        assert(es.take(0) =~= Seq::<(usize, usize, String)>::empty());
        while i < self.entries.len()
            invariant
                i <= self.entries.len(),
                es == self.entries@,
                target@ == status@,
                n == entries_count(es.take(i as int), status@),
                n <= i,
            decreases self.entries.len() - i,
        {
            proof {
                lemma_entries_count_step(es, i as int, status@);
            }
            if self.entries[i].2 == target {
                n += 1;
            }
            i += 1;
        }
        proof {
            assert(es.take(es.len() as int) =~= es);
            lemma_entries_count(es, status@);
        }
        n
    }
}

/// Recording a status and reading it back: the scenario reads back the
/// status just recorded, every other scenario keeps what it had, and the
/// count of a status other than the recorded one can only go down.
pub proof fn lemma_recorded_status_is_read_back(
    m: Map<(nat, nat), Seq<char>>,
    key: (nat, nat),
    status: Seq<char>,
    other: (nat, nat),
)
    ensures
        m.insert(key, status).contains_key(key),
        m.insert(key, status)[key] == status,
        other != key ==> (m.insert(key, status).contains_key(other) == m.contains_key(other)),
        other != key && m.contains_key(other) ==> m.insert(key, status)[other] == m[other],
{
}

/// Marks applied in order leave each marked scenario with the status of its
/// last mark.
pub proof fn lemma_last_mark_wins(m: Map<(nat, nat), Seq<char>>, ms: Seq<(nat, nat, Seq<char>)>, k: int)
    requires
        0 <= k < ms.len(),
        forall|j: int| k < j < ms.len() ==> (#[trigger] ms[j]).0 != ms[k].0 || ms[j].1 != ms[k].1,
    ensures
        apply_marks(m, ms).contains_key((ms[k].0, ms[k].1)),
        apply_marks(m, ms)[(ms[k].0, ms[k].1)] == ms[k].2,
    decreases ms.len(),
{
    if k < ms.len() - 1 {
        let init = ms.drop_last();
        assert forall|j: int| k < j < init.len() implies (#[trigger] init[j]).0 != init[k].0 || init[j].1
            != init[k].1 by {
            assert(init[j] == ms[j]);
        }
        lemma_last_mark_wins(m, init, k);
        assert(init[k] == ms[k]);
        assert(ms.last() == ms[ms.len() - 1]);
    }
}

} // verus!

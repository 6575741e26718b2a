//! Line diffs of Gherkin buffers.
//!
//! The two texts are split into lines and matched along a longest common
//! subsequence of their lines; the unmatched lines around each match become
//! deletions and additions.  A deletion directly followed by an addition is
//! then reported as one modified line.

use vstd::prelude::*;
use crate::text::{chars_of, lemma_texts_push, lines_of, split_lines, string_of, texts};

verus! {

/// The kind of change a line represents.
#[derive(Debug, Clone, Copy, PartialEq, Eq, Structural)]
pub enum ChangeKind {
    Added,
    Modified,
    Deleted,
    Unchanged,
}

/// One line of a computed diff between old and new buffer content.
#[derive(Debug, Clone)]
pub struct DiffLine {
    /// 1-based line number in the *new* buffer (0 for deleted lines).
    pub line_number_1based: usize,
    pub kind: ChangeKind,
    /// The text in the new buffer (or the old text for deleted lines).
    pub text: String,
    /// The old text for Modified/Deleted lines.
    pub old_text: Option<String>,
}

/// A diff line as plain values.
pub struct DiffLineView {
    pub line_number: nat,
    pub kind: ChangeKind,
    pub text: Seq<char>,
    pub old_text: Option<Seq<char>>,
}

/// The view of an optional string.
pub open spec fn opt_text(o: Option<String>) -> Option<Seq<char>> {
    match o {
        Some(s) => Some(s@),
        None => None,
    }
}

impl View for DiffLine {
    type V = DiffLineView;

    open spec fn view(&self) -> DiffLineView {
        DiffLineView {
            line_number: self.line_number_1based as nat,
            kind: self.kind,
            text: self.text@,
            old_text: opt_text(self.old_text),
        }
    }
}

/// The views of a sequence of diff lines.
pub open spec fn diff_views(v: Seq<DiffLine>) -> Seq<DiffLineView> {
    Seq::new(v.len(), |i: int| v[i]@)
}

// ── Matching ─────────────────────────────────────────────────────────────────

/// The larger of two numbers.
pub open spec fn max_nat(a: nat, b: nat) -> nat {
    if a >= b {
        a
    } else {
        b
    }
}

/// The length of a longest common subsequence of the old lines from `i` on
/// and the new lines from `j` on.
pub open spec fn lcs_len(old: Seq<Seq<char>>, new: Seq<Seq<char>>, i: nat, j: nat) -> nat
    decreases old.len() + new.len() - i - j,
{
    if i >= old.len() || j >= new.len() {
        0
    } else {
        max_nat(
            max_nat(lcs_len(old, new, i + 1, j), lcs_len(old, new, i, j + 1)),
            if old[i as int] == new[j as int] {
                1 + lcs_len(old, new, i + 1, j + 1)
            } else {
                0
            },
        )
    }
}

/// The `(old, new)` pairs of a longest common subsequence from lines `i` and
/// `j` on: the two current lines are matched when that keeps the longest
/// length, else the old line is skipped when that keeps it, else the new
/// line is.
pub open spec fn lcs_pairs_from(old: Seq<Seq<char>>, new: Seq<Seq<char>>, i: nat, j: nat) -> Seq<
    (nat, nat),
>
    decreases old.len() + new.len() - i - j,
{
    if i >= old.len() || j >= new.len() {
        seq![]
    } else if old[i as int] == new[j as int] && 1 + lcs_len(old, new, i + 1, j + 1) == lcs_len(
        old,
        new,
        i,
        j,
    ) {
        seq![(i, j)] + lcs_pairs_from(old, new, i + 1, j + 1)
    } else if lcs_len(old, new, i + 1, j) == lcs_len(old, new, i, j) {
        lcs_pairs_from(old, new, i + 1, j)
    } else {
        lcs_pairs_from(old, new, i, j + 1)
    }
}

/// The matched line pairs of two texts' lines: a longest common subsequence.
pub open spec fn matched_pairs(old: Seq<Seq<char>>, new: Seq<Seq<char>>) -> Seq<(nat, nat)> {
    lcs_pairs_from(old, new, 0, 0)
}

// ── Emission ─────────────────────────────────────────────────────────────────

/// A deleted old line.
pub open spec fn deleted_line(line: Seq<char>) -> DiffLineView {
    DiffLineView { line_number: 0, kind: ChangeKind::Deleted, text: line, old_text: Some(line) }
}

/// An added line, at 0-based index `j` of the new text.
pub open spec fn added_line(line: Seq<char>, j: nat) -> DiffLineView {
    DiffLineView { line_number: j + 1, kind: ChangeKind::Added, text: line, old_text: None }
}

/// A matched pair of lines, the new one at 0-based index `j`.
pub open spec fn matched_line(old_line: Seq<char>, new_line: Seq<char>, j: nat) -> DiffLineView {
    if old_line == new_line {
        DiffLineView {
            line_number: j + 1,
            kind: ChangeKind::Unchanged,
            text: new_line,
            old_text: None,
        }
    } else {
        DiffLineView {
            line_number: j + 1,
            kind: ChangeKind::Modified,
            text: new_line,
            old_text: Some(old_line),
        }
    }
}

/// Old lines `a` up to `b` as deletions.
pub open spec fn deleted_run(old: Seq<Seq<char>>, a: nat, b: nat) -> Seq<DiffLineView> {
    Seq::new(if a <= b { (b - a) as nat } else { 0 }, |k: int| deleted_line(old[a + k]))
}

/// New lines `a` up to `b` as additions.
pub open spec fn added_run(new: Seq<Seq<char>>, a: nat, b: nat) -> Seq<DiffLineView> {
    Seq::new(if a <= b { (b - a) as nat } else { 0 }, |k: int| added_line(new[a + k], (a + k) as nat))
}

/// The diff lines for the remaining pairs, old lines from `oi` and new
/// lines from `ni` on not yet reported.
pub open spec fn emit(
    old: Seq<Seq<char>>,
    new: Seq<Seq<char>>,
    pairs: Seq<(nat, nat)>,
    oi: nat,
    ni: nat,
) -> Seq<DiffLineView>
    decreases pairs.len(),
{
    if pairs.len() == 0 {
        deleted_run(old, oi, old.len()) + added_run(new, ni, new.len())
    } else {
        let (po, pn) = pairs[0];
        deleted_run(old, oi, po) + added_run(new, ni, pn) + seq![
            matched_line(old[po as int], new[pn as int], pn),
        ] + emit(old, new, pairs.drop_first(), po + 1, pn + 1)
    }
}

/// Adjacent deletion-addition pairs merged into modified lines.
pub open spec fn merge_adjacent(ds: Seq<DiffLineView>) -> Seq<DiffLineView>
    decreases ds.len(),
{
    if ds.len() >= 2 && ds[0].kind == ChangeKind::Deleted && ds[1].kind == ChangeKind::Added {
        seq![
            DiffLineView {
                line_number: ds[1].line_number,
                kind: ChangeKind::Modified,
                text: ds[1].text,
                old_text: Some(ds[0].text),
            },
        ] + merge_adjacent(ds.skip(2))
    } else if ds.len() >= 1 {
        seq![ds[0]] + merge_adjacent(ds.drop_first())
    } else {
        seq![]
    }
}

/// The diff of the lines of two texts.
pub open spec fn diff_lines_spec(old: Seq<Seq<char>>, new: Seq<Seq<char>>) -> Seq<DiffLineView> {
    merge_adjacent(emit(old, new, matched_pairs(old, new), 0, 0))
}

/// The diff of two texts.
pub open spec fn diff_spec(old_content: Seq<char>, new_content: Seq<char>) -> Seq<DiffLineView> {
    diff_lines_spec(lines_of(old_content), lines_of(new_content))
}


// ── Properties of the matching ───────────────────────────────────────────────

/// Pairs that can be reported from old line `oi` and new line `ni` on: each
/// pair lies at or after the previous one plus one, inside both texts, and
/// joins two equal lines.
pub open spec fn pairs_valid_from(
    old: Seq<Seq<char>>,
    new: Seq<Seq<char>>,
    ps: Seq<(nat, nat)>,
    oi: nat,
    ni: nat,
) -> bool
    decreases ps.len(),
{
    ps.len() > 0 ==> {
        &&& oi <= ps[0].0 < old.len()
        &&& ni <= ps[0].1 < new.len()
        &&& old[ps[0].0 as int] == new[ps[0].1 as int]
        &&& pairs_valid_from(old, new, ps.drop_first(), ps[0].0 + 1, ps[0].1 + 1)
    }
}

proof fn lemma_pairs_valid_weaken(
    old: Seq<Seq<char>>,
    new: Seq<Seq<char>>,
    ps: Seq<(nat, nat)>,
    oi: nat,
    ni: nat,
    oi2: nat,
    ni2: nat,
)
    requires
        pairs_valid_from(old, new, ps, oi, ni),
        oi2 <= oi,
        ni2 <= ni,
    ensures
        pairs_valid_from(old, new, ps, oi2, ni2),
{
}

/// A longest common subsequence is no longer than the old lines left.
proof fn lemma_lcs_bound(old: Seq<Seq<char>>, new: Seq<Seq<char>>, i: nat, j: nat)
    requires
        i <= old.len(),
    ensures
        lcs_len(old, new, i, j) <= old.len() - i,
    decreases old.len() + new.len() - i - j,
{
    if i < old.len() && j < new.len() {
        lemma_lcs_bound(old, new, i + 1, j);
        lemma_lcs_bound(old, new, i, j + 1);
        lemma_lcs_bound(old, new, i + 1, j + 1);
    }
}

/// The chosen pairs form a common subsequence, as long as the longest.
proof fn lemma_lcs_pairs(old: Seq<Seq<char>>, new: Seq<Seq<char>>, i: nat, j: nat)
    ensures
        pairs_valid_from(old, new, lcs_pairs_from(old, new, i, j), i, j),
        lcs_pairs_from(old, new, i, j).len() == lcs_len(old, new, i, j),
    decreases old.len() + new.len() - i - j,
{
    if i < old.len() && j < new.len() {
        let l = lcs_len(old, new, i, j);
        if old[i as int] == new[j as int] && 1 + lcs_len(old, new, i + 1, j + 1) == l {
            lemma_lcs_pairs(old, new, i + 1, j + 1);
            let ps = seq![(i, j)] + lcs_pairs_from(old, new, i + 1, j + 1);
            assert(ps.drop_first() =~= lcs_pairs_from(old, new, i + 1, j + 1));
        } else if lcs_len(old, new, i + 1, j) == l {
            lemma_lcs_pairs(old, new, i + 1, j);
            lemma_pairs_valid_weaken(old, new, lcs_pairs_from(old, new, i + 1, j), i + 1, j, i, j);
        } else {
            lemma_lcs_pairs(old, new, i, j + 1);
            lemma_pairs_valid_weaken(old, new, lcs_pairs_from(old, new, i, j + 1), i, j + 1, i, j);
        }
    }
}

/// No common subsequence from lines `i` and `j` on is longer than `lcs_len`.
proof fn lemma_lcs_maximal(old: Seq<Seq<char>>, new: Seq<Seq<char>>, ps: Seq<(nat, nat)>, i: nat, j: nat)
    requires
        pairs_valid_from(old, new, ps, i, j),
    ensures
        ps.len() <= lcs_len(old, new, i, j),
    decreases old.len() + new.len() - i - j,
{
    if ps.len() > 0 {
        let (i0, j0) = ps[0];
        if i0 > i {
            lemma_lcs_maximal(old, new, ps, i + 1, j);
        } else if j0 > j {
            lemma_lcs_maximal(old, new, ps, i, j + 1);
        } else {
            lemma_lcs_maximal(old, new, ps.drop_first(), i + 1, j + 1);
        }
    }
}

proof fn lemma_deleted_run_push(old: Seq<Seq<char>>, a: nat, b: nat)
    requires
        a <= b < old.len(),
    ensures
        deleted_run(old, a, b + 1) == deleted_run(old, a, b).push(deleted_line(old[b as int])),
{
    assert(deleted_run(old, a, b + 1) =~= deleted_run(old, a, b).push(deleted_line(old[b as int])));
}

proof fn lemma_added_run_push(new: Seq<Seq<char>>, a: nat, b: nat)
    requires
        a <= b < new.len(),
    ensures
        added_run(new, a, b + 1) == added_run(new, a, b).push(added_line(new[b as int], b)),
{
    assert(added_run(new, a, b + 1) =~= added_run(new, a, b).push(added_line(new[b as int], b)));
}

// ── The executable diff ──────────────────────────────────────────────────────

/// The pairs as plain numbers.
pub open spec fn pairs_view(v: Seq<(usize, usize)>) -> Seq<(nat, nat)> {
    Seq::new(v.len(), |i: int| (v[i].0 as nat, v[i].1 as nat))
}

/// Whether two lines hold the same characters.
fn lines_equal(a: &Vec<char>, b: &Vec<char>) -> (r: bool)
    ensures
        r == (a@ == b@),
{
    if a.len() != b.len() {
        return false;
    }
    let mut i: usize = 0;
    while i < a.len()
        invariant
            a.len() == b.len(),
            i <= a.len(),
            forall|k: int| 0 <= k < i ==> a@[k] == b@[k],
        decreases a.len() - i,
    {
        if a[i] != b[i] {
            return false;
        }
        i += 1;
    }
    assert(a@ =~= b@);
    true
}

/// The table of longest common subsequence lengths: row `i`, column `j`
/// holds `lcs_len` of the old lines from `i` and the new lines from `j` on
/// (past the last line it is 0, and not stored).
pub open spec fn table_holds(t: Seq<Vec<usize>>, o: Seq<Seq<char>>, n: Seq<Seq<char>>, from: int) -> bool {
    &&& t.len() == o.len()
    &&& forall|q: int| 0 <= q < o.len() ==> (#[trigger] t[q])@.len() == n.len()
    &&& forall|q: int, k: int|
        from <= q < o.len() && 0 <= k < n.len() ==> #[trigger] t[q]@[k] == lcs_len(o, n, q as nat, k as nat)
}

/// The entry of the table at row `i`, column `j`, 0 past the last line.
fn table_at(t: &Vec<Vec<usize>>, i: usize, j: usize, Ghost(o): Ghost<Seq<Seq<char>>>, Ghost(n): Ghost<Seq<Seq<char>>>) -> (v: usize)
    requires
        table_holds(t@, o, n, i as int),
        i <= o.len(),
        j <= n.len(),
    ensures
        v == lcs_len(o, n, i as nat, j as nat),
{
    if i < t.len() && j < t[i].len() {
        t[i][j]
    } else {
        0
    }
}

fn lcs_table(old: &Vec<Vec<char>>, new: &Vec<Vec<char>>) -> (t: Vec<Vec<usize>>)
    ensures
        table_holds(t@, texts(old@), texts(new@), 0),
{
    let ghost o = texts(old@);
    let ghost n = texts(new@);
    let m = new.len();
    let mut t: Vec<Vec<usize>> = Vec::new();
    let mut r: usize = 0;
    while r < old.len()
        invariant
            r <= old.len(),
            m == new.len(),
            t.len() == r,
            forall|q: int| 0 <= q < r ==> (#[trigger] t@[q])@.len() == m,
        decreases old.len() - r,
    {
        let mut zeros: Vec<usize> = Vec::new();
        let mut k: usize = 0;
        while k < m
            invariant
                k <= m,
                zeros@.len() == k,
            decreases m - k,
        {
            zeros.push(0);
            k += 1;
        }
        t.push(zeros);
        r += 1;
    }
    let mut i: usize = old.len();
    while i > 0
        invariant
            i <= old.len(),
            m == new.len(),
            o == texts(old@),
            n == texts(new@),
            table_holds(t@, o, n, i as int),
        decreases i,
    {
        i -= 1;
        let mut row: Vec<usize> = t[i].clone();
        assert(row@.len() == m);
        let mut j: usize = m;
        while j > 0
            invariant
                i < old.len(),
                j <= m,
                m == new.len(),
                o == texts(old@),
                n == texts(new@),
                row@.len() == m,
                table_holds(t@, o, n, i + 1),
                forall|k: int| j <= k < m ==> #[trigger] row@[k] == lcs_len(o, n, i as nat, k as nat),
            decreases j,
        {
            j -= 1;
            proof {
                lemma_lcs_bound(o, n, (i + 1) as nat, (j + 1) as nat);
            }
            let a = table_at(&t, i + 1, j, Ghost(o), Ghost(n));
            let b = if j + 1 < m { row[j + 1] } else { 0 };
            let c = if lines_equal(&old[i], &new[j]) {
                1 + table_at(&t, i + 1, j + 1, Ghost(o), Ghost(n))
            } else {
                0
            };
            let ab = if a >= b { a } else { b };
            let v = if ab >= c { ab } else { c };
            assert(o[i as int] == old@[i as int]@ && n[j as int] == new@[j as int]@);
            assert(b == lcs_len(o, n, i as nat, (j + 1) as nat));
            assert(v == lcs_len(o, n, i as nat, j as nat));
            let ghost before_row = row@;
            row.set(j, v);
            assert(forall|k: int| j < k < m ==> row@[k] == before_row[k]);
        }
        let ghost before = t@;
        t.set(i, row);
        assert forall|q: int| 0 <= q < o.len() implies (#[trigger] t@[q])@.len() == n.len() by {
            if q != i {
                assert(t@[q] == before[q]);
            }
        }
        assert forall|q: int, k: int| i <= q < o.len() && 0 <= k < n.len() implies #[trigger] t@[q]@[k]
            == lcs_len(o, n, q as nat, k as nat) by {
            if q != i {
                assert(t@[q] == before[q]);
            }
        }
    }
    t
}

/// The `(old, new)` index pairs of a longest common subsequence of the
/// lines, in order.
fn lcs_indices(old: &Vec<Vec<char>>, new: &Vec<Vec<char>>) -> (r: Vec<(usize, usize)>)
    ensures
        pairs_view(r@) == matched_pairs(texts(old@), texts(new@)),
{
    let ghost o = texts(old@);
    let ghost n = texts(new@);
    let t = lcs_table(old, new);
    let mut lcs: Vec<(usize, usize)> = Vec::new();
    let mut i: usize = 0;
    let mut j: usize = 0;
    assert(pairs_view(lcs@) =~= Seq::<(nat, nat)>::empty());
    assert(Seq::<(nat, nat)>::empty() + lcs_pairs_from(o, n, 0, 0) =~= lcs_pairs_from(o, n, 0, 0));
    while i < old.len() && j < new.len()
        invariant
            i <= old.len(),
            j <= new.len(),
            o == texts(old@),
            n == texts(new@),
            table_holds(t@, o, n, 0),
            pairs_view(lcs@) + lcs_pairs_from(o, n, i as nat, j as nat) == matched_pairs(o, n),
        decreases old.len() + new.len() - i - j,
    {
        proof {
            lemma_lcs_bound(o, n, (i + 1) as nat, (j + 1) as nat);
        }
        assert(o[i as int] == old@[i as int]@ && n[j as int] == new@[j as int]@);
        let l = table_at(&t, i, j, Ghost(o), Ghost(n));
        if lines_equal(&old[i], &new[j]) && 1 + table_at(&t, i + 1, j + 1, Ghost(o), Ghost(n)) == l {
            let ghost prev = pairs_view(lcs@);
            lcs.push((i, j));
            assert(pairs_view(lcs@) =~= prev.push((i as nat, j as nat)));
            assert(prev.push((i as nat, j as nat)) + lcs_pairs_from(o, n, (i + 1) as nat, (j + 1) as nat)
                =~= prev + (seq![(i as nat, j as nat)] + lcs_pairs_from(o, n, (i + 1) as nat, (j + 1) as nat)));
            i += 1;
            j += 1;
        } else if table_at(&t, i + 1, j, Ghost(o), Ghost(n)) == l {
            i += 1;
        } else {
            j += 1;
        }
    }
    assert(lcs_pairs_from(o, n, i as nat, j as nat) =~= Seq::<(nat, nat)>::empty());
    assert(pairs_view(lcs@) + lcs_pairs_from(o, n, i as nat, j as nat) =~= pairs_view(lcs@));
    lcs
}


/// A copy of an optional string.
fn copy_opt(o: &Option<String>) -> (r: Option<String>)
    ensures
        opt_text(r) == opt_text(*o),
{
    match o {
        Some(s) => Some(s.clone()),
        None => None,
    }
}

/// A copy of a diff line.
fn copy_line(l: &DiffLine) -> (r: DiffLine)
    ensures
        r@ == l@,
{
    DiffLine {
        line_number_1based: l.line_number_1based,
        kind: l.kind,
        text: l.text.clone(),
        old_text: copy_opt(&l.old_text),
    }
}

/// Merge adjacent Deleted+Added pairs into single Modified entries.
fn merge_adjacent_deleted_added(lines: Vec<DiffLine>) -> (merged: Vec<DiffLine>)
    ensures
        diff_views(merged@) == merge_adjacent(diff_views(lines@)),
{
    let ghost dv = diff_views(lines@);
    let mut merged: Vec<DiffLine> = Vec::with_capacity(lines.len());
    let mut i: usize = 0;
    assert(dv.skip(0) =~= dv);
    assert(diff_views(merged@) + merge_adjacent(dv.skip(0)) =~= merge_adjacent(dv));
    while i < lines.len()
        invariant
            i <= lines.len(),
            dv == diff_views(lines@),
            diff_views(merged@) + merge_adjacent(dv.skip(i as int)) == merge_adjacent(dv),
        decreases lines.len() - i,
    {
        let ghost rest = dv.skip(i as int);
        let ghost prev = diff_views(merged@);
        if i + 1 < lines.len() && lines[i].kind == ChangeKind::Deleted && lines[i + 1].kind
            == ChangeKind::Added {
            let m = DiffLine {
                line_number_1based: lines[i + 1].line_number_1based,
                kind: ChangeKind::Modified,
                text: lines[i + 1].text.clone(),
                old_text: Some(lines[i].text.clone()),
            };
            merged.push(m);
            proof {
                assert(rest.skip(2) =~= dv.skip(i + 2));
                assert(rest[0] == dv[i as int] && rest[1] == dv[i + 1]);
                assert(diff_views(merged@) =~= prev.push(m@));
                assert(prev.push(m@) + merge_adjacent(dv.skip(i + 2)) =~= prev + (seq![m@]
                    + merge_adjacent(rest.skip(2))));
            }
            i += 2;
        } else {
            let c = copy_line(&lines[i]);
            merged.push(c);
            proof {
                assert(rest.drop_first() =~= dv.skip(i + 1));
                assert(rest[0] == dv[i as int]);
                assert(diff_views(merged@) =~= prev.push(c@));
                assert(prev.push(c@) + merge_adjacent(dv.skip(i + 1)) =~= prev + (seq![c@]
                    + merge_adjacent(rest.drop_first())));
            }
            i += 1;
        }
    }
    assert(dv.skip(i as int) =~= Seq::<DiffLineView>::empty());
    assert(diff_views(merged@) + merge_adjacent(dv.skip(i as int)) =~= diff_views(merged@));
    merged
}

/// Compute a line-diff between old and new content.
///
/// Lines matched along a longest common subsequence of the two buffers'
/// lines are `Unchanged`, lines only in the new
/// buffer are `Added`, lines only in the old buffer are `Deleted`, and a
/// deleted line directly followed by an added one is reported as one
/// `Modified` line.
pub fn diff_buffers(old_content: &str, new_content: &str) -> (result: Vec<DiffLine>)
    ensures
        diff_views(result@) == diff_spec(old_content@, new_content@),
{
    let old_lines = split_lines(&chars_of(old_content));
    let new_lines = split_lines(&chars_of(new_content));
    let ghost o = texts(old_lines@);
    let ghost n = texts(new_lines@);
    let lcs = lcs_indices(&old_lines, &new_lines);
    let ghost ps = pairs_view(lcs@);
    proof {
        lemma_lcs_pairs(o, n, 0, 0);
        assert(ps.skip(0) =~= ps);
    }
    let mut old_idx: usize = 0;
    let mut new_idx: usize = 0;
    let mut result: Vec<DiffLine> = Vec::new();
    let mut p: usize = 0;
    assert(diff_views(result@) + emit(o, n, ps.skip(0), 0, 0) =~= emit(o, n, ps, 0, 0));
    while p < lcs.len()
        invariant
            p <= lcs.len(),
            o == texts(old_lines@),
            n == texts(new_lines@),
            ps == pairs_view(lcs@),
            old_idx <= old_lines.len(),
            new_idx <= new_lines.len(),
            pairs_valid_from(o, n, ps.skip(p as int), old_idx as nat, new_idx as nat),
            diff_views(result@) + emit(o, n, ps.skip(p as int), old_idx as nat, new_idx as nat)
                == emit(o, n, ps, 0, 0),
        decreases lcs.len() - p,
    {
        let ghost rest = ps.skip(p as int);
        let ghost oi0 = old_idx as nat;
        let ghost ni0 = new_idx as nat;
        let ghost before = diff_views(result@);
        let (lcs_old, lcs_new) = lcs[p];
        assert(rest[0] == (lcs_old as nat, lcs_new as nat));
        while old_idx < lcs_old
            invariant
                oi0 <= old_idx <= lcs_old < old_lines.len(),
                o == texts(old_lines@),
                diff_views(result@) == before + deleted_run(o, oi0, old_idx as nat),
            decreases lcs_old - old_idx,
        {
            let d = DiffLine {
                line_number_1based: 0,
                kind: ChangeKind::Deleted,
                text: string_of(&old_lines[old_idx]),
                old_text: Some(string_of(&old_lines[old_idx])),
            };
            let ghost prev = diff_views(result@);
            result.push(d);
            proof {
                assert(diff_views(result@) =~= prev.push(d@));
                lemma_deleted_run_push(o, oi0, old_idx as nat);
                assert(d@ == deleted_line(o[old_idx as int]));
            }
            old_idx += 1;
            assert(diff_views(result@) =~= before + deleted_run(o, oi0, old_idx as nat));
        }
        let ghost mid = diff_views(result@);
        while new_idx < lcs_new
            invariant
                ni0 <= new_idx <= lcs_new < new_lines.len(),
                n == texts(new_lines@),
                diff_views(result@) == mid + added_run(n, ni0, new_idx as nat),
            decreases lcs_new - new_idx,
        {
            let a = DiffLine {
                line_number_1based: new_idx + 1,
                kind: ChangeKind::Added,
                text: string_of(&new_lines[new_idx]),
                old_text: None,
            };
            let ghost prev = diff_views(result@);
            result.push(a);
            proof {
                assert(diff_views(result@) =~= prev.push(a@));
                lemma_added_run_push(n, ni0, new_idx as nat);
                assert(a@ == added_line(n[new_idx as int], new_idx as nat));
            }
            new_idx += 1;
            assert(diff_views(result@) =~= mid + added_run(n, ni0, new_idx as nat));
        }
        let ghost runs = diff_views(result@);
        let m = if lines_equal(&old_lines[lcs_old], &new_lines[lcs_new]) {
            DiffLine {
                line_number_1based: new_idx + 1,
                kind: ChangeKind::Unchanged,
                text: string_of(&new_lines[lcs_new]),
                old_text: None,
            }
        } else {
            DiffLine {
                line_number_1based: new_idx + 1,
                kind: ChangeKind::Modified,
                text: string_of(&new_lines[lcs_new]),
                old_text: Some(string_of(&old_lines[lcs_old])),
            }
        };
        result.push(m);
        proof {
            assert(m@ == matched_line(o[lcs_old as int], n[lcs_new as int], lcs_new as nat));
            assert(diff_views(result@) =~= runs.push(m@));
            assert(rest.drop_first() =~= ps.skip(p + 1));
            let tail = emit(o, n, ps.skip(p + 1), (lcs_old + 1) as nat, (lcs_new + 1) as nat);
            assert(runs.push(m@) + tail =~= before + (deleted_run(o, oi0, lcs_old as nat)
                + added_run(n, ni0, lcs_new as nat) + seq![m@] + tail));
        }
        old_idx = lcs_old + 1;
        new_idx = lcs_new + 1;
        p += 1;
    }
    let ghost before = diff_views(result@);
    let ghost oi0 = old_idx as nat;
    let ghost ni0 = new_idx as nat;
    proof {
        assert(ps.skip(p as int) =~= Seq::<(nat, nat)>::empty());
    }
    while old_idx < old_lines.len()
        invariant
            oi0 <= old_idx <= old_lines.len(),
            o == texts(old_lines@),
            diff_views(result@) == before + deleted_run(o, oi0, old_idx as nat),
        decreases old_lines.len() - old_idx,
    {
        let d = DiffLine {
            line_number_1based: 0,
            kind: ChangeKind::Deleted,
            text: string_of(&old_lines[old_idx]),
            old_text: Some(string_of(&old_lines[old_idx])),
        };
        let ghost prev = diff_views(result@);
        result.push(d);
        proof {
            assert(diff_views(result@) =~= prev.push(d@));
            lemma_deleted_run_push(o, oi0, old_idx as nat);
            assert(d@ == deleted_line(o[old_idx as int]));
        }
        old_idx += 1;
        assert(diff_views(result@) =~= before + deleted_run(o, oi0, old_idx as nat));
    }
    let ghost mid = diff_views(result@);
    while new_idx < new_lines.len()
        invariant
            ni0 <= new_idx <= new_lines.len(),
            n == texts(new_lines@),
            diff_views(result@) == mid + added_run(n, ni0, new_idx as nat),
        decreases new_lines.len() - new_idx,
    {
        let a = DiffLine {
            line_number_1based: new_idx + 1,
            kind: ChangeKind::Added,
            text: string_of(&new_lines[new_idx]),
            old_text: None,
        };
        let ghost prev = diff_views(result@);
        result.push(a);
        proof {
            assert(diff_views(result@) =~= prev.push(a@));
            lemma_added_run_push(n, ni0, new_idx as nat);
            assert(a@ == added_line(n[new_idx as int], new_idx as nat));
        }
        new_idx += 1;
        assert(diff_views(result@) =~= mid + added_run(n, ni0, new_idx as nat));
    }
    assert(diff_views(result@) =~= emit(o, n, ps, 0, 0));
    merge_adjacent_deleted_added(result)
}


// ── Laws ─────────────────────────────────────────────────────────────────────

/// The pieces that each diff line contributes, concatenated in order.
pub open spec fn flat<X>(ds: Seq<DiffLineView>, f: spec_fn(DiffLineView) -> Seq<X>) -> Seq<X>
    decreases ds.len(),
{
    if ds.len() == 0 {
        seq![]
    } else {
        flat(ds.drop_last(), f) + f(ds.last())
    }
}

/// What a diff line says of the new buffer: its text, unless it was deleted.
pub open spec fn new_part(d: DiffLineView) -> Seq<Seq<char>> {
    if d.kind == ChangeKind::Deleted {
        seq![]
    } else {
        seq![d.text]
    }
}

/// What a diff line says of the old buffer: nothing for an addition, the
/// old text for a modification, the text otherwise.
pub open spec fn old_part(d: DiffLineView) -> Seq<Seq<char>> {
    match d.kind {
        ChangeKind::Added => seq![],
        ChangeKind::Modified => match d.old_text {
            Some(t) => seq![t],
            None => seq![],
        },
        _ => seq![d.text],
    }
}

/// The new-buffer line number of a diff line that is not a deletion.
pub open spec fn number_part(d: DiffLineView) -> Seq<nat> {
    if d.kind == ChangeKind::Deleted {
        seq![]
    } else {
        seq![d.line_number]
    }
}

/// The lines of the new buffer, as a diff tells them.
pub open spec fn new_side(ds: Seq<DiffLineView>) -> Seq<Seq<char>> {
    flat(ds, |d: DiffLineView| new_part(d))
}

/// The lines of the old buffer, as a diff tells them.
pub open spec fn old_side(ds: Seq<DiffLineView>) -> Seq<Seq<char>> {
    flat(ds, |d: DiffLineView| old_part(d))
}

/// The line numbers of the diff lines that are not deletions.
pub open spec fn new_numbers(ds: Seq<DiffLineView>) -> Seq<nat> {
    flat(ds, |d: DiffLineView| number_part(d))
}

/// The numbers `a + 1` up to `b`.
pub open spec fn numbers_between(a: nat, b: nat) -> Seq<nat> {
    Seq::new(if a <= b { (b - a) as nat } else { 0 }, |k: int| (a + k + 1) as nat)
}

proof fn lemma_flat_concat<X>(a: Seq<DiffLineView>, b: Seq<DiffLineView>, f: spec_fn(DiffLineView) -> Seq<X>)
    ensures
        flat(a + b, f) == flat(a, f) + flat(b, f),
    decreases b.len(),
{
    if b.len() == 0 {
        assert(a + b =~= a);
        assert(flat(a, f) + flat(b, f) =~= flat(a, f));
    } else {
        lemma_flat_concat(a, b.drop_last(), f);
        assert((a + b).drop_last() =~= a + b.drop_last());
        assert((a + b).last() == b.last());
        assert(flat(a, f) + flat(b.drop_last(), f) + f(b.last()) =~= flat(a, f) + (flat(
            b.drop_last(),
            f,
        ) + f(b.last())));
    }
}

proof fn lemma_flat_one<X>(x: DiffLineView, f: spec_fn(DiffLineView) -> Seq<X>)
    ensures
        flat(seq![x], f) == f(x),
{
    assert(seq![x].drop_last() =~= Seq::<DiffLineView>::empty());
    assert(flat(Seq::<DiffLineView>::empty(), f) + f(x) =~= f(x));
}

proof fn lemma_merge_preserves_flat<X>(ds: Seq<DiffLineView>, f: spec_fn(DiffLineView) -> Seq<X>)
    requires
        forall|d0: DiffLineView, d1: DiffLineView|
            d0.kind == ChangeKind::Deleted && d1.kind == ChangeKind::Added ==> #[trigger] f(
                DiffLineView {
                    line_number: d1.line_number,
                    kind: ChangeKind::Modified,
                    text: d1.text,
                    old_text: Some(d0.text),
                },
            ) == #[trigger] f(d0) + #[trigger] f(d1),
    ensures
        flat(merge_adjacent(ds), f) == flat(ds, f),
    decreases ds.len(),
{
    if ds.len() >= 2 && ds[0].kind == ChangeKind::Deleted && ds[1].kind == ChangeKind::Added {
        let m = DiffLineView {
            line_number: ds[1].line_number,
            kind: ChangeKind::Modified,
            text: ds[1].text,
            old_text: Some(ds[0].text),
        };
        lemma_merge_preserves_flat(ds.skip(2), f);
        lemma_flat_concat(seq![m], merge_adjacent(ds.skip(2)), f);
        lemma_flat_one(m, f);
        assert(ds =~= seq![ds[0]] + seq![ds[1]] + ds.skip(2));
        lemma_flat_concat(seq![ds[0]] + seq![ds[1]], ds.skip(2), f);
        lemma_flat_concat(seq![ds[0]], seq![ds[1]], f);
        lemma_flat_one(ds[0], f);
        lemma_flat_one(ds[1], f);
        assert(f(m) == f(ds[0]) + f(ds[1]));
    } else if ds.len() >= 1 {
        lemma_merge_preserves_flat(ds.drop_first(), f);
        lemma_flat_concat(seq![ds[0]], merge_adjacent(ds.drop_first()), f);
        assert(ds =~= seq![ds[0]] + ds.drop_first());
        lemma_flat_concat(seq![ds[0]], ds.drop_first(), f);
    }
}

proof fn lemma_deleted_run_flat(old: Seq<Seq<char>>, a: nat, b: nat)
    requires
        a <= b <= old.len(),
    ensures
        new_side(deleted_run(old, a, b)) == Seq::<Seq<char>>::empty(),
        old_side(deleted_run(old, a, b)) == old.subrange(a as int, b as int),
        new_numbers(deleted_run(old, a, b)) == Seq::<nat>::empty(),
    decreases b - a,
{
    if b > a {
        lemma_deleted_run_flat(old, a, (b - 1) as nat);
        lemma_deleted_run_push(old, a, (b - 1) as nat);
        assert(deleted_run(old, a, b).drop_last() == deleted_run(old, a, (b - 1) as nat));
        assert(old.subrange(a as int, b as int) =~= old.subrange(a as int, b - 1).push(
            old[b - 1],
        ));
    } else {
        assert(old.subrange(a as int, b as int) =~= Seq::<Seq<char>>::empty());
    }
}

proof fn lemma_added_run_flat(new: Seq<Seq<char>>, a: nat, b: nat)
    requires
        a <= b <= new.len(),
    ensures
        new_side(added_run(new, a, b)) == new.subrange(a as int, b as int),
        old_side(added_run(new, a, b)) == Seq::<Seq<char>>::empty(),
        new_numbers(added_run(new, a, b)) == numbers_between(a, b),
    decreases b - a,
{
    if b > a {
        lemma_added_run_flat(new, a, (b - 1) as nat);
        lemma_added_run_push(new, a, (b - 1) as nat);
        assert(added_run(new, a, b).drop_last() == added_run(new, a, (b - 1) as nat));
        assert(new.subrange(a as int, b as int) =~= new.subrange(a as int, b - 1).push(
            new[b - 1],
        ));
        assert(numbers_between(a, b) =~= numbers_between(a, (b - 1) as nat).push(b));
    } else {
        assert(new.subrange(a as int, b as int) =~= Seq::<Seq<char>>::empty());
        assert(numbers_between(a, b) =~= Seq::<nat>::empty());
    }
}

/// The lines of an emitted diff that are not deletions are the new lines from `ni` on.
proof fn lemma_emit_new_side(
    old: Seq<Seq<char>>,
    new: Seq<Seq<char>>,
    ps: Seq<(nat, nat)>,
    oi: nat,
    ni: nat,
)
    requires
        pairs_valid_from(old, new, ps, oi, ni),
        oi <= old.len(),
        ni <= new.len(),
    ensures
        new_side(emit(old, new, ps, oi, ni)) == new.subrange(ni as int, new.len() as int),
    decreases ps.len(),
{
    let f = |d: DiffLineView| new_part(d);
    if ps.len() == 0 {
        lemma_deleted_run_flat(old, oi, old.len());
        lemma_added_run_flat(new, ni, new.len());
        lemma_flat_concat(deleted_run(old, oi, old.len()), added_run(new, ni, new.len()), f);
        assert(Seq::<Seq<char>>::empty() + new.subrange(ni as int, new.len() as int) =~= new.subrange(ni as int, new.len() as int));
    } else {
        let (po, pn) = ps[0];
        let d = deleted_run(old, oi, po);
        let a = added_run(new, ni, pn);
        let m = matched_line(old[po as int], new[pn as int], pn);
        let rest = emit(old, new, ps.drop_first(), po + 1, pn + 1);
        lemma_emit_new_side(old, new, ps.drop_first(), po + 1, pn + 1);
        lemma_deleted_run_flat(old, oi, po);
        lemma_added_run_flat(new, ni, pn);
        lemma_flat_one(m, f);
        lemma_flat_concat(d, a, f);
        lemma_flat_concat(d + a, seq![m], f);
        lemma_flat_concat(d + a + seq![m], rest, f);
        assert(new.subrange(ni as int, new.len() as int) =~= new.subrange(ni as int, pn as int)
            + seq![new[pn as int]] + new.subrange(pn + 1int, new.len() as int));
        assert(Seq::<Seq<char>>::empty() + new.subrange(ni as int, pn as int) =~= new.subrange(ni as int, pn as int));
    }
}

/// The old texts of an emitted diff are the old lines from `oi` on.
proof fn lemma_emit_old_side(
    old: Seq<Seq<char>>,
    new: Seq<Seq<char>>,
    ps: Seq<(nat, nat)>,
    oi: nat,
    ni: nat,
)
    requires
        pairs_valid_from(old, new, ps, oi, ni),
        oi <= old.len(),
        ni <= new.len(),
    ensures
        old_side(emit(old, new, ps, oi, ni)) == old.subrange(oi as int, old.len() as int),
    decreases ps.len(),
{
    let f = |d: DiffLineView| old_part(d);
    if ps.len() == 0 {
        lemma_deleted_run_flat(old, oi, old.len());
        lemma_added_run_flat(new, ni, new.len());
        lemma_flat_concat(deleted_run(old, oi, old.len()), added_run(new, ni, new.len()), f);
        assert(old.subrange(oi as int, old.len() as int) + Seq::<Seq<char>>::empty() =~= old.subrange(oi as int, old.len() as int));
    } else {
        let (po, pn) = ps[0];
        let d = deleted_run(old, oi, po);
        let a = added_run(new, ni, pn);
        let m = matched_line(old[po as int], new[pn as int], pn);
        let rest = emit(old, new, ps.drop_first(), po + 1, pn + 1);
        lemma_emit_old_side(old, new, ps.drop_first(), po + 1, pn + 1);
        lemma_deleted_run_flat(old, oi, po);
        lemma_added_run_flat(new, ni, pn);
        lemma_flat_one(m, f);
        lemma_flat_concat(d, a, f);
        lemma_flat_concat(d + a, seq![m], f);
        lemma_flat_concat(d + a + seq![m], rest, f);
        assert(old.subrange(oi as int, old.len() as int) =~= old.subrange(oi as int, po as int)
            + seq![old[po as int]] + old.subrange(po + 1int, old.len() as int));
        assert(old.subrange(oi as int, po as int) + Seq::<Seq<char>>::empty() =~= old.subrange(oi as int, po as int));
    }
}

/// The lines of an emitted diff that are not deletions are numbered from `ni + 1` on.
proof fn lemma_emit_numbers(
    old: Seq<Seq<char>>,
    new: Seq<Seq<char>>,
    ps: Seq<(nat, nat)>,
    oi: nat,
    ni: nat,
)
    requires
        pairs_valid_from(old, new, ps, oi, ni),
        oi <= old.len(),
        ni <= new.len(),
    ensures
        new_numbers(emit(old, new, ps, oi, ni)) == numbers_between(ni, new.len()),
    decreases ps.len(),
{
    let f = |d: DiffLineView| number_part(d);
    if ps.len() == 0 {
        lemma_deleted_run_flat(old, oi, old.len());
        lemma_added_run_flat(new, ni, new.len());
        lemma_flat_concat(deleted_run(old, oi, old.len()), added_run(new, ni, new.len()), f);
        assert(Seq::<nat>::empty() + numbers_between(ni, new.len()) =~= numbers_between(ni, new.len()));
    } else {
        let (po, pn) = ps[0];
        let d = deleted_run(old, oi, po);
        let a = added_run(new, ni, pn);
        let m = matched_line(old[po as int], new[pn as int], pn);
        let rest = emit(old, new, ps.drop_first(), po + 1, pn + 1);
        lemma_emit_numbers(old, new, ps.drop_first(), po + 1, pn + 1);
        lemma_deleted_run_flat(old, oi, po);
        lemma_added_run_flat(new, ni, pn);
        lemma_flat_one(m, f);
        lemma_flat_concat(d, a, f);
        lemma_flat_concat(d + a, seq![m], f);
        lemma_flat_concat(d + a + seq![m], rest, f);
        assert(numbers_between(ni, new.len()) =~= numbers_between(ni, pn) + seq![pn + 1]
            + numbers_between(pn + 1, new.len()));
        assert(Seq::<nat>::empty() + numbers_between(ni, pn) =~= numbers_between(ni, pn));
    }
}

/// Merging modified lines keeps what a diff says of either buffer.
proof fn lemma_merge_sides(ds: Seq<DiffLineView>)
    ensures
        new_side(merge_adjacent(ds)) == new_side(ds),
        old_side(merge_adjacent(ds)) == old_side(ds),
        new_numbers(merge_adjacent(ds)) == new_numbers(ds),
{
    let fnew = |d: DiffLineView| new_part(d);
    let fold = |d: DiffLineView| old_part(d);
    let fnum = |d: DiffLineView| number_part(d);
    assert forall|d0: DiffLineView, d1: DiffLineView|
        d0.kind == ChangeKind::Deleted && d1.kind == ChangeKind::Added implies #[trigger] fnew(
            DiffLineView {
                line_number: d1.line_number,
                kind: ChangeKind::Modified,
                text: d1.text,
                old_text: Some(d0.text),
            },
        ) == #[trigger] fnew(d0) + #[trigger] fnew(d1) by {
        assert(fnew(d1) =~= Seq::<Seq<char>>::empty() + fnew(d1));
    }
    assert forall|d0: DiffLineView, d1: DiffLineView|
        d0.kind == ChangeKind::Deleted && d1.kind == ChangeKind::Added implies #[trigger] fold(
            DiffLineView {
                line_number: d1.line_number,
                kind: ChangeKind::Modified,
                text: d1.text,
                old_text: Some(d0.text),
            },
        ) == #[trigger] fold(d0) + #[trigger] fold(d1) by {
        assert(fold(d0) =~= fold(d0) + Seq::<Seq<char>>::empty());
    }
    assert forall|d0: DiffLineView, d1: DiffLineView|
        d0.kind == ChangeKind::Deleted && d1.kind == ChangeKind::Added implies #[trigger] fnum(
            DiffLineView {
                line_number: d1.line_number,
                kind: ChangeKind::Modified,
                text: d1.text,
                old_text: Some(d0.text),
            },
        ) == #[trigger] fnum(d0) + #[trigger] fnum(d1) by {
        assert(fnum(d1) =~= Seq::<nat>::empty() + fnum(d1));
    }
    lemma_merge_preserves_flat(ds, fnew);
    lemma_merge_preserves_flat(ds, fold);
    lemma_merge_preserves_flat(ds, fnum);
}

/// A diff tells both buffers back: reading the lines that are not deletions
/// gives the new buffer's lines, and reading deletions, the old text of
/// modifications and unchanged lines gives the old buffer's lines.  The
/// lines that are not deletions are numbered 1, 2, ... in order.
pub proof fn lemma_diff_reconstructs(old_content: Seq<char>, new_content: Seq<char>)
    ensures
        new_side(diff_spec(old_content, new_content)) == lines_of(new_content),
        old_side(diff_spec(old_content, new_content)) == lines_of(old_content),
        new_numbers(diff_spec(old_content, new_content)) == numbers_between(
            0,
            lines_of(new_content).len(),
        ),
{
    let o = lines_of(old_content);
    let n = lines_of(new_content);
    lemma_lcs_pairs(o, n, 0, 0);
    lemma_emit_new_side(o, n, matched_pairs(o, n), 0, 0);
    lemma_emit_old_side(o, n, matched_pairs(o, n), 0, 0);
    lemma_emit_numbers(o, n, matched_pairs(o, n), 0, 0);
    lemma_merge_sides(emit(o, n, matched_pairs(o, n), 0, 0));
    assert(o.subrange(0, o.len() as int) =~= o);
    assert(n.subrange(0, n.len() as int) =~= n);
}


/// Every deletion in the diff lines has line number 0.
pub open spec fn deletions_unnumbered(ds: Seq<DiffLineView>) -> bool {
    forall|k: int| 0 <= k < ds.len() && #[trigger] ds[k].kind == ChangeKind::Deleted
        ==> ds[k].line_number == 0
}

proof fn lemma_emit_deletions_unnumbered(
    old: Seq<Seq<char>>,
    new: Seq<Seq<char>>,
    ps: Seq<(nat, nat)>,
    oi: nat,
    ni: nat,
)
    ensures
        deletions_unnumbered(emit(old, new, ps, oi, ni)),
    decreases ps.len(),
{
    if ps.len() > 0 {
        let (po, pn) = ps[0];
        lemma_emit_deletions_unnumbered(old, new, ps.drop_first(), po + 1, pn + 1);
        let d = deleted_run(old, oi, po);
        let a = added_run(new, ni, pn);
        let m = matched_line(old[po as int], new[pn as int], pn);
        let rest = emit(old, new, ps.drop_first(), po + 1, pn + 1);
        let all = d + a + seq![m] + rest;
        assert forall|k: int| 0 <= k < all.len() && #[trigger] all[k].kind == ChangeKind::Deleted
            implies all[k].line_number == 0 by {
            if k >= d.len() + a.len() + 1 {
                assert(all[k] == rest[k - d.len() - a.len() - 1]);
            }
        }
    }
}

proof fn lemma_merge_deletions_unnumbered(ds: Seq<DiffLineView>)
    requires
        deletions_unnumbered(ds),
    ensures
        deletions_unnumbered(merge_adjacent(ds)),
    decreases ds.len(),
{
    if ds.len() >= 2 && ds[0].kind == ChangeKind::Deleted && ds[1].kind == ChangeKind::Added {
        assert forall|k: int| 0 <= k < ds.skip(2).len() && #[trigger] ds.skip(2)[k].kind
            == ChangeKind::Deleted implies ds.skip(2)[k].line_number == 0 by {
            assert(ds.skip(2)[k] == ds[k + 2]);
        }
        lemma_merge_deletions_unnumbered(ds.skip(2));
    } else if ds.len() >= 1 {
        assert forall|k: int| 0 <= k < ds.drop_first().len() && #[trigger] ds.drop_first()[k].kind
            == ChangeKind::Deleted implies ds.drop_first()[k].line_number == 0 by {
            assert(ds.drop_first()[k] == ds[k + 1]);
        }
        lemma_merge_deletions_unnumbered(ds.drop_first());
    }
}

/// Deleted lines are reported with line number 0.
pub proof fn lemma_diff_deletions_unnumbered(old_content: Seq<char>, new_content: Seq<char>)
    ensures
        deletions_unnumbered(diff_spec(old_content, new_content)),
{
    let o = lines_of(old_content);
    let n = lines_of(new_content);
    lemma_emit_deletions_unnumbered(o, n, matched_pairs(o, n), 0, 0);
    lemma_merge_deletions_unnumbered(emit(o, n, matched_pairs(o, n), 0, 0));
}

/// Every line of a text, unchanged, from line `j` on.
pub open spec fn unchanged_from(ls: Seq<Seq<char>>, j: nat) -> Seq<DiffLineView> {
    Seq::new(
        if j <= ls.len() { (ls.len() - j) as nat } else { 0 },
        |k: int|
            DiffLineView {
                line_number: (j + k + 1) as nat,
                kind: ChangeKind::Unchanged,
                text: ls[j + k],
                old_text: None,
            },
    )
}

proof fn lemma_self_lcs(ls: Seq<Seq<char>>, j: nat)
    requires
        j <= ls.len(),
    ensures
        lcs_len(ls, ls, j, j) == ls.len() - j,
        lcs_pairs_from(ls, ls, j, j) == Seq::new((ls.len() - j) as nat, |k: int| ((j + k) as nat, (j + k) as nat)),
    decreases ls.len() - j,
{
    if j < ls.len() {
        lemma_self_lcs(ls, j + 1);
        lemma_lcs_bound(ls, ls, j, j);
        assert(lcs_pairs_from(ls, ls, j, j) =~= Seq::new((ls.len() - j) as nat, |k: int| ((j + k) as nat, (j + k) as nat)));
    } else {
        assert(lcs_pairs_from(ls, ls, j, j) =~= Seq::new((ls.len() - j) as nat, |k: int| ((j + k) as nat, (j + k) as nat)));
    }
}

proof fn lemma_self_emit(ls: Seq<Seq<char>>, j: nat)
    requires
        j <= ls.len(),
    ensures
        emit(ls, ls, lcs_pairs_from(ls, ls, j, j), j, j) == unchanged_from(ls, j),
    decreases ls.len() - j,
{
    lemma_self_lcs(ls, j);
    let ps = lcs_pairs_from(ls, ls, j, j);
    if j < ls.len() {
        lemma_self_lcs(ls, j + 1);
        lemma_self_emit(ls, j + 1);
        assert(ps.drop_first() =~= lcs_pairs_from(ls, ls, j + 1, j + 1));
        assert(deleted_run(ls, j, j) =~= Seq::<DiffLineView>::empty());
        assert(added_run(ls, j, j) =~= Seq::<DiffLineView>::empty());
        assert(emit(ls, ls, ps, j, j) =~= unchanged_from(ls, j));
    } else {
        assert(deleted_run(ls, j, ls.len()) =~= Seq::<DiffLineView>::empty());
        assert(added_run(ls, j, ls.len()) =~= Seq::<DiffLineView>::empty());
        assert(emit(ls, ls, ps, j, j) =~= unchanged_from(ls, j));
    }
}

proof fn lemma_merge_without_deletions(ds: Seq<DiffLineView>)
    requires
        forall|k: int| 0 <= k < ds.len() ==> #[trigger] ds[k].kind != ChangeKind::Deleted,
    ensures
        merge_adjacent(ds) == ds,
    decreases ds.len(),
{
    if ds.len() >= 1 {
        assert(ds[0].kind != ChangeKind::Deleted);
        assert forall|k: int| 0 <= k < ds.drop_first().len() implies #[trigger] ds.drop_first()[k].kind
            != ChangeKind::Deleted by {
            assert(ds.drop_first()[k] == ds[k + 1]);
        }
        lemma_merge_without_deletions(ds.drop_first());
        assert(seq![ds[0]] + ds.drop_first() =~= ds);
    }
}

/// Diffing a text against itself reports every line unchanged, numbered
/// from 1, with no old text.
pub proof fn lemma_diff_identical(content: Seq<char>)
    ensures
        diff_spec(content, content) == unchanged_from(lines_of(content), 0),
{
    let ls = lines_of(content);
    lemma_self_emit(ls, 0);
    lemma_merge_without_deletions(unchanged_from(ls, 0));
}

/// The number of unchanged lines of a diff.
pub open spec fn unchanged_count(ds: Seq<DiffLineView>) -> nat
    decreases ds.len(),
{
    if ds.len() == 0 {
        0
    } else {
        (if ds[0].kind == ChangeKind::Unchanged {
            1nat
        } else {
            0nat
        }) + unchanged_count(ds.drop_first())
    }
}

proof fn lemma_count_concat(a: Seq<DiffLineView>, b: Seq<DiffLineView>)
    ensures
        unchanged_count(a + b) == unchanged_count(a) + unchanged_count(b),
    decreases a.len(),
{
    if a.len() > 0 {
        lemma_count_concat(a.drop_first(), b);
        assert((a + b).drop_first() =~= a.drop_first() + b);
        assert((a + b)[0] == a[0]);
    } else {
        assert(a + b =~= b);
    }
}

proof fn lemma_count_none(ds: Seq<DiffLineView>)
    requires
        forall|k: int| 0 <= k < ds.len() ==> #[trigger] ds[k].kind != ChangeKind::Unchanged,
    ensures
        unchanged_count(ds) == 0,
    decreases ds.len(),
{
    if ds.len() > 0 {
        assert(ds[0].kind != ChangeKind::Unchanged);
        assert forall|k: int| 0 <= k < ds.drop_first().len() implies #[trigger] ds.drop_first()[k].kind
            != ChangeKind::Unchanged by {
            assert(ds.drop_first()[k] == ds[k + 1]);
        }
        lemma_count_none(ds.drop_first());
    }
}

proof fn lemma_emit_count(
    old: Seq<Seq<char>>,
    new: Seq<Seq<char>>,
    ps: Seq<(nat, nat)>,
    oi: nat,
    ni: nat,
)
    requires
        pairs_valid_from(old, new, ps, oi, ni),
    ensures
        unchanged_count(emit(old, new, ps, oi, ni)) == ps.len(),
    decreases ps.len(),
{
    if ps.len() == 0 {
        let d = deleted_run(old, oi, old.len());
        let a = added_run(new, ni, new.len());
        assert forall|k: int| 0 <= k < d.len() implies #[trigger] d[k].kind != ChangeKind::Unchanged by {}
        assert forall|k: int| 0 <= k < a.len() implies #[trigger] a[k].kind != ChangeKind::Unchanged by {}
        lemma_count_none(d);
        lemma_count_none(a);
        lemma_count_concat(d, a);
    } else {
        let (po, pn) = ps[0];
        let d = deleted_run(old, oi, po);
        let a = added_run(new, ni, pn);
        let m = seq![matched_line(old[po as int], new[pn as int], pn)];
        let rest = emit(old, new, ps.drop_first(), po + 1, pn + 1);
        assert forall|k: int| 0 <= k < d.len() implies #[trigger] d[k].kind != ChangeKind::Unchanged by {}
        assert forall|k: int| 0 <= k < a.len() implies #[trigger] a[k].kind != ChangeKind::Unchanged by {}
        lemma_count_none(d);
        lemma_count_none(a);
        lemma_emit_count(old, new, ps.drop_first(), po + 1, pn + 1);
        assert(old[po as int] == new[pn as int]);
        assert(m[0].kind == ChangeKind::Unchanged);
        assert(m.drop_first() =~= Seq::<DiffLineView>::empty());
        assert(unchanged_count(Seq::<DiffLineView>::empty()) == 0);
        assert(unchanged_count(m) == 1);
        lemma_count_concat(d, a);
        lemma_count_concat(d + a, m);
        lemma_count_concat(d + a + m, rest);
    }
}

proof fn lemma_merge_count(ds: Seq<DiffLineView>)
    ensures
        unchanged_count(merge_adjacent(ds)) == unchanged_count(ds),
    decreases ds.len(),
{
    if ds.len() >= 2 && ds[0].kind == ChangeKind::Deleted && ds[1].kind == ChangeKind::Added {
        lemma_merge_count(ds.skip(2));
        assert(ds.drop_first().drop_first() =~= ds.skip(2));
        assert(ds.drop_first()[0] == ds[1]);
        let h = seq![
            DiffLineView {
                line_number: ds[1].line_number,
                kind: ChangeKind::Modified,
                text: ds[1].text,
                old_text: Some(ds[0].text),
            },
        ];
        assert(h.drop_first() =~= Seq::<DiffLineView>::empty());
        assert(unchanged_count(Seq::<DiffLineView>::empty()) == 0);
        assert(unchanged_count(h) == 0);
        lemma_count_concat(h, merge_adjacent(ds.skip(2)));
        assert(unchanged_count(ds.drop_first()) == unchanged_count(ds.drop_first().drop_first()));
        assert(unchanged_count(ds) == unchanged_count(ds.drop_first()));
    } else if ds.len() >= 1 {
        lemma_merge_count(ds.drop_first());
        let h = seq![ds[0]];
        assert(h.drop_first() =~= Seq::<DiffLineView>::empty());
        assert(unchanged_count(Seq::<DiffLineView>::empty()) == 0);
        assert(h[0] == ds[0]);
        lemma_count_concat(h, merge_adjacent(ds.drop_first()));
    }
}

/// The diff follows a longest common subsequence of the two texts' lines:
/// its pairs join equal lines in order, no common subsequence is longer,
/// and each pair is one unchanged line of the diff.
pub proof fn lemma_diff_follows_a_longest_common_subsequence(old_content: Seq<char>, new_content: Seq<char>)
    ensures
        pairs_valid_from(lines_of(old_content), lines_of(new_content), matched_pairs(lines_of(old_content), lines_of(new_content)), 0, 0),
        forall|qs: Seq<(nat, nat)>|
            #[trigger] pairs_valid_from(lines_of(old_content), lines_of(new_content), qs, 0, 0) ==> qs.len()
                <= matched_pairs(lines_of(old_content), lines_of(new_content)).len(),
        unchanged_count(diff_spec(old_content, new_content)) == matched_pairs(
            lines_of(old_content),
            lines_of(new_content),
        ).len(),
{
    let o = lines_of(old_content);
    let n = lines_of(new_content);
    lemma_lcs_pairs(o, n, 0, 0);
    assert forall|qs: Seq<(nat, nat)>| #[trigger] pairs_valid_from(o, n, qs, 0, 0) implies qs.len()
        <= matched_pairs(o, n).len() by {
        lemma_lcs_maximal(o, n, qs, 0, 0);
    }
    lemma_emit_count(o, n, matched_pairs(o, n), 0, 0);
    lemma_merge_count(emit(o, n, matched_pairs(o, n), 0, 0));
}

} // verus!

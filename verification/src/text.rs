//! Character-level text utilities: lines, trimming, splitting and joining.
//!
//! Every function works on the `Seq<char>` view of its text, so the
//! contracts of the parsers built on top can speak of plain sequences.

use vstd::prelude::*;

verus! {

/// Whether `c` has the Unicode `White_Space` property (what `char::is_whitespace`
/// reports): the code points that PropList.txt of the Unicode Character
/// Database lists under `White_Space`.
pub open spec fn is_white_space(c: char) -> bool {
    let u = c as u32;
    ||| 0x9 <= u <= 0xd
    ||| u == 0x20
    ||| u == 0x85
    ||| u == 0xa0
    ||| u == 0x1680
    ||| 0x2000 <= u <= 0x200a
    ||| u == 0x2028
    ||| u == 0x2029
    ||| u == 0x202f
    ||| u == 0x205f
    ||| u == 0x3000
}

/// Whether `c` has the `White_Space` property, as `char::is_whitespace`
/// reports it: a test against the listed code points.
pub(crate) fn char_is_whitespace(c: char) -> (b: bool)
    ensures
        b == is_white_space(c),
{
    let u = c as u32;
    (0x9 <= u && u <= 0xd) || u == 0x20 || u == 0x85 || u == 0xa0 || u == 0x1680 || (0x2000 <= u
        && u <= 0x200a) || u == 0x2028 || u == 0x2029 || u == 0x202f || u == 0x205f || u == 0x3000
}

/// `String::push`: appends one character at the end.
#[verifier::external_body]
pub(crate) fn push_char(s: &mut String, c: char)
    ensures
        final(s)@ == old(s)@.push(c),
{
    s.push(c)
}

/// `String::pop`: removes the last character, if there is one, and returns it.
#[verifier::external_body]
pub(crate) fn pop_char(s: &mut String) -> (c: Option<char>)
    ensures
        old(s)@.len() > 0 ==> final(s)@ == old(s)@.drop_last() && c == Some(old(s)@.last()),
        old(s)@.len() == 0 ==> final(s)@ == old(s)@ && c is None,
{
    s.pop()
}

/// The characters of a string slice, in order.
pub fn chars_of(s: &str) -> (v: Vec<char>)
    ensures
        v@ == s@,
{
    let mut v: Vec<char> = Vec::new();
    for c in it: s.chars()
        invariant
            v@ == it.seq().take(it.index() as int),
    {
        v.push(c);
    }
    v
}

/// A `String` holding exactly the given characters.
pub fn string_of(cs: &Vec<char>) -> (s: String)
    ensures
        s@ == cs@,
{
    let mut s = String::new();
    let mut i: usize = 0;
    while i < cs.len()
        invariant
            i <= cs.len(),
            s@ == cs@.take(i as int),
        decreases cs.len() - i,
    {
        push_char(&mut s, cs[i]);
        i += 1;
        assert(s@ =~= cs@.take(i as int));
    }
    assert(cs@.take(cs.len() as int) =~= cs@);
    s
}


/// The text with its leading white space removed (`str::trim_start`).
pub open spec fn trim_start(s: Seq<char>) -> Seq<char>
    decreases s.len(),
{
    if s.len() > 0 && is_white_space(s[0]) {
        trim_start(s.drop_first())
    } else {
        s
    }
}

/// The text with its trailing white space removed (`str::trim_end`).
pub open spec fn trim_end(s: Seq<char>) -> Seq<char>
    decreases s.len(),
{
    if s.len() > 0 && is_white_space(s.last()) {
        trim_end(s.drop_last())
    } else {
        s
    }
}

/// The text with white space removed at both ends (`str::trim`).
pub open spec fn trim(s: Seq<char>) -> Seq<char> {
    trim_end(trim_start(s))
}

/// Whether the text starts with the character `c`.
pub open spec fn starts_with_char(s: Seq<char>, c: char) -> bool {
    s.len() > 0 && s[0] == c
}

/// The leading white space of a text, removed: `trim_start(s)` is `s.skip(n)`.
proof fn lemma_trim_start_is_skip(s: Seq<char>, i: int)
    requires
        0 <= i <= s.len(),
        forall|k: int| 0 <= k < i ==> is_white_space(#[trigger] s[k]),
    ensures
        trim_start(s) == trim_start(s.skip(i)),
    decreases i,
{
    if i > 0 {
        assert(s.skip(1) =~= s.drop_first());
        lemma_trim_start_is_skip(s.drop_first(), i - 1);
        assert(s.drop_first().skip(i - 1) =~= s.skip(i));
    } else {
        assert(s.skip(0) =~= s);
    }
}

proof fn lemma_trim_end_is_take(s: Seq<char>, j: int)
    requires
        0 <= j <= s.len(),
        forall|k: int| j <= k < s.len() ==> is_white_space(#[trigger] s[k]),
    ensures
        trim_end(s) == trim_end(s.take(j)),
    decreases s.len() - j,
{
    if j < s.len() {
        assert(s.take(s.len() - 1) =~= s.drop_last());
        lemma_trim_end_is_take(s.drop_last(), j);
        assert(s.drop_last().take(j) =~= s.take(j));
    } else {
        assert(s.take(j) =~= s);
    }
}

proof fn lemma_trim_start_suffix(s: Seq<char>)
    ensures
        trim_start(s).len() <= s.len(),
        trim_start(s) == s.skip(s.len() - trim_start(s).len()),
    decreases s.len(),
{
    if s.len() > 0 && is_white_space(s[0]) {
        lemma_trim_start_suffix(s.drop_first());
        assert(s.drop_first().skip(s.len() - 1 - trim_start(s).len()) =~= s.skip(s.len() - trim_start(s).len()));
    } else {
        assert(s.skip(0) =~= s);
    }
}

proof fn lemma_trim_end_shorter(s: Seq<char>)
    ensures
        trim_end(s).len() <= s.len(),
        s.len() > 0 && is_white_space(s.last()) ==> trim_end(s).len() < s.len(),
    decreases s.len(),
{
    if s.len() > 0 && is_white_space(s.last()) {
        lemma_trim_end_shorter(s.drop_last());
    }
}

/// A trimmed text does not end in white space.
pub proof fn lemma_trimmed_end(t: Seq<char>)
    requires
        trim(t) == t,
        t.len() > 0,
    ensures
        !is_white_space(t.last()),
{
    lemma_trim_start_suffix(t);
    lemma_trim_end_shorter(trim_start(t));
    if trim_start(t).len() == t.len() {
        assert(t.skip(0) =~= t);
        lemma_trim_end_shorter(t);
    }
}

/// Whether every character of `s` is white space.
pub open spec fn all_white(s: Seq<char>) -> bool {
    forall|k: int| 0 <= k < s.len() ==> is_white_space(#[trigger] s[k])
}

/// Whether `c` is `p` with its white space removed at both ends: `p` is
/// white space, then `c`, then white space, and `c` neither starts nor ends
/// with white space.
pub open spec fn trimmed_within(c: Seq<char>, p: Seq<char>) -> bool {
    &&& exists|a: Seq<char>, b: Seq<char>| p == a + c + b && all_white(a) && all_white(b)
    &&& c.len() > 0 ==> !is_white_space(c[0]) && !is_white_space(c.last())
}

proof fn lemma_trim_start_parts(s: Seq<char>)
    ensures
        trim_start(s).len() <= s.len(),
        trim_start(s) == s.skip(s.len() - trim_start(s).len()),
        all_white(s.take(s.len() - trim_start(s).len())),
        trim_start(s).len() > 0 ==> !is_white_space(trim_start(s)[0]),
    decreases s.len(),
{
    if s.len() > 0 && is_white_space(s[0]) {
        let t = s.drop_first();
        lemma_trim_start_parts(t);
        let n = s.len() - trim_start(s).len();
        assert(t.skip(t.len() - trim_start(t).len()) =~= s.skip(n));
        assert forall|k: int| 0 <= k < s.take(n).len() implies is_white_space(#[trigger] s.take(n)[k]) by {
            if k > 0 {
                assert(s.take(n)[k] == t.take(n - 1)[k - 1]);
            }
        }
    } else {
        assert(s.skip(0) =~= s);
        assert(s.take(0).len() == 0);
    }
}

proof fn lemma_trim_end_parts(s: Seq<char>)
    ensures
        trim_end(s).len() <= s.len(),
        trim_end(s) == s.take(trim_end(s).len() as int),
        all_white(s.skip(trim_end(s).len() as int)),
        trim_end(s).len() > 0 ==> !is_white_space(trim_end(s).last()),
    decreases s.len(),
{
    if s.len() > 0 && is_white_space(s.last()) {
        let t = s.drop_last();
        lemma_trim_end_parts(t);
        let m = trim_end(s).len() as int;
        assert(t.take(m) =~= s.take(m));
        assert forall|k: int| 0 <= k < s.skip(m).len() implies is_white_space(#[trigger] s.skip(m)[k]) by {
            if m + k < s.len() - 1 {
                assert(s.skip(m)[k] == t.skip(m)[k]);
            }
        }
    } else {
        assert(s.take(s.len() as int) =~= s);
        assert(s.skip(s.len() as int).len() == 0);
    }
}

/// Trimming removes exactly the white space at both ends.
pub proof fn lemma_trim_is_trimmed_within(p: Seq<char>)
    ensures
        trimmed_within(trim(p), p),
{
    let q = trim_start(p);
    lemma_trim_start_parts(p);
    lemma_trim_end_parts(q);
    let n = p.len() - q.len();
    let m = trim_end(q).len() as int;
    let a = p.take(n);
    let b = q.skip(m);
    assert(p =~= a + trim(p) + b);
    if trim(p).len() > 0 {
        assert(trim(p)[0] == q[0]);
    }
}

/// Whether `part` occurs in `whole` as a run of consecutive characters.
pub open spec fn occurs_in(part: Seq<char>, whole: Seq<char>) -> bool {
    exists|a: Seq<char>, b: Seq<char>| whole == a + part + b
}

/// An occurrence carries over to a text that holds the whole.
pub proof fn lemma_occurs_in_wider(part: Seq<char>, whole: Seq<char>, x: Seq<char>, y: Seq<char>)
    requires
        occurs_in(part, whole),
    ensures
        occurs_in(part, x + whole + y),
{
    let (a, b) = choose|a: Seq<char>, b: Seq<char>| whole == a + part + b;
    assert(x + whole + y =~= (x + a) + part + (b + y));
}

/// Every text joined occurs in the joined text.
pub proof fn lemma_join_has_each(ws: Seq<Seq<char>>, sep: Seq<char>, i: int)
    requires
        0 <= i < ws.len(),
    ensures
        occurs_in(ws[i], join_by(ws, sep)),
    decreases ws.len(),
{
    if ws.len() == 1 {
        assert(join_by(ws, sep) =~= Seq::<char>::empty() + ws[i] + Seq::<char>::empty());
    } else if i == ws.len() - 1 {
        assert(join_by(ws, sep) =~= (join_by(ws.drop_last(), sep) + sep) + ws[i] + Seq::<char>::empty());
    } else {
        lemma_join_has_each(ws.drop_last(), sep, i);
        assert(ws.drop_last()[i] == ws[i]);
        lemma_occurs_in_wider(ws[i], join_by(ws.drop_last(), sep), Seq::<char>::empty(), sep + ws.last());
        assert(join_by(ws, sep) =~= Seq::<char>::empty() + join_by(ws.drop_last(), sep) + (sep + ws.last()));
    }
}

/// Whether `x` occurs in `whole`, and `y` after it.
pub open spec fn occurs_in_order(x: Seq<char>, y: Seq<char>, whole: Seq<char>) -> bool {
    exists|a: Seq<char>, b: Seq<char>, c: Seq<char>| whole == a + x + b + y + c
}

/// The texts joined occur in the joined text in their order.
pub proof fn lemma_join_keeps_order(ws: Seq<Seq<char>>, sep: Seq<char>, i: int, j: int)
    requires
        0 <= i < j < ws.len(),
    ensures
        occurs_in_order(ws[i], ws[j], join_by(ws, sep)),
    decreases ws.len(),
{
    let init = ws.drop_last();
    assert(init[i] == ws[i]);
    if j == ws.len() - 1 {
        lemma_join_has_each(init, sep, i);
        let (a, b) = choose|a: Seq<char>, b: Seq<char>| join_by(init, sep) == a + init[i] + b;
        assert(join_by(ws, sep) =~= a + ws[i] + (b + sep) + ws[j] + Seq::<char>::empty());
    } else {
        assert(init[j] == ws[j]);
        lemma_join_keeps_order(init, sep, i, j);
        let (a, b, c) = choose|a: Seq<char>, b: Seq<char>, c: Seq<char>| join_by(init, sep) == a + init[i] + b + init[j] + c;
        assert(join_by(ws, sep) =~= a + ws[i] + b + ws[j] + (c + sep + ws.last()));
    }
}

/// Joining a text in front of a non-empty list puts one separator after it.
proof fn lemma_join_front(x: Seq<char>, ys: Seq<Seq<char>>, sep: Seq<char>)
    requires
        ys.len() > 0,
    ensures
        join_by(seq![x] + ys, sep) == x + sep + join_by(ys, sep),
    decreases ys.len(),
{
    let zs = seq![x] + ys;
    if ys.len() == 1 {
        assert(zs.drop_last() =~= seq![x]);
        assert(join_by(seq![x], sep) == x);
        assert(zs.last() == ys[0]);
        assert(join_by(ys, sep) == ys[0]);
        assert(join_by(zs, sep) =~= x + sep + join_by(ys, sep));
    } else {
        lemma_join_front(x, ys.drop_last(), sep);
        assert(zs.drop_last() =~= seq![x] + ys.drop_last());
        assert(zs.last() == ys.last());
        assert(join_by(zs, sep) =~= x + sep + join_by(ys, sep));
    }
}

/// Splitting at `sep` and joining the pieces with `sep` gives the text back,
/// and no piece holds `sep`.
pub proof fn lemma_split_join(s: Seq<char>, sep: char, cur: Seq<char>)
    requires
        !cur.contains(sep),
    ensures
        join_by(split_from(s, sep, cur), seq![sep]) == cur + s,
        forall|i: int| 0 <= i < split_from(s, sep, cur).len() ==> !(#[trigger] split_from(s, sep, cur)[i]).contains(sep),
        split_from(s, sep, cur).len() > 0,
    decreases s.len(),
{
    if s.len() == 0 {
        assert(cur + s =~= cur);
    } else if s[0] == sep {
        let rest = split_from(s.drop_first(), sep, seq![]);
        lemma_split_join(s.drop_first(), sep, seq![]);
        lemma_join_front(cur, rest, seq![sep]);
        assert(cur + s =~= cur + seq![sep] + (Seq::<char>::empty() + s.drop_first()));
        assert forall|i: int| 0 <= i < split_from(s, sep, cur).len() implies !(#[trigger] split_from(s, sep, cur)[i]).contains(sep) by {
            if i > 0 {
                assert(split_from(s, sep, cur)[i] == rest[i - 1]);
            }
        }
    } else {
        assert(!cur.push(s[0]).contains(sep)) by {
            if cur.push(s[0]).contains(sep) {
                let j = choose|j: int| 0 <= j < cur.push(s[0]).len() && cur.push(s[0])[j] == sep;
                if j < cur.len() {
                    assert(cur[j] == sep);
                }
            }
        }
        lemma_split_join(s.drop_first(), sep, cur.push(s[0]));
        assert(cur.push(s[0]) + s.drop_first() =~= cur + s);
    }
}

/// The characters of `s` from `lo` up to `hi`.
pub fn sub_chars(s: &Vec<char>, lo: usize, hi: usize) -> (r: Vec<char>)
    requires
        lo <= hi <= s.len(),
    ensures
        r@ == s@.subrange(lo as int, hi as int),
{
    let mut r: Vec<char> = Vec::new();
    let mut i = lo;
    while i < hi
        invariant
            lo <= i <= hi <= s.len(),
            r@ == s@.subrange(lo as int, i as int),
        decreases hi - i,
    {
        r.push(s[i]);
        i += 1;
        assert(r@ =~= s@.subrange(lo as int, i as int));
    }
    r
}

/// The text with its leading white space removed.
pub fn trim_start_chars(s: &Vec<char>) -> (r: Vec<char>)
    ensures
        r@ == trim_start(s@),
{
    let mut lo: usize = 0;
    while lo < s.len() && char_is_whitespace(s[lo])
        invariant
            lo <= s.len(),
            forall|k: int| 0 <= k < lo ==> is_white_space(#[trigger] s@[k]),
        decreases s.len() - lo,
    {
        lo += 1;
    }
    proof {
        lemma_trim_start_is_skip(s@, lo as int);
        assert(s@.subrange(lo as int, s.len() as int) =~= s@.skip(lo as int));
    }
    sub_chars(s, lo, s.len())
}

/// The text with white space removed at both ends.
pub fn trim_chars(s: &Vec<char>) -> (r: Vec<char>)
    ensures
        r@ == trim(s@),
{
    let mut lo: usize = 0;
    while lo < s.len() && char_is_whitespace(s[lo])
        invariant
            lo <= s.len(),
            forall|k: int| 0 <= k < lo ==> is_white_space(#[trigger] s@[k]),
        decreases s.len() - lo,
    {
        lo += 1;
    }
    proof {
        lemma_trim_start_is_skip(s@, lo as int);
    }
    let mut hi: usize = s.len();
    while hi > lo && char_is_whitespace(s[hi - 1])
        invariant
            lo <= hi <= s.len(),
            forall|k: int| hi <= k < s.len() ==> is_white_space(#[trigger] s@[k]),
        decreases hi,
    {
        hi -= 1;
    }
    let ghost t = s@.skip(lo as int);
    proof {
        assert(trim_start(t) == t);
        assert forall|k: int| hi - lo <= k < t.len() implies is_white_space(#[trigger] t[k]) by {
            assert(t[k] == s@[k + lo]);
        }
        lemma_trim_end_is_take(t, hi - lo);
        assert(t.take(hi - lo) =~= s@.subrange(lo as int, hi as int));
        let u = s@.subrange(lo as int, hi as int);
        if u.len() > 0 {
            assert(u.last() == s@[hi - 1]);
        }
    }
    sub_chars(s, lo, hi)
}

/// Whether the text `p` is a prefix of `s`.
pub fn has_prefix(s: &Vec<char>, p: &Vec<char>) -> (b: bool)
    ensures
        b == p@.is_prefix_of(s@),
{
    if p.len() > s.len() {
        return false;
    }
    let mut i: usize = 0;
    while i < p.len()
        invariant
            p.len() <= s.len(),
            i <= p.len(),
            forall|k: int| 0 <= k < i ==> p@[k] == s@[k],
        decreases p.len() - i,
    {
        if p[i] != s[i] {
            assert(!(p@ =~= s@.subrange(0, p.len() as int)));
            return false;
        }
        i += 1;
    }
    assert(p@ =~= s@.subrange(0, p.len() as int));
    true
}

/// Whether the string slice `p` is a prefix of `s`.
pub fn has_prefix_str(s: &Vec<char>, p: &str) -> (b: bool)
    ensures
        b == p@.is_prefix_of(s@),
{
    let pc = chars_of(p);
    has_prefix(s, &pc)
}

/// Whether the text starts with `c`.
pub fn starts_with(s: &Vec<char>, c: char) -> (b: bool)
    ensures
        b == starts_with_char(s@, c),
{
    s.len() > 0 && s[0] == c
}


/// A line with one trailing carriage return removed.
pub open spec fn strip_cr(line: Seq<char>) -> Seq<char> {
    if line.len() > 0 && line.last() == '\r' {
        line.drop_last()
    } else {
        line
    }
}

/// The lines of `s` still to come, when `cur` holds the part of the current
/// line already read: lines end at `\n`, a `\r` before it is dropped, and a
/// final line ending is optional (what `str::lines` returns).
pub open spec fn lines_from(s: Seq<char>, cur: Seq<char>) -> Seq<Seq<char>>
    decreases s.len(),
{
    if s.len() == 0 {
        if cur.len() == 0 {
            seq![]
        } else {
            seq![cur]
        }
    } else if s[0] == '\n' {
        seq![strip_cr(cur)] + lines_from(s.drop_first(), seq![])
    } else {
        lines_from(s.drop_first(), cur.push(s[0]))
    }
}

/// The lines of a text, as `str::lines` splits it.
pub open spec fn lines_of(s: Seq<char>) -> Seq<Seq<char>> {
    lines_from(s, seq![])
}

/// The pieces of `s` between occurrences of `sep`, when `cur` holds the
/// piece already read (what `str::split` with a character returns).
pub open spec fn split_from(s: Seq<char>, sep: char, cur: Seq<char>) -> Seq<Seq<char>>
    decreases s.len(),
{
    if s.len() == 0 {
        seq![cur]
    } else if s[0] == sep {
        seq![cur] + split_from(s.drop_first(), sep, seq![])
    } else {
        split_from(s.drop_first(), sep, cur.push(s[0]))
    }
}

/// The pieces of `s` between occurrences of `sep`.
pub open spec fn split_on(s: Seq<char>, sep: char) -> Seq<Seq<char>> {
    split_from(s, sep, seq![])
}

/// The maximal runs of non-white-space characters still to come, when `cur`
/// holds the run already read (what `str::split_whitespace` returns).
pub open spec fn words_from(s: Seq<char>, cur: Seq<char>) -> Seq<Seq<char>>
    decreases s.len(),
{
    if s.len() == 0 {
        if cur.len() == 0 {
            seq![]
        } else {
            seq![cur]
        }
    } else if is_white_space(s[0]) {
        if cur.len() == 0 {
            words_from(s.drop_first(), seq![])
        } else {
            seq![cur] + words_from(s.drop_first(), seq![])
        }
    } else {
        words_from(s.drop_first(), cur.push(s[0]))
    }
}

/// The white-space separated words of a text.
pub open spec fn words(s: Seq<char>) -> Seq<Seq<char>> {
    words_from(s, seq![])
}

/// The words joined with one space between consecutive words.
pub open spec fn join_spaced(ws: Seq<Seq<char>>) -> Seq<char>
    decreases ws.len(),
{
    if ws.len() == 0 {
        seq![]
    } else if ws.len() == 1 {
        ws[0]
    } else {
        join_spaced(ws.drop_last()) + seq![' '] + ws.last()
    }
}

/// The texts held by a sequence of character vectors.
pub open spec fn texts(v: Seq<Vec<char>>) -> Seq<Seq<char>> {
    Seq::new(v.len(), |i: int| v[i]@)
}

pub proof fn lemma_texts_push(v: Seq<Vec<char>>, x: Vec<char>)
    ensures
        texts(v.push(x)) == texts(v).push(x@),
{
    assert(texts(v.push(x)) =~= texts(v).push(x@));
}

/// The texts held by a sequence of strings.
pub open spec fn strs(v: Seq<String>) -> Seq<Seq<char>> {
    Seq::new(v.len(), |i: int| v[i]@)
}

pub proof fn lemma_strs_push(v: Seq<String>, x: String)
    ensures
        strs(v.push(x)) == strs(v).push(x@),
{
    assert(strs(v.push(x)) =~= strs(v).push(x@));
}

/// The lines of a text.
pub fn split_lines(s: &Vec<char>) -> (r: Vec<Vec<char>>)
    ensures
        texts(r@) == lines_of(s@),
{
    let mut r: Vec<Vec<char>> = Vec::new();
    let mut cur: Vec<char> = Vec::new();
    let mut i: usize = 0;
    assert(s@.skip(0) =~= s@);
    assert(texts(r@) =~= Seq::<Seq<char>>::empty());
    while i < s.len()
        invariant
            i <= s.len(),
            texts(r@) + lines_from(s@.skip(i as int), cur@) == lines_of(s@),
        decreases s.len() - i,
    {
        let ghost rest = s@.skip(i as int);
        assert(rest.drop_first() =~= s@.skip(i + 1));
        if s[i] == '\n' {
            let ghost old_cur = cur@;
            let mut line = cur;
            if line.len() > 0 && line[line.len() - 1] == '\r' {
                line.pop();
                assert(line@ =~= strip_cr(old_cur));
            }
            let ghost prev = texts(r@);
            proof {
                lemma_texts_push(r@, line);
            }
            r.push(line);
            cur = Vec::new();
            assert(prev + lines_from(rest, old_cur) =~= texts(r@) + lines_from(s@.skip(i + 1), cur@));
        } else {
            cur.push(s[i]);
        }
        i += 1;
    }
    if cur.len() > 0 {
        proof {
            lemma_texts_push(r@, cur);
        }
        r.push(cur);
    }
    proof {
        assert(s@.skip(s.len() as int) =~= Seq::<char>::empty());
    }
    r
}


/// The pieces of a text between occurrences of `sep`.
pub fn split_on_char(s: &Vec<char>, sep: char) -> (r: Vec<Vec<char>>)
    ensures
        texts(r@) == split_on(s@, sep),
{
    let mut r: Vec<Vec<char>> = Vec::new();
    let mut cur: Vec<char> = Vec::new();
    let mut i: usize = 0;
    assert(s@.skip(0) =~= s@);
    assert(texts(r@) =~= Seq::<Seq<char>>::empty());
    while i < s.len()
        invariant
            i <= s.len(),
            texts(r@) + split_from(s@.skip(i as int), sep, cur@) == split_on(s@, sep),
        decreases s.len() - i,
    {
        let ghost rest = s@.skip(i as int);
        assert(rest.drop_first() =~= s@.skip(i + 1));
        if s[i] == sep {
            let ghost old_cur = cur@;
            let ghost prev = texts(r@);
            proof {
                lemma_texts_push(r@, cur);
            }
            r.push(cur);
            cur = Vec::new();
            assert(prev + split_from(rest, sep, old_cur) =~= texts(r@) + split_from(
                s@.skip(i + 1),
                sep,
                cur@,
            ));
        } else {
            cur.push(s[i]);
        }
        i += 1;
    }
    proof {
        lemma_texts_push(r@, cur);
        assert(s@.skip(s.len() as int) =~= Seq::<char>::empty());
    }
    r.push(cur);
    r
}

/// The white-space separated words of a text.
pub fn split_words(s: &Vec<char>) -> (r: Vec<Vec<char>>)
    ensures
        texts(r@) == words(s@),
{
    let mut r: Vec<Vec<char>> = Vec::new();
    let mut cur: Vec<char> = Vec::new();
    let mut i: usize = 0;
    assert(s@.skip(0) =~= s@);
    assert(texts(r@) =~= Seq::<Seq<char>>::empty());
    while i < s.len()
        invariant
            i <= s.len(),
            texts(r@) + words_from(s@.skip(i as int), cur@) == words(s@),
        decreases s.len() - i,
    {
        let ghost rest = s@.skip(i as int);
        assert(rest.drop_first() =~= s@.skip(i + 1));
        if char_is_whitespace(s[i]) {
            if cur.len() > 0 {
                let ghost old_cur = cur@;
                let ghost prev = texts(r@);
                proof {
                    lemma_texts_push(r@, cur);
                }
                r.push(cur);
                cur = Vec::new();
                assert(prev + words_from(rest, old_cur) =~= texts(r@) + words_from(
                    s@.skip(i + 1),
                    cur@,
                ));
            } else {
                assert(cur@ =~= Seq::<char>::empty());
                assert(rest[0] == s@[i as int]);
                assert(words_from(rest, cur@) == words_from(s@.skip(i + 1), cur@));
            }
        } else {
            cur.push(s[i]);
        }
        i += 1;
    }
    if cur.len() > 0 {
        proof {
            lemma_texts_push(r@, cur);
        }
        r.push(cur);
    }
    proof {
        assert(s@.skip(s.len() as int) =~= Seq::<char>::empty());
    }
    r
}

/// The words joined with single spaces.
pub fn join_words(ws: &Vec<Vec<char>>) -> (r: Vec<char>)
    ensures
        r@ == join_spaced(texts(ws@)),
{
    let mut r: Vec<char> = Vec::new();
    let mut i: usize = 0;
    assert(texts(ws@).take(0) =~= Seq::<Seq<char>>::empty());
    while i < ws.len()
        invariant
            i <= ws.len(),
            r@ == join_spaced(texts(ws@).take(i as int)),
        decreases ws.len() - i,
    {
        let ghost before = r@;
        if i > 0 {
            r.push(' ');
        }
        let w = &ws[i];
        let mut k: usize = 0;
        while k < w.len()
            invariant
                k <= w.len(),
                r@ == (if i > 0 { before + seq![' '] } else { before }) + w@.take(k as int),
            decreases w.len() - k,
        {
            r.push(w[k]);
            k += 1;
            assert(r@ =~= (if i > 0 { before + seq![' '] } else { before }) + w@.take(k as int));
        }
        proof {
            let t = texts(ws@);
            assert(t.take(i + 1).drop_last() =~= t.take(i as int));
            assert(w@.take(w.len() as int) =~= w@);
            if i == 0 {
                assert(before =~= Seq::<char>::empty());
                assert(r@ =~= t.take(1)[0]);
            }
        }
        i += 1;
    }
    assert(texts(ws@).take(ws.len() as int) =~= texts(ws@));
    r
}


/// What `str::to_lowercase` returns for a text.
pub uninterp spec fn lowercase(s: Seq<char>) -> Seq<char>;

/// `str::to_lowercase`: its result is the lower-case form of `s`.
#[verifier::external_body]
pub(crate) fn lowercase_of(s: &str) -> (r: String)
    ensures
        r@ == lowercase(s@),
{
    s.to_lowercase()
}

/// Appends a string slice to a string.
pub fn push_str(s: &mut String, t: &str)
    ensures
        final(s)@ == old(s)@ + t@,
{
    let cs = chars_of(t);
    let ghost s0 = s@;
    let mut i: usize = 0;
    while i < cs.len()
        invariant
            i <= cs.len(),
            s@ == s0 + cs@.take(i as int),
        decreases cs.len() - i,
    {
        push_char(s, cs[i]);
        i += 1;
        assert(s@ =~= s0 + cs@.take(i as int));
    }
    assert(cs@.take(cs.len() as int) =~= cs@);
}

/// The texts joined with `sep` between consecutive texts (what `join` on a
/// slice of strings returns).
pub open spec fn join_by(ws: Seq<Seq<char>>, sep: Seq<char>) -> Seq<char>
    decreases ws.len(),
{
    if ws.len() == 0 {
        seq![]
    } else if ws.len() == 1 {
        ws[0]
    } else {
        join_by(ws.drop_last(), sep) + sep + ws.last()
    }
}

/// The strings joined with `sep` between consecutive strings.
pub fn join_strings(ws: &Vec<String>, sep: &str) -> (r: String)
    ensures
        r@ == join_by(strs(ws@), sep@),
{
    let ghost w = strs(ws@);
    let mut r = String::new();
    let mut i: usize = 0;
    assert(w.take(0) =~= Seq::<Seq<char>>::empty());
    while i < ws.len()
        invariant
            i <= ws.len(),
            w == strs(ws@),
            r@ == join_by(w.take(i as int), sep@),
        decreases ws.len() - i,
    {
        let ghost before = r@;
        if i > 0 {
            push_str(&mut r, sep);
        }
        push_str(&mut r, ws[i].as_str());
        proof {
            assert(w.take(i + 1).drop_last() =~= w.take(i as int));
            assert(w.take(i + 1).last() == ws@[i as int]@);
            if i == 0 {
                assert(before =~= Seq::<char>::empty());
                assert(r@ =~= w.take(1)[0]);
            }
        }
        i += 1;
    }
    assert(w.take(ws.len() as int) =~= w);
    r
}

/// Whether `needle` occurs in `hay` as a contiguous piece (`str::contains`).
pub open spec fn contains_text(hay: Seq<char>, needle: Seq<char>) -> bool {
    exists|i: int|
        0 <= i && i + needle.len() <= hay.len() && #[trigger] hay.subrange(i, i + needle.len())
            == needle
}

/// Whether `needle` occurs in `hay`.
pub fn contains_chars(hay: &Vec<char>, needle: &Vec<char>) -> (b: bool)
    ensures
        b == contains_text(hay@, needle@),
{
    if needle.len() > hay.len() {
        return false;
    }
    let limit = hay.len() - needle.len();
    let mut i: usize = 0;
    loop
        invariant
            needle.len() <= hay.len(),
            limit == hay.len() - needle.len(),
            i <= limit,
            forall|k: int|
                0 <= k < i ==> #[trigger] hay@.subrange(k, k + needle.len()) != needle@,
        decreases limit - i,
    {
        let mut j: usize = 0;
        let mut same = true;
        while j < needle.len() && same
            invariant
                i + needle.len() <= hay.len(),
                j <= needle.len(),
                same ==> forall|k: int| 0 <= k < j ==> hay@[i + k] == needle@[k],
                !same ==> hay@.subrange(i as int, i + needle.len()) != needle@,
            decreases needle.len() - j + (if same { 1int } else { 0int }),
        {
            if hay[i + j] != needle[j] {
                same = false;
                assert(hay@.subrange(i as int, i + needle.len())[j as int] != needle@[j as int]);
            } else {
                j += 1;
            }
        }
        if same {
            assert(hay@.subrange(i as int, i + needle.len()) =~= needle@);
            return true;
        }
        if i == limit {
            assert forall|k: int|
                0 <= k && k + needle.len() <= hay.len() implies #[trigger] hay@.subrange(
                k,
                k + needle.len(),
            ) != needle@ by {
                assert(k <= i);
            }
            return false;
        }
        i += 1;
    }
}

/// Whether the string `needle` occurs in the string `hay`.
pub fn contains_str(hay: &str, needle: &str) -> (b: bool)
    ensures
        b == contains_text(hay@, needle@),
{
    contains_chars(&chars_of(hay), &chars_of(needle))
}

} // verus!

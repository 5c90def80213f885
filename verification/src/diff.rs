//! The split (side-by-side) view of a unified diff.
use vstd::prelude::*;
use crate::git::{check_refs, compare_range, compare_range_exec, diff_args_spec, build_diff_args, lit, opt_view, refs_error, refs_unsafe, strings_view};
use crate::text::{filter_map, lemma_filter_map_concat, chars_of, is_whitespace, lemma_splitn_nonempty, lines_seq, lines_str, parse_usize, parse_usize_exec, slice_of, split_char, split_seq, starts_with, starts_with_exec, string_of, trim, trim_start_char, trim_start_char_exec, trim_vec, vviews, ws_tokens, ws_tokens_exec};

verus! {

// ---------------------------------------------------------------------------
// Line similarity

/// Length of a longest common subsequence of `a` and `b`.
pub open spec fn lcs(a: Seq<char>, b: Seq<char>) -> nat
    decreases a.len() + b.len(),
{
    if a.len() == 0 || b.len() == 0 {
        0
    } else if a.last() == b.last() {
        lcs(a.drop_last(), b.drop_last()) + 1
    } else {
        let x = lcs(a.drop_last(), b);
        let y = lcs(a, b.drop_last());
        if x >= y {
            x
        } else {
            y
        }
    }
}

/// Occurrences of `c` in `s`.
pub open spec fn count_in(s: Seq<char>, c: char) -> nat
    decreases s.len(),
{
    if s.len() == 0 {
        0
    } else {
        count_in(s.drop_last(), c) + (if s.last() == c {
            1nat
        } else {
            0nat
        })
    }
}

/// Characters of `b` that can be matched with a distinct character of `a`
/// (the size of the multiset intersection), counting `b` left to right.
pub open spec fn common_chars(a: Seq<char>, b: Seq<char>) -> nat
    decreases b.len(),
{
    if b.len() == 0 {
        0
    } else {
        common_chars(a, b.drop_last()) + (if count_in(b.drop_last(), b.last()) < count_in(
            a,
            b.last(),
        ) {
            1nat
        } else {
            0nat
        })
    }
}

/// Lines whose product of lengths is at most this use the exact LCS measure.
pub open spec fn lcs_limit() -> nat {
    40000
}

/// The similarity of two lines as a fraction `(num, den)`: `2 * common / (len
/// a + len b)` of the trimmed lines, with `common` their LCS length (or, for
/// long lines, the number of shared characters); 1 for two empty lines, 0
/// when only one is empty.
pub open spec fn similarity(a0: Seq<char>, b0: Seq<char>) -> (nat, nat) {
    let a = trim(a0);
    let b = trim(b0);
    if a.len() == 0 && b.len() == 0 {
        (1, 1)
    } else if a.len() == 0 || b.len() == 0 {
        (0, a.len() + b.len())
    } else if a.len() * b.len() <= lcs_limit() {
        (2 * lcs(a, b), a.len() + b.len())
    } else {
        (2 * common_chars(a, b), a.len() + b.len())
    }
}

/// Paired lines are shown side by side as modified only when at least half
/// of their characters match.
pub open spec fn similar(a: Seq<char>, b: Seq<char>) -> bool {
    let s = similarity(a, b);
    2 * s.0 >= s.1
}

proof fn lemma_lcs_bound(a: Seq<char>, b: Seq<char>)
    ensures
        lcs(a, b) <= b.len(),
        lcs(a, b) <= a.len(),
    decreases a.len() + b.len(),
{
    if a.len() == 0 || b.len() == 0 {
    } else if a.last() == b.last() {
        lemma_lcs_bound(a.drop_last(), b.drop_last());
    } else {
        lemma_lcs_bound(a.drop_last(), b);
        lemma_lcs_bound(a, b.drop_last());
    }
}

/// LCS length by dynamic programming over two rolling rows.
fn lcs_len(a: &Vec<char>, b: &Vec<char>) -> (r: usize)
    requires
        a.len() <= lcs_limit(),
        b.len() <= lcs_limit(),
    ensures
        r == lcs(a@, b@),
{
    let n = a.len();
    let m = b.len();
    let mut prev: Vec<usize> = Vec::new();
    let mut k: usize = 0;
    while k <= m
        invariant
            k <= m + 1,
            m == b.len(),
            m <= lcs_limit(),
            prev@.len() == k,
            forall|j: int| 0 <= j < k ==> prev@[j] == 0,
        decreases m + 1 - k,
    {
        prev.push(0);
        k = k + 1;
    }
    proof {
        assert forall|j: int| 0 <= j <= m implies prev@[j] == lcs(a@.take(0), b@.take(j)) by {}
    }
    let mut i: usize = 1;
    while i <= n
        invariant
            1 <= i <= n + 1,
            n == a.len(),
            m == b.len(),
            n <= lcs_limit(),
            m <= lcs_limit(),
            prev@.len() == m + 1,
            forall|j: int| 0 <= j <= m ==> #[trigger] prev@[j] == lcs(a@.take(i - 1), b@.take(j)),
        decreases n + 1 - i,
    {
        let mut cur: Vec<usize> = Vec::new();
        cur.push(0);
        let ghost ai = a@.take(i as int);
        proof {
            assert(cur@[0] == lcs(ai, b@.take(0)));
        }
        let mut j: usize = 1;
        while j <= m
            invariant
                1 <= i <= n,
                1 <= j <= m + 1,
                n == a.len(),
                m == b.len(),
                n <= lcs_limit(),
                m <= lcs_limit(),
                ai == a@.take(i as int),
                prev@.len() == m + 1,
                cur@.len() == j,
                forall|x: int| 0 <= x <= m ==> #[trigger] prev@[x] == lcs(a@.take(i - 1), b@.take(x)),
                forall|x: int| 0 <= x < j ==> #[trigger] cur@[x] == lcs(ai, b@.take(x)),
            decreases m + 1 - j,
        {
            let ghost bj = b@.take(j as int);
            proof {
                assert(ai.drop_last() =~= a@.take(i - 1));
                assert(bj.drop_last() =~= b@.take(j - 1));
                assert(ai.last() == a@[i - 1]);
                assert(bj.last() == b@[j - 1]);
                lemma_lcs_bound(a@.take(i - 1), b@.take(j - 1));
            }
            let v = if a[i - 1] == b[j - 1] {
                prev[j - 1] + 1
            } else if prev[j] >= cur[j - 1] {
                prev[j]
            } else {
                cur[j - 1]
            };
            cur.push(v);
            j = j + 1;
        }
        prev = cur;
        i = i + 1;
    }
    proof {
        assert(a@.take(n as int) =~= a@);
        assert(b@.take(m as int) =~= b@);
    }
    prev[m]
}

/// The count that a table of `(char, count)` entries holds for `c` (its last
/// entry for `c`; zero without one).
pub open spec fn tget(t: Seq<(char, usize)>, c: char) -> nat
    decreases t.len(),
{
    if t.len() == 0 {
        0
    } else if t.last().0 == c {
        t.last().1 as nat
    } else {
        tget(t.drop_last(), c)
    }
}

proof fn lemma_tget_update(t: Seq<(char, usize)>, k: int, c: char, v: usize, d: char)
    requires
        0 <= k < t.len(),
        t[k].0 == c,
        forall|x: int| k < x < t.len() ==> #[trigger] t[x].0 != c,
    ensures
        tget(t.update(k, (c, v)), d) == (if d == c {
            v as nat
        } else {
            tget(t, d)
        }),
    decreases t.len(),
{
    let u = t.update(k, (c, v));
    if k == t.len() - 1 {
        assert(u.drop_last() =~= t.drop_last());
    } else {
        assert(u.drop_last() =~= t.drop_last().update(k, (c, v)));
        assert(t.last().0 != c);
        lemma_tget_update(t.drop_last(), k, c, v, d);
    }
}

proof fn lemma_tget_absent(t: Seq<(char, usize)>, c: char)
    requires
        forall|x: int| 0 <= x < t.len() ==> #[trigger] t[x].0 != c,
    ensures
        tget(t, c) == 0,
    decreases t.len(),
{
    if t.len() > 0 {
        lemma_tget_absent(t.drop_last(), c);
    }
}

/// The last index of the table entry for `c`.
fn find_entry(t: &Vec<(char, usize)>, c: char) -> (r: Option<usize>)
    ensures
        r matches Some(k) ==> k < t@.len() && t@[k as int].0 == c && (forall|x: int|
            k < x < t@.len() ==> #[trigger] t@[x].0 != c) && tget(t@, c) == t@[k as int].1,
        r is None ==> tget(t@, c) == 0 && forall|x: int| 0 <= x < t@.len() ==> #[trigger] t@[x].0
            != c,
{
    let mut j = t.len();
    while j > 0
        invariant
            j <= t.len(),
            forall|x: int| j <= x < t@.len() ==> #[trigger] t@[x].0 != c,
        decreases j,
    {
        if t[j - 1].0 == c {
            proof {
                lemma_tget_update(t@, j - 1, c, t@[j - 1].1, c);
                assert(t@.update(j - 1, (c, t@[j - 1].1)) =~= t@);
            }
            return Some(j - 1);
        }
        j = j - 1;
    }
    proof {
        lemma_tget_absent(t@, c);
    }
    None
}

proof fn lemma_count_in_take(s: Seq<char>, i: int, c: char)
    requires
        0 <= i < s.len(),
    ensures
        count_in(s.take(i + 1), c) == count_in(s.take(i), c) + (if s[i] == c {
            1nat
        } else {
            0nat
        }),
{
    assert(s.take(i + 1).drop_last() =~= s.take(i));
}

/// `common_chars(a, b)` with a table of character counts.
fn common_chars_exec(a: &Vec<char>, b: &Vec<char>) -> (r: usize)
    ensures
        r == common_chars(a@, b@),
{
    let mut t: Vec<(char, usize)> = Vec::new();
    let mut i: usize = 0;
    while i < a.len()
        invariant
            i <= a.len(),
            forall|d: char| #[trigger] tget(t@, d) == count_in(a@.take(i as int), d),
            forall|d: char| #[trigger] tget(t@, d) <= i,
        decreases a.len() - i,
    {
        let c = a[i];
        proof {
            assert forall|d: char| #[trigger]
                count_in(a@.take(i + 1), d) == count_in(a@.take(i as int), d) + (if a@[i as int]
                    == d {
                    1nat
                } else {
                    0nat
                }) by {
                lemma_count_in_take(a@, i as int, d);
            }
        }
        match find_entry(&t, c) {
            Some(k) => {
                let ghost old_t = t@;
                let v = t[k].1 + 1;
                t.set(k, (c, v));
                proof {
                    assert forall|d: char| #[trigger] tget(t@, d) == (if d == c {
                        v as nat
                    } else {
                        tget(old_t, d)
                    }) by {
                        lemma_tget_update(old_t, k as int, c, v, d);
                    }
                }
            },
            None => {
                let ghost old_t = t@;
                t.push((c, 1));
                proof {
                    assert forall|d: char| #[trigger] tget(t@, d) == (if d == c {
                        1nat
                    } else {
                        tget(old_t, d)
                    }) by {
                        assert(t@.drop_last() =~= old_t);
                    }
                }
            },
        }
        i = i + 1;
    }
    assert(a@.take(a.len() as int) =~= a@);
    let mut acc: usize = 0;
    let mut j: usize = 0;
    assert(b@.take(0) =~= Seq::<char>::empty());
    while j < b.len()
        invariant
            j <= b.len(),
            acc <= j,
            acc == common_chars(a@, b@.take(j as int)),
            forall|d: char| #[trigger]
                tget(t@, d) == (if count_in(b@.take(j as int), d) < count_in(a@, d) {
                    (count_in(a@, d) - count_in(b@.take(j as int), d)) as nat
                } else {
                    0nat
                }),
        decreases b.len() - j,
    {
        let c = b[j];
        let ghost bj = b@.take(j + 1);
        proof {
            assert(bj.drop_last() =~= b@.take(j as int));
            assert(bj.last() == c);
            assert forall|d: char| #[trigger]
                count_in(b@.take(j + 1), d) == count_in(b@.take(j as int), d) + (if b@[j as int]
                    == d {
                    1nat
                } else {
                    0nat
                }) by {
                lemma_count_in_take(b@, j as int, d);
            }
        }
        match find_entry(&t, c) {
            Some(k) => {
                if t[k].1 > 0 {
                    let ghost old_t = t@;
                    let v = t[k].1 - 1;
                    t.set(k, (c, v));
                    acc = acc + 1;
                    proof {
                        assert forall|d: char| #[trigger] tget(t@, d) == (if d == c {
                            v as nat
                        } else {
                            tget(old_t, d)
                        }) by {
                            lemma_tget_update(old_t, k as int, c, v, d);
                        }
                    }
                }
            },
            None => {},
        }
        j = j + 1;
    }
    assert(b@.take(b.len() as int) =~= b@);
    acc
}

/// The similarity of two lines as a fraction `(num, den)` (see `similarity`).
pub fn line_similarity(a: &str, b: &str) -> (r: (u128, u128))
    ensures
        r.0 as nat == similarity(a@, b@).0,
        r.1 as nat == similarity(a@, b@).1,
        r.0 <= 2 * (usize::MAX as nat),
        r.1 <= 2 * (usize::MAX as nat),
{
    let av = trim_vec(&chars_of(a));
    let bv = trim_vec(&chars_of(b));
    let n = av.len();
    let m = bv.len();
    if n == 0 && m == 0 {
        return (1, 1);
    }
    proof {
        lemma_lcs_bound(av@, bv@);
        lemma_common_bound(av@, bv@);
    }
    if n == 0 || m == 0 {
        return (0, n as u128 + m as u128);
    }
    let small = match n.checked_mul(m) {
        Some(p) => p <= 40000,
        None => false,
    };
    if small {
        proof {
            assert(n <= lcs_limit()) by (nonlinear_arith)
                requires
                    m >= 1,
                    n * m <= 40000,
            ;
            assert(m <= lcs_limit()) by (nonlinear_arith)
                requires
                    n >= 1,
                    n * m <= 40000,
            ;
        }
        let l = lcs_len(&av, &bv);
        (2 * l as u128, n as u128 + m as u128)
    } else {
        let c = common_chars_exec(&av, &bv);
        (2 * c as u128, n as u128 + m as u128)
    }
}

proof fn lemma_common_bound(a: Seq<char>, b: Seq<char>)
    ensures
        common_chars(a, b) <= b.len(),
    decreases b.len(),
{
    if b.len() > 0 {
        lemma_common_bound(a, b.drop_last());
    }
}

/// Whether two lines are similar enough to show side by side.
pub fn lines_similar(a: &str, b: &str) -> (r: bool)
    ensures
        r == similar(a@, b@),
{
    let (num, den) = line_similarity(a, b);
    num * 2 >= den
}

// ---------------------------------------------------------------------------
// Rows of the split view

#[derive(Clone, Copy, Debug, PartialEq, Eq, Structural)]
pub enum DiffRowKind {
    Context,
    Added,
    Removed,
    /// left = removed line, right = added line
    Modified,
}

/// One row of the split view: the old line on the left, the new on the right.
#[derive(Clone, Debug, PartialEq, Eq)]
pub struct DiffRow {
    pub kind: DiffRowKind,
    pub left_no: Option<usize>,
    pub left_text: Option<String>,
    pub right_no: Option<usize>,
    pub right_text: Option<String>,
}

pub struct DiffRowV {
    pub kind: DiffRowKind,
    pub left_no: Option<usize>,
    pub left_text: Option<Seq<char>>,
    pub right_no: Option<usize>,
    pub right_text: Option<Seq<char>>,
}

pub open spec fn opt_str_view(o: Option<String>) -> Option<Seq<char>> {
    match o {
        Some(s) => Some(s@),
        None => None,
    }
}

impl View for DiffRow {
    type V = DiffRowV;

    open spec fn view(&self) -> DiffRowV {
        DiffRowV {
            kind: self.kind,
            left_no: self.left_no,
            left_text: opt_str_view(self.left_text),
            right_no: self.right_no,
            right_text: opt_str_view(self.right_text),
        }
    }
}

pub open spec fn rows_view(s: Seq<DiffRow>) -> Seq<DiffRowV> {
    s.map_values(|r: DiffRow| r@)
}

/// A buffered `-` or `+` line: its text and its line number.
pub open spec fn numbered_view(s: Seq<(String, usize)>) -> Seq<(Seq<char>, usize)> {
    s.map_values(|x: (String, usize)| (x.0@, x.1))
}

pub open spec fn removed_row(l: (Seq<char>, usize)) -> DiffRowV {
    DiffRowV {
        kind: DiffRowKind::Removed,
        left_no: Some(l.1),
        left_text: Some(l.0),
        right_no: None,
        right_text: None,
    }
}

pub open spec fn added_row(r: (Seq<char>, usize)) -> DiffRowV {
    DiffRowV {
        kind: DiffRowKind::Added,
        left_no: None,
        left_text: None,
        right_no: Some(r.1),
        right_text: Some(r.0),
    }
}

pub open spec fn modified_row(l: (Seq<char>, usize), r: (Seq<char>, usize)) -> DiffRowV {
    DiffRowV {
        kind: DiffRowKind::Modified,
        left_no: Some(l.1),
        left_text: Some(l.0),
        right_no: Some(r.1),
        right_text: Some(r.0),
    }
}

pub open spec fn context_row(text: Seq<char>, ln: usize, rn: usize) -> DiffRowV {
    DiffRowV {
        kind: DiffRowKind::Context,
        left_no: Some(ln),
        left_text: Some(text),
        right_no: Some(rn),
        right_text: Some(text),
    }
}

/// Rows emitted so far for a block of `-`/`+` lines, and the removals and
/// additions held back so that consecutive unpaired lines come out as a
/// block of removals followed by a block of additions.
pub struct FlushState {
    pub out: Seq<DiffRowV>,
    pub pend_rem: Seq<DiffRowV>,
    pub pend_add: Seq<DiffRowV>,
}

/// The first `k` positions of a block: the `i`-th removed and `i`-th added
/// lines become one modified row when similar, else a removal and an
/// addition.
pub open spec fn flush_fold(removed: Seq<(Seq<char>, usize)>, added: Seq<(Seq<char>, usize)>, k: nat) -> FlushState
    decreases k,
{
    if k == 0 {
        FlushState { out: Seq::empty(), pend_rem: Seq::empty(), pend_add: Seq::empty() }
    } else {
        let st = flush_fold(removed, added, (k - 1) as nat);
        let i = k - 1;
        if i < removed.len() && i < added.len() && similar(removed[i].0, added[i].0) {
            FlushState {
                out: st.out + st.pend_rem + st.pend_add + seq![modified_row(removed[i], added[i])],
                pend_rem: Seq::empty(),
                pend_add: Seq::empty(),
            }
        } else {
            FlushState {
                out: st.out,
                pend_rem: if i < removed.len() {
                    st.pend_rem.push(removed_row(removed[i]))
                } else {
                    st.pend_rem
                },
                pend_add: if i < added.len() {
                    st.pend_add.push(added_row(added[i]))
                } else {
                    st.pend_add
                },
            }
        }
    }
}

pub open spec fn max_len(a: nat, b: nat) -> nat {
    if a >= b {
        a
    } else {
        b
    }
}

/// The rows of one block of consecutive `-`/`+` lines.
pub open spec fn flush_rows(removed: Seq<(Seq<char>, usize)>, added: Seq<(Seq<char>, usize)>) -> Seq<DiffRowV> {
    let st = flush_fold(removed, added, max_len(removed.len(), added.len()));
    st.out + st.pend_rem + st.pend_add
}

fn append_rows(rows: &mut Vec<DiffRow>, more: &mut Vec<DiffRow>)
    ensures
        rows_view(final(rows)@) == rows_view(old(rows)@) + rows_view(old(more)@),
        final(more)@.len() == 0,
{
    let ghost r0 = rows_view(rows@);
    let ghost m0 = rows_view(more@);
    rows.append(more);
    assert(rows_view(rows@) =~= r0 + m0);
}

/// Appends the rows of a block to `rows`.
fn flush(rows: &mut Vec<DiffRow>, removed: &Vec<(String, usize)>, added: &Vec<(String, usize)>)
    ensures
        rows_view(final(rows)@) == rows_view(old(rows)@) + flush_rows(
            numbered_view(removed@),
            numbered_view(added@),
        ),
{
    let ghost rm = numbered_view(removed@);
    let ghost ad = numbered_view(added@);
    let ghost r0 = rows_view(rows@);
    let pairs = if removed.len() >= added.len() {
        removed.len()
    } else {
        added.len()
    };
    let mut pend_rem: Vec<DiffRow> = Vec::new();
    let mut pend_add: Vec<DiffRow> = Vec::new();
    let mut i: usize = 0;
    while i < pairs
        invariant
            i <= pairs,
            pairs == max_len(removed@.len(), added@.len()),
            rm == numbered_view(removed@),
            ad == numbered_view(added@),
            rows_view(rows@) == r0 + flush_fold(rm, ad, i as nat).out,
            rows_view(pend_rem@) == flush_fold(rm, ad, i as nat).pend_rem,
            rows_view(pend_add@) == flush_fold(rm, ad, i as nat).pend_add,
        decreases pairs - i,
    {
        let has_l = i < removed.len();
        let has_r = i < added.len();
        let paired = has_l && has_r && lines_similar(removed[i].0.as_str(), added[i].0.as_str());
        if paired {
            let ghost before = rows_view(rows@);
            append_rows(rows, &mut pend_rem);
            append_rows(rows, &mut pend_add);
            let row = DiffRow {
                kind: DiffRowKind::Modified,
                left_no: Some(removed[i].1),
                left_text: Some(removed[i].0.clone()),
                right_no: Some(added[i].1),
                right_text: Some(added[i].0.clone()),
            };
            let ghost mid = rows_view(rows@);
            rows.push(row);
            proof {
                assert(row@ == modified_row(rm[i as int], ad[i as int]));
                assert(rows_view(rows@) =~= mid.push(row@));
                assert(rows_view(pend_rem@) =~= Seq::<DiffRowV>::empty());
                assert(rows_view(pend_add@) =~= Seq::<DiffRowV>::empty());
            }
        } else {
            if has_l {
                let row = DiffRow {
                    kind: DiffRowKind::Removed,
                    left_no: Some(removed[i].1),
                    left_text: Some(removed[i].0.clone()),
                    right_no: None,
                    right_text: None,
                };
                let ghost prev = rows_view(pend_rem@);
                pend_rem.push(row);
                proof {
                    assert(row@ == removed_row(rm[i as int]));
                    assert(rows_view(pend_rem@) =~= prev.push(row@));
                }
            }
            if has_r {
                let row = DiffRow {
                    kind: DiffRowKind::Added,
                    left_no: None,
                    left_text: None,
                    right_no: Some(added[i].1),
                    right_text: Some(added[i].0.clone()),
                };
                let ghost prev = rows_view(pend_add@);
                pend_add.push(row);
                proof {
                    assert(row@ == added_row(ad[i as int]));
                    assert(rows_view(pend_add@) =~= prev.push(row@));
                }
            }
        }
        i = i + 1;
    }
    append_rows(rows, &mut pend_rem);
    append_rows(rows, &mut pend_add);
    assert(rows_view(rows@) =~= r0 + flush_rows(rm, ad));
}

// ---------------------------------------------------------------------------
// Parsing a unified diff

/// The old and new start lines of a `@@ -a,b +c,d @@` hunk header.
pub open spec fn hunk_starts(line: Seq<char>) -> Option<(usize, usize)> {
    let s = trim_start_char(trim_start_char(line, '@'), ' ');
    let toks = ws_tokens(s);
    if toks.len() < 2 {
        None
    } else {
        let o = parse_usize(split_seq(trim_start_char(toks[0], '-'), seq![',']).first());
        let n = parse_usize(split_seq(trim_start_char(toks[1], '+'), seq![',']).first());
        match (o, n) {
            (Some(a), Some(b)) => Some((a, b)),
            _ => None,
        }
    }
}

fn hunk_starts_exec(line: &Vec<char>) -> (r: Option<(usize, usize)>)
    ensures
        r == hunk_starts(line@),
{
    let s1 = trim_start_char_exec(line, '@');
    let s = trim_start_char_exec(&s1, ' ');
    let toks = ws_tokens_exec(&s);
    if toks.len() < 2 {
        return None;
    }
    proof {
        assert(vviews(toks@)[0] == toks@[0]@);
        assert(vviews(toks@)[1] == toks@[1]@);
    }
    let o1 = trim_start_char_exec(&toks[0], '-');
    let o2 = split_char(&o1, ',');
    let n1 = trim_start_char_exec(&toks[1], '+');
    let n2 = split_char(&n1, ',');
    proof {
        lemma_splitn_nonempty(o1@, seq![','], None);
        lemma_splitn_nonempty(n1@, seq![','], None);
        assert(vviews(o2@)[0] == o2@[0]@);
        assert(vviews(n2@)[0] == n2@[0]@);
    }
    let o = parse_usize_exec(&o2[0]);
    let n = parse_usize_exec(&n2[0]);
    match (o, n) {
        (Some(a), Some(b)) => Some((a, b)),
        _ => None,
    }
}

/// The line number after `n` (wrapping like unchecked release arithmetic).
pub open spec fn next_no(n: usize) -> usize {
    if n == usize::MAX {
        0
    } else {
        (n + 1) as usize
    }
}

fn next_no_exec(n: usize) -> (r: usize)
    ensures
        r == next_no(n),
{
    if n == usize::MAX {
        0
    } else {
        n + 1
    }
}

/// File header lines of a diff, which carry no content.
pub open spec fn is_header(line: Seq<char>) -> bool {
    starts_with(line, "diff "@) || starts_with(line, "index "@) || starts_with(line, "--- "@)
        || starts_with(line, "+++ "@)
}

/// Parser state: rows so far, the next old and new line numbers, and the
/// pending block of removed and added lines (text and line number).
pub struct DiffState {
    pub rows: Seq<DiffRowV>,
    pub left: usize,
    pub right: usize,
    pub removed: Seq<(Seq<char>, usize)>,
    pub added: Seq<(Seq<char>, usize)>,
}

/// One line of a unified diff.
pub open spec fn diff_step(st: DiffState, line: Seq<char>) -> DiffState {
    if starts_with(line, "@@"@) {
        let rows = st.rows + flush_rows(st.removed, st.added);
        match hunk_starts(line) {
            Some((a, b)) => DiffState {
                rows,
                left: a,
                right: b,
                removed: Seq::empty(),
                added: Seq::empty(),
            },
            None => DiffState {
                rows,
                left: st.left,
                right: st.right,
                removed: Seq::empty(),
                added: Seq::empty(),
            },
        }
    } else if is_header(line) {
        DiffState {
            rows: st.rows + flush_rows(st.removed, st.added),
            left: st.left,
            right: st.right,
            removed: Seq::empty(),
            added: Seq::empty(),
        }
    } else if line.len() > 0 && line[0] == '\\' {
        st
    } else if line.len() > 0 && line[0] == '-' {
        DiffState {
            rows: st.rows,
            left: next_no(st.left),
            right: st.right,
            removed: st.removed.push((line.drop_first(), st.left)),
            added: st.added,
        }
    } else if line.len() > 0 && line[0] == '+' {
        DiffState {
            rows: st.rows,
            left: st.left,
            right: next_no(st.right),
            removed: st.removed,
            added: st.added.push((line.drop_first(), st.right)),
        }
    } else {
        let text = if line.len() > 0 && line[0] == ' ' {
            line.drop_first()
        } else {
            line
        };
        DiffState {
            rows: (st.rows + flush_rows(st.removed, st.added)).push(
                context_row(text, st.left, st.right),
            ),
            left: next_no(st.left),
            right: next_no(st.right),
            removed: Seq::empty(),
            added: Seq::empty(),
        }
    }
}

pub open spec fn diff_fold(lines: Seq<Seq<char>>) -> DiffState
    decreases lines.len(),
{
    if lines.len() == 0 {
        DiffState {
            rows: Seq::empty(),
            left: 0,
            right: 0,
            removed: Seq::empty(),
            added: Seq::empty(),
        }
    } else {
        diff_step(diff_fold(lines.drop_last()), lines.last())
    }
}

/// The split-view rows of a unified diff.
pub open spec fn unified_diff_rows(text: Seq<char>) -> Seq<DiffRowV> {
    let st = diff_fold(lines_seq(text));
    st.rows + flush_rows(st.removed, st.added)
}

/// Parses a unified diff into split-view rows.
pub fn parse_unified_diff(diff_text: &str) -> (r: Vec<DiffRow>)
    ensures
        rows_view(r@) == unified_diff_rows(diff_text@),
{
    let lines = lines_str(diff_text);
    let ghost ls = vviews(lines@);
    let at2 = chars_of("@@");
    let h1 = chars_of("diff ");
    let h2 = chars_of("index ");
    let h3 = chars_of("--- ");
    let h4 = chars_of("+++ ");
    let mut rows: Vec<DiffRow> = Vec::new();
    let mut left: usize = 0;
    let mut right: usize = 0;
    let mut removed: Vec<(String, usize)> = Vec::new();
    let mut added: Vec<(String, usize)> = Vec::new();
    proof {
        assert(ls.take(0) =~= Seq::<Seq<char>>::empty());
        assert(rows_view(rows@) =~= Seq::<DiffRowV>::empty());
        assert(numbered_view(removed@) =~= Seq::<(Seq<char>, usize)>::empty());
        assert(numbered_view(added@) =~= Seq::<(Seq<char>, usize)>::empty());
    }
    let mut i: usize = 0;
    while i < lines.len()
        invariant
            i <= lines.len(),
            ls == vviews(lines@),
            at2@ == "@@"@,
            h1@ == "diff "@,
            h2@ == "index "@,
            h3@ == "--- "@,
            h4@ == "+++ "@,
            rows_view(rows@) == diff_fold(ls.take(i as int)).rows,
            left == diff_fold(ls.take(i as int)).left,
            right == diff_fold(ls.take(i as int)).right,
            numbered_view(removed@) == diff_fold(ls.take(i as int)).removed,
            numbered_view(added@) == diff_fold(ls.take(i as int)).added,
        decreases lines.len() - i,
    {
        let ghost prev_removed = removed@;
        let ghost prev_added = added@;
        proof {
            assert(ls.take(i + 1).drop_last() =~= ls.take(i as int));
            assert(ls.take(i + 1).last() == lines@[i as int]@);
        }
        let line = &lines[i];
        if starts_with_exec(line, &at2) {
            flush(&mut rows, &removed, &added);
            removed = Vec::new();
            added = Vec::new();
            match hunk_starts_exec(line) {
                Some((a, b)) => {
                    left = a;
                    right = b;
                },
                None => {},
            }
            proof {
                assert(numbered_view(removed@) =~= Seq::<(Seq<char>, usize)>::empty());
                assert(numbered_view(added@) =~= Seq::<(Seq<char>, usize)>::empty());
            }
        } else if starts_with_exec(line, &h1) || starts_with_exec(line, &h2) || starts_with_exec(
            line,
            &h3,
        ) || starts_with_exec(line, &h4) {
            flush(&mut rows, &removed, &added);
            removed = Vec::new();
            added = Vec::new();
            proof {
                assert(numbered_view(removed@) =~= Seq::<(Seq<char>, usize)>::empty());
                assert(numbered_view(added@) =~= Seq::<(Seq<char>, usize)>::empty());
            }
        } else if line.len() > 0 && line[0] == '\\' {
        } else if line.len() > 0 && line[0] == '-' {
            let text = slice_of(line, 1, line.len());
            assert(text@ =~= line@.drop_first());
            removed.push((string_of(&text), left));
            left = next_no_exec(left);
            proof {
                assert(numbered_view(removed@) =~= numbered_view(prev_removed).push(
                    (text@, removed@[removed.len() - 1].1),
                ));
            }
        } else if line.len() > 0 && line[0] == '+' {
            let text = slice_of(line, 1, line.len());
            assert(text@ =~= line@.drop_first());
            added.push((string_of(&text), right));
            right = next_no_exec(right);
            proof {
                assert(numbered_view(added@) =~= numbered_view(prev_added).push(
                    (text@, added@[added.len() - 1].1),
                ));
            }
        } else {
            flush(&mut rows, &removed, &added);
            removed = Vec::new();
            added = Vec::new();
            let text = if line.len() > 0 && line[0] == ' ' {
                slice_of(line, 1, line.len())
            } else {
                line.clone()
            };
            proof {
                if line.len() > 0 && line[0] == ' ' {
                    assert(text@ =~= line@.drop_first());
                }
            }
            let row = DiffRow {
                kind: DiffRowKind::Context,
                left_no: Some(left),
                left_text: Some(string_of(&text)),
                right_no: Some(right),
                right_text: Some(string_of(&text)),
            };
            let ghost mid = rows_view(rows@);
            rows.push(row);
            left = next_no_exec(left);
            right = next_no_exec(right);
            proof {
                assert(rows_view(rows@) =~= mid.push(row@));
                assert(numbered_view(removed@) =~= Seq::<(Seq<char>, usize)>::empty());
                assert(numbered_view(added@) =~= Seq::<(Seq<char>, usize)>::empty());
            }
        }
        i = i + 1;
    }
    flush(&mut rows, &removed, &added);
    assert(ls.take(lines.len() as int) =~= ls);
    rows
}

// ---------------------------------------------------------------------------
// What the two columns show

pub open spec fn left_entry(r: DiffRowV) -> Option<(Seq<char>, usize)> {
    match (r.left_text, r.left_no) {
        (Some(t), Some(n)) => Some((t, n)),
        _ => None,
    }
}

pub open spec fn right_entry(r: DiffRowV) -> Option<(Seq<char>, usize)> {
    match (r.right_text, r.right_no) {
        (Some(t), Some(n)) => Some((t, n)),
        _ => None,
    }
}

/// The left column of the rows: text and old line number, top to bottom.
pub open spec fn left_column(rows: Seq<DiffRowV>) -> Seq<(Seq<char>, usize)> {
    filter_map(rows, |r: DiffRowV| left_entry(r))
}

/// The right column of the rows: text and new line number, top to bottom.
pub open spec fn right_column(rows: Seq<DiffRowV>) -> Seq<(Seq<char>, usize)> {
    filter_map(rows, |r: DiffRowV| right_entry(r))
}

/// Whether a diff line is a context line (neither hunk header, file header,
/// `\` marker, removal nor addition).
pub open spec fn is_context_line(line: Seq<char>) -> bool {
    !starts_with(line, "@@"@) && !is_header(line) && !(line.len() > 0 && (line[0] == '\\'
        || line[0] == '-' || line[0] == '+'))
}

pub open spec fn is_removed_line(line: Seq<char>) -> bool {
    !starts_with(line, "@@"@) && !is_header(line) && line.len() > 0 && line[0] == '-'
}

pub open spec fn is_added_line(line: Seq<char>) -> bool {
    !starts_with(line, "@@"@) && !is_header(line) && line.len() > 0 && line[0] == '+'
}

pub open spec fn context_text(line: Seq<char>) -> Seq<char> {
    if line.len() > 0 && line[0] == ' ' {
        line.drop_first()
    } else {
        line
    }
}

/// The old side of a diff as it is read: its context and removed lines,
/// each with the old line number current when it was read.
pub open spec fn old_side(lines: Seq<Seq<char>>) -> Seq<(Seq<char>, usize)>
    decreases lines.len(),
{
    if lines.len() == 0 {
        Seq::empty()
    } else {
        let prev = old_side(lines.drop_last());
        let st = diff_fold(lines.drop_last());
        let line = lines.last();
        if is_removed_line(line) {
            prev.push((line.drop_first(), st.left))
        } else if is_context_line(line) {
            prev.push((context_text(line), st.left))
        } else {
            prev
        }
    }
}

/// The new side of a diff as it is read: its context and added lines, each
/// with the new line number current when it was read.
pub open spec fn new_side(lines: Seq<Seq<char>>) -> Seq<(Seq<char>, usize)>
    decreases lines.len(),
{
    if lines.len() == 0 {
        Seq::empty()
    } else {
        let prev = new_side(lines.drop_last());
        let st = diff_fold(lines.drop_last());
        let line = lines.last();
        if is_added_line(line) {
            prev.push((line.drop_first(), st.right))
        } else if is_context_line(line) {
            prev.push((context_text(line), st.right))
        } else {
            prev
        }
    }
}

#[verifier::spinoff_prover]
proof fn lemma_flush_columns(rm: Seq<(Seq<char>, usize)>, ad: Seq<(Seq<char>, usize)>, k: nat)
    requires
        k <= max_len(rm.len(), ad.len()),
    ensures
        ({
            let st = flush_fold(rm, ad, k);
            &&& left_column(st.out + st.pend_rem) == rm.take(if k <= rm.len() {
                k as int
            } else {
                rm.len() as int
            })
            &&& left_column(st.pend_add) == Seq::<(Seq<char>, usize)>::empty()
            &&& right_column(st.out + st.pend_add) == ad.take(if k <= ad.len() {
                k as int
            } else {
                ad.len() as int
            })
            &&& right_column(st.pend_rem) == Seq::<(Seq<char>, usize)>::empty()
        }),
    decreases k,
{
    let lf = |r: DiffRowV| left_entry(r);
    let rf = |r: DiffRowV| right_entry(r);
    if k == 0 {
        assert(rm.take(0) =~= Seq::<(Seq<char>, usize)>::empty());
        assert(ad.take(0) =~= Seq::<(Seq<char>, usize)>::empty());
        let e = Seq::<DiffRowV>::empty();
        assert(e + e =~= e);
    } else {
        lemma_flush_columns(rm, ad, (k - 1) as nat);
        let st = flush_fold(rm, ad, (k - 1) as nat);
        let i = k - 1;
        lemma_filter_map_concat(st.out, st.pend_rem, lf);
        lemma_filter_map_concat(st.out, st.pend_add, rf);
        if i < rm.len() && i < ad.len() && similar(rm[i].0, ad[i].0) {
            let m = modified_row(rm[i], ad[i]);
            let e = Seq::<DiffRowV>::empty();
            lemma_filter_map_concat(st.out + st.pend_rem, st.pend_add, lf);
            lemma_filter_map_concat(st.out + st.pend_rem + st.pend_add, seq![m], lf);
            lemma_filter_map_concat(st.out + st.pend_rem + st.pend_add, e, lf);
            lemma_filter_map_concat(st.out + st.pend_add, st.pend_rem, rf);
            lemma_filter_map_concat(st.out, st.pend_add + st.pend_rem, rf);
            lemma_filter_map_concat(st.pend_add, st.pend_rem, rf);
            lemma_filter_map_concat(st.out, st.pend_rem, rf);
            lemma_filter_map_concat(st.out + st.pend_rem + st.pend_add, seq![m], rf);
            lemma_filter_map_concat(st.out + st.pend_rem + st.pend_add, e, rf);
            assert(st.out + st.pend_rem + st.pend_add == st.out + (st.pend_rem + st.pend_add));
            lemma_filter_map_concat(st.out, st.pend_rem + st.pend_add, rf);
            lemma_filter_map_concat(st.pend_rem, st.pend_add, rf);
            assert(seq![m].drop_last() =~= e);
            assert(filter_map(seq![m], lf) == seq![rm[i]]);
            assert(filter_map(seq![m], rf) == seq![ad[i]]);
            assert(rm.take(k as int) =~= rm.take(i).push(rm[i]));
            assert(ad.take(k as int) =~= ad.take(i).push(ad[i]));
            let nst = flush_fold(rm, ad, k);
            assert(nst.out + nst.pend_rem =~= nst.out);
            assert(nst.out + nst.pend_add =~= nst.out);
        } else {
            let nst = flush_fold(rm, ad, k);
            if i < rm.len() {
                let x = removed_row(rm[i]);
                lemma_filter_map_concat(st.out, st.pend_rem.push(x), lf);
                assert(st.pend_rem.push(x).drop_last() =~= st.pend_rem);
                assert(rm.take(k as int) =~= rm.take(i).push(rm[i]));
                assert(st.pend_rem.push(x) == st.pend_rem + seq![x]);
                lemma_filter_map_concat(st.pend_rem, seq![x], rf);
                assert(seq![x].drop_last() =~= Seq::<DiffRowV>::empty());
            }
            if i < ad.len() {
                let y = added_row(ad[i]);
                lemma_filter_map_concat(st.out, st.pend_add.push(y), rf);
                assert(st.pend_add.push(y).drop_last() =~= st.pend_add);
                assert(ad.take(k as int) =~= ad.take(i).push(ad[i]));
                assert(st.pend_add.push(y) == st.pend_add + seq![y]);
                lemma_filter_map_concat(st.pend_add, seq![y], lf);
                assert(seq![y].drop_last() =~= Seq::<DiffRowV>::empty());
            }
            lemma_filter_map_concat(nst.out, nst.pend_rem, lf);
            lemma_filter_map_concat(nst.out, nst.pend_add, rf);
        }
    }
}

/// The left column of a block's rows is its removed lines, in order; the
/// right column is its added lines, in order.
pub proof fn lemma_flush_rows_columns(rm: Seq<(Seq<char>, usize)>, ad: Seq<(Seq<char>, usize)>)
    ensures
        left_column(flush_rows(rm, ad)) == rm,
        right_column(flush_rows(rm, ad)) == ad,
{
    let k = max_len(rm.len(), ad.len());
    lemma_flush_columns(rm, ad, k);
    let st = flush_fold(rm, ad, k);
    lemma_filter_map_concat(st.out + st.pend_rem, st.pend_add, |r: DiffRowV| left_entry(r));
    lemma_filter_map_concat(st.out, st.pend_rem, |r: DiffRowV| right_entry(r));
    lemma_filter_map_concat(st.out, st.pend_add, |r: DiffRowV| right_entry(r));
    lemma_filter_map_concat(st.out, st.pend_rem + st.pend_add, |r: DiffRowV| right_entry(r));
    lemma_filter_map_concat(st.pend_rem, st.pend_add, |r: DiffRowV| right_entry(r));
    assert(st.out + st.pend_rem + st.pend_add == st.out + (st.pend_rem + st.pend_add));
    assert(rm.take(rm.len() as int) =~= rm);
    assert(ad.take(ad.len() as int) =~= ad);
}


proof fn lemma_fold_columns(lines: Seq<Seq<char>>)
    ensures
        left_column(diff_fold(lines).rows) + diff_fold(lines).removed == old_side(lines),
        right_column(diff_fold(lines).rows) + diff_fold(lines).added == new_side(lines),
    decreases lines.len(),
{
    let lf = |r: DiffRowV| left_entry(r);
    let rf = |r: DiffRowV| right_entry(r);
    if lines.len() == 0 {
        assert(left_column(Seq::<DiffRowV>::empty()) =~= Seq::<(Seq<char>, usize)>::empty());
        assert(right_column(Seq::<DiffRowV>::empty()) =~= Seq::<(Seq<char>, usize)>::empty());
        assert(Seq::<(Seq<char>, usize)>::empty() + Seq::<(Seq<char>, usize)>::empty()
            =~= Seq::<(Seq<char>, usize)>::empty());
    } else {
        let prefix = lines.drop_last();
        let line = lines.last();
        lemma_fold_columns(prefix);
        let st = diff_fold(prefix);
        let fl = flush_rows(st.removed, st.added);
        lemma_flush_rows_columns(st.removed, st.added);
        lemma_filter_map_concat(st.rows, fl, lf);
        lemma_filter_map_concat(st.rows, fl, rf);
        let e = Seq::<(Seq<char>, usize)>::empty();
        if starts_with(line, "@@"@) || is_header(line) {
            assert(left_column(st.rows + fl) + e =~= left_column(st.rows) + st.removed);
            assert(right_column(st.rows + fl) + e =~= right_column(st.rows) + st.added);
        } else if line.len() > 0 && line[0] == '\\' {
        } else if line.len() > 0 && line[0] == '-' {
            assert(is_removed_line(line));
            assert(left_column(st.rows) + st.removed.push((line.drop_first(), st.left))
                =~= (left_column(st.rows) + st.removed).push((line.drop_first(), st.left)));
        } else if line.len() > 0 && line[0] == '+' {
            assert(is_added_line(line));
            assert(right_column(st.rows) + st.added.push((line.drop_first(), st.right))
                =~= (right_column(st.rows) + st.added).push((line.drop_first(), st.right)));
        } else {
            assert(is_context_line(line));
            let c = context_row(context_text(line), st.left, st.right);
            let rows2 = (st.rows + fl).push(c);
            assert(rows2.drop_last() =~= st.rows + fl);
            assert(left_column(rows2) + e =~= (left_column(st.rows) + st.removed).push(
                (context_text(line), st.left),
            ));
            assert(right_column(rows2) + e =~= (right_column(st.rows) + st.added).push(
                (context_text(line), st.right),
            ));
        }
    }
}

/// The left column of the split view lists the diff's context and removed
/// lines, and the right column its context and added lines, each in the
/// order the diff gives them and numbered as the hunk headers count; the
/// `\ No newline` markers and the header lines are in neither.
pub proof fn lemma_unified_diff_columns(text: Seq<char>)
    ensures
        left_column(unified_diff_rows(text)) == old_side(lines_seq(text)),
        right_column(unified_diff_rows(text)) == new_side(lines_seq(text)),
{
    let lines = lines_seq(text);
    lemma_fold_columns(lines);
    let st = diff_fold(lines);
    lemma_flush_rows_columns(st.removed, st.added);
    lemma_filter_map_concat(st.rows, flush_rows(st.removed, st.added), |r: DiffRowV| left_entry(r));
    lemma_filter_map_concat(st.rows, flush_rows(st.removed, st.added), |r: DiffRowV| right_entry(r));
}

// ---------------------------------------------------------------------------
// One file's diff

/// Row limit of a file diff (a full-file diff allows more).
pub const MAX_DIFF_LINES_PUB: usize = 2000;

/// The split-view diff of one file.
#[derive(Clone, Debug, PartialEq, Eq)]
pub struct FileDiff {
    pub path: String,
    pub is_binary: bool,
    pub truncated: bool,
    pub rows: Vec<DiffRow>,
}

/// Whether git reported the file as binary: some line starts with
/// `Binary files` (content lines start with `+`, `-` or a space).
pub open spec fn is_binary_diff(raw: Seq<char>) -> bool {
    exists|i: int| 0 <= i < lines_seq(raw).len() && starts_with(#[trigger] lines_seq(raw)[i], "Binary files"@)
}

/// The most rows shown: 5000 for a full-file diff, else 2000.
pub open spec fn row_limit(full: bool) -> nat {
    if full {
        5000
    } else {
        2000
    }
}

/// The diff options: no color, `-w` to ignore whitespace, and the whole file
/// as context for a full diff.
pub open spec fn file_diff_options(ignore_whitespace: bool, full: bool) -> Seq<Seq<char>> {
    seq!["--color=never"@] + (if ignore_whitespace {
        seq!["-w"@]
    } else {
        Seq::empty()
    }) + (if full {
        seq!["--unified=999999"@]
    } else {
        Seq::empty()
    })
}

/// The `git diff` command for one file; refs starting with `-` are refused.
pub fn get_file_diff_args(
    base: Option<&str>,
    target: &str,
    file_path: &str,
    ignore_whitespace: bool,
    full: bool,
    three_dot: bool,
) -> (r: Result<Vec<String>, String>)
    ensures
        refs_unsafe(opt_view(base), target@) ==> (r matches Err(e) && e@ == refs_error(
            opt_view(base),
            target@,
        )),
        !refs_unsafe(opt_view(base), target@) ==> (r matches Ok(args) && strings_view(args@)
            == diff_args_spec(
            compare_range(opt_view(base), target@, three_dot),
            file_diff_options(ignore_whitespace, full),
            seq![file_path@],
        )),
{
    match check_refs(base, target) {
        Err(e) => return Err(e),
        Ok(()) => {},
    }
    let mut extra: Vec<String> = Vec::new();
    extra.push(lit("--color=never"));
    if ignore_whitespace {
        extra.push(lit("-w"));
    }
    if full {
        extra.push(lit("--unified=999999"));
    }
    assert(strings_view(extra@) =~= file_diff_options(ignore_whitespace, full));
    let range = compare_range_exec(base, target, three_dot);
    let mut paths: Vec<String> = Vec::new();
    paths.push(lit(file_path));
    assert(strings_view(paths@) =~= seq![file_path@]);
    Ok(build_diff_args(&range, &extra, &paths))
}

fn any_binary_line(lines: &Vec<Vec<char>>) -> (r: bool)
    ensures
        r == exists|i: int| 0 <= i < lines@.len() && starts_with(#[trigger] vviews(lines@)[i], "Binary files"@),
{
    let marker = chars_of("Binary files");
    let mut i: usize = 0;
    while i < lines.len()
        invariant
            i <= lines.len(),
            marker@ == "Binary files"@,
            forall|j: int| 0 <= j < i ==> !starts_with(#[trigger] vviews(lines@)[j], "Binary files"@),
        decreases lines.len() - i,
    {
        assert(vviews(lines@)[i as int] == lines@[i as int]@);
        if starts_with_exec(&lines[i], &marker) {
            return true;
        }
        i = i + 1;
    }
    false
}

/// The split-view diff of one file, from the result of the command of
/// `get_file_diff_args` (a failed command is passed on): binary files have
/// no rows; otherwise the rows of the diff, cut to the row limit.
pub fn get_file_diff(file_path: &str, full: bool, raw: Result<String, String>) -> (r: Result<FileDiff, String>)
    ensures
        raw matches Err(e) ==> r == Err::<FileDiff, String>(e),
        raw matches Ok(o) ==> (r matches Ok(fd) && fd.path@ == file_path@ && fd.is_binary == is_binary_diff(o@)
            && (fd.is_binary ==> !fd.truncated && fd.rows@.len() == 0)
            && (!fd.is_binary ==> {
                &&& fd.truncated == (unified_diff_rows(o@).len() > row_limit(full))
                &&& rows_view(fd.rows@) == (if fd.truncated {
                    unified_diff_rows(o@).take(row_limit(full) as int)
                } else {
                    unified_diff_rows(o@)
                })
            })),
{
    let o = match raw {
        Err(e) => return Err(e),
        Ok(o) => o,
    };
    let lines = lines_str(o.as_str());
    if any_binary_line(&lines) {
        return Ok(FileDiff { path: lit(file_path), is_binary: true, truncated: false, rows: Vec::new() });
    }
    let mut rows = parse_unified_diff(o.as_str());
    let limit: usize = if full { 5000 } else { MAX_DIFF_LINES_PUB };
    let truncated = rows.len() > limit;
    if truncated {
        let ghost before = rows@;
        rows.truncate(limit);
        assert(rows_view(rows@) =~= rows_view(before).take(limit as int));
    }
    Ok(FileDiff { path: lit(file_path), is_binary: false, truncated, rows })
}


// ---------------------------------------------------------------------------
// Status colours

/// The theme colour a changed file's status letter is drawn in.
#[derive(Clone, Copy, Debug, PartialEq, Eq, Structural)]
pub enum StatusTone {
    Success,
    Error,
    Warning,
    Accent,
}

/// The colour of a status: added files in the success colour, deleted ones
/// in the error colour, renamed ones in the warning colour, the rest in the
/// accent colour.
pub fn status_color(s: &str) -> (r: StatusTone)
    ensures
        r == (if s@ == "A"@ {
            StatusTone::Success
        } else if s@ == "D"@ {
            StatusTone::Error
        } else if s@ == "R"@ {
            StatusTone::Warning
        } else {
            StatusTone::Accent
        }),
{
    if crate::text::str_eq(s, "A") {
        StatusTone::Success
    } else if crate::text::str_eq(s, "D") {
        StatusTone::Error
    } else if crate::text::str_eq(s, "R") {
        StatusTone::Warning
    } else {
        StatusTone::Accent
    }
}


// ---------------------------------------------------------------------------
// Moving through a diff

/// Whether row `i` begins a hunk: a changed row that comes first or after
/// an unchanged one.
pub open spec fn starts_hunk(rows: Seq<DiffRowV>, i: int) -> bool {
    rows[i].kind != DiffRowKind::Context && (i == 0 || rows[i - 1].kind == DiffRowKind::Context)
}

/// The rows among the first `n` that begin a hunk, in order.
pub open spec fn hunk_starts_upto(rows: Seq<DiffRowV>, n: nat) -> Seq<usize>
    decreases n,
{
    if n == 0 {
        Seq::empty()
    } else {
        let prev = hunk_starts_upto(rows, (n - 1) as nat);
        if starts_hunk(rows, n - 1) {
            prev.push((n - 1) as usize)
        } else {
            prev
        }
    }
}

/// The rows of a file diff that begin a hunk, in order.
pub fn hunk_start_rows(rows: &Vec<DiffRow>) -> (r: Vec<usize>)
    ensures
        r@ == hunk_starts_upto(rows_view(rows@), rows@.len()),
{
    let ghost rv = rows_view(rows@);
    let mut r: Vec<usize> = Vec::new();
    let mut i: usize = 0;
    while i < rows.len()
        invariant
            i <= rows@.len(),
            rv == rows_view(rows@),
            r@ == hunk_starts_upto(rv, i as nat),
        decreases rows.len() - i,
    {
        assert(rv[i as int].kind == rows@[i as int].kind);
        if i > 0 {
            assert(rv[i - 1].kind == rows@[i - 1].kind);
        }
        if rows[i].kind != DiffRowKind::Context && (i == 0 || rows[i - 1].kind == DiffRowKind::Context) {
            r.push(i);
        }
        i = i + 1;
    }
    r
}

/// The first of `s`, from position `k` on, above `cur`.
pub open spec fn first_above(s: Seq<usize>, cur: nat, k: int) -> Option<usize>
    decreases s.len() - k,
{
    if k < 0 || k >= s.len() {
        None
    } else if s[k] > cur {
        Some(s[k])
    } else {
        first_above(s, cur, k + 1)
    }
}

/// The last of the first `k` of `s` below `cur`.
pub open spec fn last_below(s: Seq<usize>, cur: nat, k: int) -> Option<usize>
    decreases k,
{
    if k <= 0 || k > s.len() {
        None
    } else if s[k - 1] < cur {
        Some(s[k - 1])
    } else {
        last_below(s, cur, k - 1)
    }
}

/// Where a jump from row `cur` to the next (or previous) hunk lands: the
/// first hunk start after it, round to the first; or the last before it,
/// round to the last.
pub open spec fn hunk_target(starts: Seq<usize>, cur: nat, forward: bool) -> usize {
    if forward {
        match first_above(starts, cur, 0) {
            Some(h) => h,
            None => starts[0],
        }
    } else {
        match last_below(starts, cur, starts.len() as int) {
            Some(h) => h,
            None => starts.last(),
        }
    }
}

/// `hunk_target`; a jump needs at least one hunk.
pub fn hunk_jump(starts: &Vec<usize>, cur: usize, forward: bool) -> (r: usize)
    requires
        starts@.len() > 0,
    ensures
        r == hunk_target(starts@, cur as nat, forward),
{
    if forward {
        let mut k: usize = 0;
        while k < starts.len()
            invariant
                forward,
                k <= starts@.len(),
                first_above(starts@, cur as nat, 0) == first_above(starts@, cur as nat, k as int),
            decreases starts.len() - k,
        {
            if starts[k] > cur {
                return starts[k];
            }
            k = k + 1;
        }
        starts[0]
    } else {
        let mut k: usize = starts.len();
        while k > 0
            invariant
                !forward,
                k <= starts@.len(),
                last_below(starts@, cur as nat, starts@.len() as int) == last_below(starts@, cur as nat, k as int),
            decreases k,
        {
            if starts[k - 1] < cur {
                return starts[k - 1];
            }
            k = k - 1;
        }
        starts[starts.len() - 1]
    }
}

/// The position of the first changed file, from position `k` on, at `path`.
pub open spec fn path_position(files: Seq<crate::git::ChangedFileV>, path: Seq<char>, k: int) -> Option<usize>
    decreases files.len() - k,
{
    if k < 0 || k >= files.len() {
        None
    } else if files[k].path == path {
        Some(k as usize)
    } else {
        path_position(files, path, k + 1)
    }
}

fn path_position_exec(files: &Vec<crate::git::ChangedFile>, path: &str) -> (r: Option<usize>)
    ensures
        r == path_position(crate::git::changed_view(files@), path@, 0),
{
    let ghost fv = crate::git::changed_view(files@);
    let mut k: usize = 0;
    while k < files.len()
        invariant
            k <= files@.len(),
            fv == crate::git::changed_view(files@),
            path_position(fv, path@, 0) == path_position(fv, path@, k as int),
        decreases files.len() - k,
    {
        assert(fv[k as int].path == files@[k as int].path@);
        if crate::text::str_eq(files[k].path.as_str(), path) {
            return Some(k);
        }
        k = k + 1;
    }
    None
}

/// The changed file `[` or `]` opens: the one before or after the file
/// shown, wrapping round; the first when no listed file is shown.
pub open spec fn adjacent_file_spec(files: Seq<crate::git::ChangedFileV>, shown: Option<Seq<char>>, forward: bool) -> nat {
    let cur = match shown {
        Some(p) => path_position(files, p, 0),
        None => None,
    };
    match cur {
        Some(i) => if forward {
            ((i + 1) % (files.len() as int)) as nat
        } else if i == 0 {
            (files.len() - 1) as nat
        } else {
            (i - 1) as nat
        },
        None => 0,
    }
}

/// `adjacent_file_spec`; there is at least one changed file.
pub fn adjacent_file(files: &Vec<crate::git::ChangedFile>, shown: &Option<String>, forward: bool) -> (r: usize)
    requires
        files@.len() > 0,
    ensures
        r == adjacent_file_spec(crate::git::changed_view(files@), opt_str_view(*shown), forward),
        r < files@.len(),
{
    let n = files.len();
    let cur = match shown {
        Some(p) => path_position_exec(files, p.as_str()),
        None => None,
    };
    proof {
        assert(crate::git::changed_view(files@).len() == n);
        if let Some(i) = cur {
            lemma_path_position_bound(crate::git::changed_view(files@), opt_str_view(*shown)->0, 0);
        }
    }
    match cur {
        Some(i) => if forward {
            (i + 1) % n
        } else if i == 0 {
            n - 1
        } else {
            i - 1
        },
        None => 0,
    }
}

proof fn lemma_path_position_bound(files: Seq<crate::git::ChangedFileV>, path: Seq<char>, k: int)
    requires
        0 <= k,
        files.len() <= usize::MAX,
    ensures
        path_position(files, path, k) matches Some(i) ==> k <= i < files.len(),
    decreases files.len() - k,
{
    if 0 <= k < files.len() && files[k].path != path {
        lemma_path_position_bound(files, path, k + 1);
    }
}

/// Where the file shown stands in the list of changed files, as `n/m`
/// (from one); none when it is not listed.
pub open spec fn file_position_line(files: Seq<crate::git::ChangedFileV>, path: Seq<char>) -> Option<Seq<char>> {
    match path_position(files, path, 0) {
        Some(i) => Some(crate::text::decimal((i + 1) as nat) + "/"@ + crate::text::decimal(files.len())),
        None => None,
    }
}

/// `file_position_line`.
pub fn file_position_text(files: &Vec<crate::git::ChangedFile>, path: &str) -> (r: Option<String>)
    ensures
        match file_position_line(crate::git::changed_view(files@), path@) {
            Some(m) => r matches Some(s) && s@ == m,
            None => r is None,
        },
{
    let n = files.len();
    match path_position_exec(files, path) {
        Some(i) => {
            proof {
                assert(crate::git::changed_view(files@).len() == n);
                lemma_path_position_bound(crate::git::changed_view(files@), path@, 0);
            }
            let a = crate::text::decimal_chars((i + 1) as u64);
            let b = crate::text::decimal_chars(files.len() as u64);
            Some(string_of(&crate::text::concat(&crate::text::concat(&a, &chars_of("/")), &b)))
        },
        None => None,
    }
}


// ---------------------------------------------------------------------------
// The shape of every row

/// Whether a row is well formed: each side has a number exactly when it
/// has a text; an unchanged row has the same text on both sides, a modified
/// row similar texts on both, an added row only a right side and a removed
/// row only a left side.
pub open spec fn row_shaped(r: DiffRowV) -> bool {
    &&& (r.left_no is Some) == (r.left_text is Some)
    &&& (r.right_no is Some) == (r.right_text is Some)
    &&& match r.kind {
        DiffRowKind::Context => r.left_text is Some && r.left_text == r.right_text,
        DiffRowKind::Modified => r.left_text is Some && r.right_text is Some && similar(
            r.left_text->0,
            r.right_text->0,
        ),
        DiffRowKind::Added => r.left_text is None && r.right_text is Some,
        DiffRowKind::Removed => r.left_text is Some && r.right_text is None,
    }
}

pub open spec fn rows_shaped(s: Seq<DiffRowV>) -> bool {
    forall|i: int| 0 <= i < s.len() ==> row_shaped(#[trigger] s[i])
}

proof fn lemma_rows_shaped_concat(a: Seq<DiffRowV>, b: Seq<DiffRowV>)
    requires
        rows_shaped(a),
        rows_shaped(b),
    ensures
        rows_shaped(a + b),
{
    assert forall|i: int| 0 <= i < (a + b).len() implies row_shaped(#[trigger] (a + b)[i]) by {
        if i < a.len() {
            assert((a + b)[i] == a[i]);
        } else {
            assert((a + b)[i] == b[i - a.len()]);
        }
    }
}

proof fn lemma_flush_fold_shaped(rm: Seq<(Seq<char>, usize)>, ad: Seq<(Seq<char>, usize)>, k: nat)
    ensures
        rows_shaped(flush_fold(rm, ad, k).out),
        rows_shaped(flush_fold(rm, ad, k).pend_rem),
        rows_shaped(flush_fold(rm, ad, k).pend_add),
    decreases k,
{
    if k > 0 {
        lemma_flush_fold_shaped(rm, ad, (k - 1) as nat);
        let st = flush_fold(rm, ad, (k - 1) as nat);
        let i = k - 1;
        if i < rm.len() && i < ad.len() && similar(rm[i].0, ad[i].0) {
            lemma_rows_shaped_concat(st.out, st.pend_rem);
            lemma_rows_shaped_concat(st.out + st.pend_rem, st.pend_add);
            let m = seq![modified_row(rm[i], ad[i])];
            assert(rows_shaped(m)) by {
                assert(m[0] == modified_row(rm[i], ad[i]));
            }
            lemma_rows_shaped_concat(st.out + st.pend_rem + st.pend_add, m);
        } else {
            if i < rm.len() {
                let p = st.pend_rem.push(removed_row(rm[i]));
                assert forall|j: int| 0 <= j < p.len() implies row_shaped(#[trigger] p[j]) by {
                    if j < st.pend_rem.len() {
                        assert(p[j] == st.pend_rem[j]);
                    }
                }
            }
            if i < ad.len() {
                let p = st.pend_add.push(added_row(ad[i]));
                assert forall|j: int| 0 <= j < p.len() implies row_shaped(#[trigger] p[j]) by {
                    if j < st.pend_add.len() {
                        assert(p[j] == st.pend_add[j]);
                    }
                }
            }
        }
    }
}

proof fn lemma_flush_rows_shaped(rm: Seq<(Seq<char>, usize)>, ad: Seq<(Seq<char>, usize)>)
    ensures
        rows_shaped(flush_rows(rm, ad)),
{
    let st = flush_fold(rm, ad, max_len(rm.len(), ad.len()));
    lemma_flush_fold_shaped(rm, ad, max_len(rm.len(), ad.len()));
    lemma_rows_shaped_concat(st.out, st.pend_rem);
    lemma_rows_shaped_concat(st.out + st.pend_rem, st.pend_add);
}

proof fn lemma_diff_fold_shaped(lines: Seq<Seq<char>>)
    ensures
        rows_shaped(diff_fold(lines).rows),
    decreases lines.len(),
{
    if lines.len() > 0 {
        lemma_diff_fold_shaped(lines.drop_last());
        let st = diff_fold(lines.drop_last());
        lemma_flush_rows_shaped(st.removed, st.added);
        lemma_rows_shaped_concat(st.rows, flush_rows(st.removed, st.added));
        let line = lines.last();
        let text = if line.len() > 0 && line[0] == ' ' {
            line.drop_first()
        } else {
            line
        };
        let base = st.rows + flush_rows(st.removed, st.added);
        let p = base.push(context_row(text, st.left, st.right));
        assert forall|j: int| 0 <= j < p.len() implies row_shaped(#[trigger] p[j]) by {
            if j < base.len() {
                assert(p[j] == base[j]);
            }
        }
    }
}

/// Every row of a parsed diff is well formed (see `row_shaped`): in
/// particular, the two sides of every modified row are similar lines.
pub proof fn lemma_unified_diff_rows_shaped(text: Seq<char>)
    ensures
        rows_shaped(unified_diff_rows(text)),
{
    let st = diff_fold(lines_seq(text));
    lemma_diff_fold_shaped(lines_seq(text));
    lemma_flush_rows_shaped(st.removed, st.added);
    lemma_rows_shaped_concat(st.rows, flush_rows(st.removed, st.added));
}


// ---------------------------------------------------------------------------
// The columns line by line

/// A line of the diff's content: not a hunk header, a file header or a
/// `\` marker.
pub open spec fn content_line(line: Seq<char>) -> bool {
    !starts_with(line, "@@"@) && !is_header(line) && !(line.len() > 0 && line[0] == '\\')
}

/// A content line without its leading `-`, `+` or space.
pub open spec fn strip_marker(line: Seq<char>) -> Seq<char> {
    if line.len() > 0 && (line[0] == '-' || line[0] == '+' || line[0] == ' ') {
        line.drop_first()
    } else {
        line
    }
}

/// The stripped content lines that do not start with `c`, in order.
pub open spec fn content_without(lines: Seq<Seq<char>>, c: char) -> Seq<Seq<char>> {
    filter_map(lines, |l: Seq<char>| if content_line(l) && !(l.len() > 0 && l[0] == c) {
        Some(strip_marker(l))
    } else {
        None
    })
}

pub open spec fn texts_of(s: Seq<(Seq<char>, usize)>) -> Seq<Seq<char>> {
    s.map_values(|e: (Seq<char>, usize)| e.0)
}

/// The texts of the old side are the content lines that are not additions,
/// and those of the new side the content lines that are not removals, each
/// without its marker and in the order of the diff.
pub proof fn lemma_side_texts(lines: Seq<Seq<char>>)
    ensures
        texts_of(old_side(lines)) == content_without(lines, '+'),
        texts_of(new_side(lines)) == content_without(lines, '-'),
    decreases lines.len(),
{
    if lines.len() > 0 {
        let init = lines.drop_last();
        lemma_side_texts(init);
        assert(texts_of(old_side(init)) == content_without(init, '+'));
        assert(texts_of(new_side(init)) == content_without(init, '-'));
        let l = lines.last();
        if is_removed_line(l) || is_context_line(l) {
            assert(texts_of(old_side(lines)) =~= texts_of(old_side(init)).push(strip_marker(l)));
        } else {
            assert(texts_of(old_side(lines)) =~= texts_of(old_side(init)));
        }
        if is_added_line(l) || is_context_line(l) {
            assert(texts_of(new_side(lines)) =~= texts_of(new_side(init)).push(strip_marker(l)));
        } else {
            assert(texts_of(new_side(lines)) =~= texts_of(new_side(init)));
        }
    }
}

/// A line that the old side lists.
pub open spec fn on_old_side(line: Seq<char>) -> bool {
    is_removed_line(line) || is_context_line(line)
}

/// A line that the new side lists.
pub open spec fn on_new_side(line: Seq<char>) -> bool {
    is_added_line(line) || is_context_line(line)
}

proof fn lemma_fold_push(s: Seq<Seq<char>>, x: Seq<char>)
    ensures
        diff_fold(s.push(x)) == diff_step(diff_fold(s), x),
        old_side(s.push(x)) == (if on_old_side(x) {
            old_side(s).push((if is_removed_line(x) { x.drop_first() } else { context_text(x) }, diff_fold(s).left))
        } else {
            old_side(s)
        }),
        new_side(s.push(x)) == (if on_new_side(x) {
            new_side(s).push((if is_added_line(x) { x.drop_first() } else { context_text(x) }, diff_fold(s).right))
        } else {
            new_side(s)
        }),
{
    assert(s.push(x).drop_last() =~= s);
}

proof fn lemma_fold_keeps_numbers(s: Seq<Seq<char>>, t: Seq<Seq<char>>, left: bool)
    requires
        forall|i: int| 0 <= i < t.len() ==> !starts_with(#[trigger] t[i], "@@"@),
        forall|i: int| 0 <= i < t.len() ==> if left { !on_old_side(#[trigger] t[i]) } else { !on_new_side(#[trigger] t[i]) },
    ensures
        left ==> diff_fold(s + t).left == diff_fold(s).left,
        !left ==> diff_fold(s + t).right == diff_fold(s).right,
    decreases t.len(),
{
    if t.len() == 0 {
        assert(s + t =~= s);
    } else {
        let u = t.drop_last();
        assert forall|i: int| 0 <= i < u.len() implies !starts_with(#[trigger] u[i], "@@"@) by {
            assert(u[i] == t[i]);
        }
        assert forall|i: int| 0 <= i < u.len() implies if left { !on_old_side(#[trigger] u[i]) } else { !on_new_side(#[trigger] u[i]) } by {
            assert(u[i] == t[i]);
        }
        lemma_fold_keeps_numbers(s, u, left);
        assert(s + t =~= (s + u).push(t.last()));
        lemma_fold_push(s + u, t.last());
        assert(!starts_with(t[t.len() - 1], "@@"@));
        assert(if left { !on_old_side(t[t.len() - 1]) } else { !on_new_side(t[t.len() - 1]) });
    }
}

/// Within a hunk the old line numbers count up by one: an old-side line
/// that follows another with only additions, headers or `\` markers
/// between them has the next number.
pub proof fn lemma_old_numbers_step(pre: Seq<Seq<char>>, l1: Seq<char>, mid: Seq<Seq<char>>, l2: Seq<char>)
    requires
        on_old_side(l1),
        on_old_side(l2),
        forall|i: int| 0 <= i < mid.len() ==> !starts_with(#[trigger] mid[i], "@@"@) && !on_old_side(mid[i]),
    ensures
        old_side(pre.push(l1) + mid.push(l2)).last().1 == next_no(old_side(pre.push(l1)).last().1),
{
    let a = pre.push(l1);
    lemma_fold_push(pre, l1);
    lemma_fold_keeps_numbers(a, mid, true);
    assert(a + mid.push(l2) =~= (a + mid).push(l2));
    lemma_fold_push(a + mid, l2);
}

/// Within a hunk the new line numbers count up by one: a new-side line
/// that follows another with only removals, headers or `\` markers between
/// them has the next number.
pub proof fn lemma_new_numbers_step(pre: Seq<Seq<char>>, l1: Seq<char>, mid: Seq<Seq<char>>, l2: Seq<char>)
    requires
        on_new_side(l1),
        on_new_side(l2),
        forall|i: int| 0 <= i < mid.len() ==> !starts_with(#[trigger] mid[i], "@@"@) && !on_new_side(mid[i]),
    ensures
        new_side(pre.push(l1) + mid.push(l2)).last().1 == next_no(new_side(pre.push(l1)).last().1),
{
    let a = pre.push(l1);
    lemma_fold_push(pre, l1);
    lemma_fold_keeps_numbers(a, mid, false);
    assert(a + mid.push(l2) =~= (a + mid).push(l2));
    lemma_fold_push(a + mid, l2);
}

/// The first line of each side after a readable hunk header is numbered
/// from the header: the old side from its `-a`, the new side from its `+c`.
pub proof fn lemma_numbers_after_header(pre: Seq<Seq<char>>, h: Seq<char>, mid: Seq<Seq<char>>, l2: Seq<char>)
    requires
        starts_with(h, "@@"@),
        hunk_starts(h) is Some,
        forall|i: int| 0 <= i < mid.len() ==> !starts_with(#[trigger] mid[i], "@@"@),
    ensures
        on_old_side(l2) && (forall|i: int| 0 <= i < mid.len() ==> !on_old_side(#[trigger] mid[i]))
            ==> old_side(pre.push(h) + mid.push(l2)).last().1 == hunk_starts(h).unwrap().0,
        on_new_side(l2) && (forall|i: int| 0 <= i < mid.len() ==> !on_new_side(#[trigger] mid[i]))
            ==> new_side(pre.push(h) + mid.push(l2)).last().1 == hunk_starts(h).unwrap().1,
{
    let a = pre.push(h);
    lemma_fold_push(pre, h);
    assert(a + mid.push(l2) =~= (a + mid).push(l2));
    lemma_fold_push(a + mid, l2);
    if on_old_side(l2) && (forall|i: int| 0 <= i < mid.len() ==> !on_old_side(#[trigger] mid[i])) {
        lemma_fold_keeps_numbers(a, mid, true);
    }
    if on_new_side(l2) && (forall|i: int| 0 <= i < mid.len() ==> !on_new_side(#[trigger] mid[i])) {
        lemma_fold_keeps_numbers(a, mid, false);
    }
}


/// A block of one removed and one added line gives one modified row when
/// the two lines are similar, and otherwise the removal followed by the
/// addition.
pub proof fn lemma_single_pair_block(x: (Seq<char>, usize), y: (Seq<char>, usize))
    ensures
        flush_rows(seq![x], seq![y]) == (if similar(x.0, y.0) {
            seq![modified_row(x, y)]
        } else {
            seq![removed_row(x), added_row(y)]
        }),
{
    let st0 = flush_fold(seq![x], seq![y], 0);
    assert(st0.out.len() == 0 && st0.pend_rem.len() == 0 && st0.pend_add.len() == 0);
    let st1 = flush_fold(seq![x], seq![y], 1);
    assert(max_len(1, 1) == 1);
    if similar(x.0, y.0) {
        assert(st1.out =~= seq![modified_row(x, y)]);
        assert(flush_rows(seq![x], seq![y]) =~= seq![modified_row(x, y)]);
    } else {
        assert(st1.pend_rem =~= seq![removed_row(x)]);
        assert(st1.pend_add =~= seq![added_row(y)]);
        assert(flush_rows(seq![x], seq![y]) =~= seq![removed_row(x), added_row(y)]);
    }
}


/// In the parse, a removed line and an added line between two context
/// lines give one modified row when the two texts are similar, and
/// otherwise the removal followed by the addition; the context line after
/// them follows with the next numbers.
pub proof fn lemma_pair_between_context(pre: Seq<Seq<char>>, c1: Seq<char>, x: Seq<char>, y: Seq<char>, c2: Seq<char>)
    requires
        is_context_line(c1),
        is_context_line(c2),
        !is_header(seq!['-'] + x),
        !is_header(seq!['+'] + y),
    ensures
        ({
            let st = diff_fold(pre.push(c1));
            let l = (x, st.left);
            let r = (y, st.right);
            diff_fold(pre.push(c1).push(seq!['-'] + x).push(seq!['+'] + y).push(c2)).rows == st.rows + (if similar(x, y) {
                seq![modified_row(l, r)]
            } else {
                seq![removed_row(l), added_row(r)]
            }) + seq![context_row(context_text(c2), next_no(st.left), next_no(st.right))]
        }),
{
    reveal_strlit("@@");
    let m = seq!['-'] + x;
    let p = seq!['+'] + y;
    let s1 = pre.push(c1);
    let s2 = s1.push(m);
    let s3 = s2.push(p);
    lemma_fold_push(pre, c1);
    lemma_fold_push(s1, m);
    lemma_fold_push(s2, p);
    lemma_fold_push(s3, c2);
    let st = diff_fold(s1);
    assert(st.removed.len() == 0 && st.added.len() == 0);
    assert(m[0] == '-' && m.drop_first() =~= x);
    assert(p[0] == '+' && p.drop_first() =~= y);
    assert(!starts_with(m, "@@"@)) by {
        assert("@@"@.len() == 2 && "@@"@[0] == '@');
        if m.len() >= 2 {
            assert(m.take(2)[0] == '-');
        }
    }
    assert(!starts_with(p, "@@"@)) by {
        assert("@@"@.len() == 2 && "@@"@[0] == '@');
        if p.len() >= 2 {
            assert(p.take(2)[0] == '+');
        }
    }
    let st2 = diff_fold(s2);
    assert(st2.removed =~= seq![(x, st.left)]);
    let st3 = diff_fold(s3);
    assert(st3.added =~= seq![(y, st.right)]);
    assert(st3.removed =~= seq![(x, st.left)]);
    lemma_single_pair_block((x, st.left), (y, st.right));
}


// ---------------------------------------------------------------------------
// Reading hunk headers

/// The optional `,count` after a start line number.
pub open spec fn count_part(count: Option<nat>) -> Seq<char> {
    match count {
        Some(n) => seq![','] + crate::text::decimal(n),
        None => Seq::empty(),
    }
}

/// A hunk header `@@ -a[,b] +c[,d] ` followed by anything at all (the
/// closing `@@` and, as git writes it, the text of the enclosing function).
pub open spec fn hunk_header(a: nat, old_count: Option<nat>, c: nat, new_count: Option<nat>, rest: Seq<char>) -> Seq<char> {
    seq!['@', '@', ' ', '-'] + crate::text::decimal(a) + count_part(old_count) + seq![' ', '+'] + crate::text::decimal(c)
        + count_part(new_count) + seq![' '] + rest
}

proof fn lemma_number_word(n: nat, count: Option<nat>)
    ensures
        forall|i: int| 0 <= i < (crate::text::decimal(n) + count_part(count)).len() ==> !crate::text::is_ws(
            #[trigger] (crate::text::decimal(n) + count_part(count))[i],
        ) && (crate::text::decimal(n) + count_part(count))[i] != '-' && (crate::text::decimal(n) + count_part(count))[i]
            != '+',
        crate::text::decimal(n).len() >= 1,
        crate::text::is_digit(crate::text::decimal(n)[0]),
        forall|i: int| 0 <= i < crate::text::decimal(n).len() ==> #[trigger] crate::text::decimal(n)[i] != ',',
{
    crate::text::lemma_decimal_value(n);
    let w = crate::text::decimal(n) + count_part(count);
    let dn = crate::text::decimal(n);
    match count {
        Some(m) => crate::text::lemma_decimal_value(m),
        None => {},
    }
    assert forall|i: int| 0 <= i < w.len() implies !crate::text::is_ws(#[trigger] w[i]) && w[i] != '-' && w[i] != '+' by {
        if i < dn.len() {
            assert(w[i] == dn[i]);
            assert(crate::text::is_digit(dn[i]));
        } else {
            let m = count->0;
            let cp = count_part(count);
            assert(w[i] == cp[i - dn.len()]);
            if i - dn.len() > 0 {
                assert(cp[i - dn.len()] == crate::text::decimal(m)[i - dn.len() - 1]);
                assert(crate::text::is_digit(crate::text::decimal(m)[i - dn.len() - 1]));
            }
        }
    }
    assert forall|i: int| 0 <= i < dn.len() implies #[trigger] dn[i] != ',' by {
        assert(crate::text::is_digit(dn[i]));
    }
}

proof fn lemma_trim_dash(d: Seq<char>, c: char)
    requires
        d.len() >= 1,
        d[0] != c,
    ensures
        trim_start_char(seq![c] + d, c) == d,
{
    assert((seq![c] + d).drop_first() =~= d);
    assert(trim_start_char(d, c) == d);
}

/// A hunk header is read by its first two words, whatever follows them:
/// the old side is numbered from `a` and the new side from `c`, with or
/// without the counts and with any text after the closing `@@`.
pub proof fn lemma_hunk_header_starts(a: nat, old_count: Option<nat>, c: nat, new_count: Option<nat>, rest: Seq<char>)
    requires
        a <= usize::MAX,
        c <= usize::MAX,
    ensures
        hunk_starts(hunk_header(a, old_count, c, new_count, rest)) == Some((a as usize, c as usize)),
{
    let h = hunk_header(a, old_count, c, new_count, rest);
    let da = crate::text::decimal(a);
    let dc = crate::text::decimal(c);
    let aw = da + count_part(old_count);
    let cw = dc + count_part(new_count);
    lemma_number_word(a, old_count);
    lemma_number_word(c, new_count);
    let w1 = seq!['-'] + aw;
    let w2 = seq!['+'] + cw;
    let y = w1 + seq![' '] + w2 + seq![' '] + rest;
    // the leading `@@ ` goes
    assert(h =~= seq!['@', '@'] + (seq![' '] + y));
    assert(h.drop_first() =~= seq!['@'] + (seq![' '] + y));
    assert(h.drop_first().drop_first() =~= seq![' '] + y);
    assert(trim_start_char(seq![' '] + y, '@') == seq![' '] + y);
    assert(trim_start_char(h.drop_first().drop_first(), '@') == seq![' '] + y);
    assert(trim_start_char(h.drop_first(), '@') == seq![' '] + y);
    assert(trim_start_char(h, '@') == seq![' '] + y);
    assert((seq![' '] + y).drop_first() =~= y);
    assert(y[0] == '-');
    assert(trim_start_char(y, ' ') == y);
    assert(trim_start_char(seq![' '] + y, ' ') == y);
    // the first two words
    assert forall|i: int| 0 <= i < w1.len() implies !crate::text::is_ws(#[trigger] w1[i]) by {
        if i > 0 {
            assert(w1[i] == aw[i - 1]);
        }
    }
    assert forall|i: int| 0 <= i < w2.len() implies !crate::text::is_ws(#[trigger] w2[i]) by {
        if i > 0 {
            assert(w2[i] == cw[i - 1]);
        }
    }
    let e = Seq::<char>::empty();
    crate::text::lemma_tok_fold_word(e, w1);
    assert(e + w1 =~= w1);
    assert(e + w1 =~= w1);
    assert(crate::text::tok_fold(e) == (Seq::<Seq<char>>::empty(), e));
    assert(crate::text::tok_fold(e).1 + w1 =~= w1);
    crate::text::lemma_tok_fold_space(w1);
    let p1 = w1.push(' ');
    crate::text::lemma_tok_fold_word(p1, w2);
    assert(crate::text::tok_fold(p1).1 + w2 =~= w2);
    let p2 = p1 + w2;
    crate::text::lemma_tok_fold_space(p2);
    let p3 = p2.push(' ');
    assert(crate::text::tok_fold(p3).0 =~= seq![w1, w2]);
    crate::text::lemma_tok_fold_prefix(p3, rest);
    assert(y =~= p3 + rest);
    let toks = ws_tokens(y);
    assert(toks.len() >= 2 && toks[0] == w1 && toks[1] == w2);
    // the numbers
    lemma_trim_dash(aw, '-');
    lemma_trim_dash(cw, '+');
    crate::text::lemma_split_first_piece(da, count_part(old_count));
    crate::text::lemma_split_first_piece(dc, count_part(new_count));
    crate::text::lemma_parse_decimal(a);
    crate::text::lemma_parse_decimal(c);
}

} // verus!

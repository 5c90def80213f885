//! State the interface keeps while it runs: the history of comparisons and
//! the queue of background work.
use vstd::prelude::*;
use crate::config::RecentCompare;
use crate::text::str_eq;

verus! {

// ---------------------------------------------------------------------------
// Recent comparisons

pub struct RecentV {
    pub repo_path: Seq<char>,
    pub base: Seq<char>,
    pub target: Seq<char>,
}

impl View for RecentCompare {
    type V = RecentV;

    open spec fn view(&self) -> RecentV {
        RecentV { repo_path: self.repo_path@, base: self.base@, target: self.target@ }
    }
}

pub open spec fn recents_view(s: Seq<RecentCompare>) -> Seq<RecentV> {
    s.map_values(|r: RecentCompare| r@)
}

/// The most comparisons remembered per repository.
pub const RECENT_PER_REPO: usize = 5;

/// The most comparisons remembered in all.
pub const RECENT_TOTAL: usize = 50;

/// `s` without the entries equal to `e`.
pub open spec fn without_entry(s: Seq<RecentV>, e: RecentV) -> Seq<RecentV>
    decreases s.len(),
{
    if s.len() == 0 {
        s
    } else if s.last() == e {
        without_entry(s.drop_last(), e)
    } else {
        without_entry(s.drop_last(), e).push(s.last())
    }
}

/// `s` with the entries of repository `rp` after its first
/// `RECENT_PER_REPO - kept` dropped (`kept` of them came before `s`).
pub open spec fn cap_repo(s: Seq<RecentV>, rp: Seq<char>, kept: nat) -> Seq<RecentV>
    decreases s.len(),
{
    if s.len() == 0 {
        s
    } else if s[0].repo_path == rp {
        if kept < RECENT_PER_REPO {
            seq![s[0]] + cap_repo(s.skip(1), rp, kept + 1)
        } else {
            cap_repo(s.skip(1), rp, kept + 1)
        }
    } else {
        seq![s[0]] + cap_repo(s.skip(1), rp, kept)
    }
}

/// The history after comparing `base` with `target` in repository `rp`:
/// unchanged for the working tree or when that comparison is already the
/// newest; otherwise the comparison first, its older copies gone, at most
/// `RECENT_PER_REPO` for the repository and `RECENT_TOTAL` in all.
pub open spec fn recorded(s: Seq<RecentV>, rp: Seq<char>, base: Seq<char>, target: Seq<char>) -> Seq<RecentV> {
    let e = RecentV { repo_path: rp, base, target };
    if target == "WORKING_TREE"@ || (s.len() > 0 && s[0] == e) {
        s
    } else {
        let c = cap_repo(seq![e] + without_entry(s, e), rp, 0);
        if c.len() > RECENT_TOTAL {
            c.take(RECENT_TOTAL as int)
        } else {
            c
        }
    }
}

proof fn lemma_cap_repo_full(s: Seq<RecentV>, rp: Seq<char>, k1: nat, k2: nat)
    requires
        k1 >= RECENT_PER_REPO,
        k2 >= RECENT_PER_REPO,
    ensures
        cap_repo(s, rp, k1) == cap_repo(s, rp, k2),
    decreases s.len(),
{
    if s.len() > 0 {
        lemma_cap_repo_full(s.skip(1), rp, k1 + 1, k2 + 1);
        lemma_cap_repo_full(s.skip(1), rp, k1, k2);
    }
}

fn same_entry(r: &RecentCompare, rp: &str, base: &str, target: &str) -> (b: bool)
    ensures
        b == (r@ == RecentV { repo_path: rp@, base: base@, target: target@ }),
{
    str_eq(r.repo_path.as_str(), rp) && str_eq(r.base.as_str(), base) && str_eq(r.target.as_str(), target)
}

fn copy_recent(r: &RecentCompare) -> (c: RecentCompare)
    ensures
        c@ == r@,
{
    RecentCompare { repo_path: r.repo_path.clone(), base: r.base.clone(), target: r.target.clone() }
}

/// Remembers a range comparison (see `recorded`); returns whether the
/// history changed (and so needs saving).
pub fn record_recent_compare(recent: &mut Vec<RecentCompare>, repo_path: &str, base: &str, target: &str) -> (changed: bool)
    ensures
        recents_view(final(recent)@) == recorded(recents_view(old(recent)@), repo_path@, base@, target@),
        changed == (recorded(recents_view(old(recent)@), repo_path@, base@, target@) != recents_view(old(recent)@)
            || (target@ != "WORKING_TREE"@ && !(old(recent)@.len() > 0 && old(recent)@[0]@ == RecentV {
            repo_path: repo_path@,
            base: base@,
            target: target@,
        }))),
{
    let ghost sv = recents_view(recent@);
    let ghost e = RecentV { repo_path: repo_path@, base: base@, target: target@ };
    if str_eq(target, "WORKING_TREE") {
        return false;
    }
    if recent.len() > 0 && same_entry(&recent[0], repo_path, base, target) {
        assert(sv[0] == recent@[0]@);
        return false;
    }
    // The older copies removed.
    let mut rest: Vec<RecentCompare> = Vec::new();
    let mut i: usize = 0;
    assert(sv.take(0) =~= Seq::<RecentV>::empty());
    while i < recent.len()
        invariant
            i <= recent@.len(),
            sv == recents_view(recent@),
            e == (RecentV { repo_path: repo_path@, base: base@, target: target@ }),
            recents_view(rest@) == without_entry(sv.take(i as int), e),
        decreases recent.len() - i,
    {
        proof {
            assert(sv.take(i + 1).drop_last() =~= sv.take(i as int));
            assert(sv.take(i + 1).last() == recent@[i as int]@);
        }
        if !same_entry(&recent[i], repo_path, base, target) {
            let c = copy_recent(&recent[i]);
            let ghost prev = rest@;
            rest.push(c);
            assert(recents_view(rest@) =~= recents_view(prev).push(c@));
        }
        i = i + 1;
    }
    assert(sv.take(recent@.len() as int) =~= sv);
    // The new entry first, then the others, capped per repository.
    let ghost all = seq![e] + without_entry(sv, e);
    let mut out: Vec<RecentCompare> = Vec::new();
    out.push(RecentCompare { repo_path: crate::git::lit(repo_path), base: crate::git::lit(base), target: crate::git::lit(target) });
    let mut kept: usize = 1;
    let mut j: usize = 0;
    proof {
        assert(all[0] == e);
        assert(all.skip(1) =~= without_entry(sv, e));
        assert(cap_repo(all, repo_path@, 0) == seq![e] + cap_repo(all.skip(1), repo_path@, 1));
        assert(recents_view(out@) =~= seq![e]);
        assert(recents_view(rest@).skip(0) =~= recents_view(rest@));
    }
    while j < rest.len()
        invariant
            j <= rest@.len(),
            kept <= RECENT_PER_REPO,
            e == (RecentV { repo_path: repo_path@, base: base@, target: target@ }),
            all == seq![e] + without_entry(sv, e),
            recents_view(rest@) == without_entry(sv, e),
            cap_repo(all, repo_path@, 0) == recents_view(out@) + cap_repo(
                recents_view(rest@).skip(j as int),
                repo_path@,
                kept as nat,
            ),
        decreases rest.len() - j,
    {
        let ghost t = recents_view(rest@).skip(j as int);
        assert(t[0] == rest@[j as int]@);
        assert(t.skip(1) =~= recents_view(rest@).skip(j + 1));
        if str_eq(rest[j].repo_path.as_str(), repo_path) {
            if kept < RECENT_PER_REPO {
                let c = copy_recent(&rest[j]);
                let ghost prev = out@;
                out.push(c);
                assert(recents_view(out@) =~= recents_view(prev).push(c@));
                assert(recents_view(prev) + (seq![t[0]] + cap_repo(t.skip(1), repo_path@, (kept + 1) as nat))
                    =~= recents_view(out@) + cap_repo(t.skip(1), repo_path@, (kept + 1) as nat));
            }
            if kept < RECENT_PER_REPO {
                kept = kept + 1;
            } else {
                proof {
                    lemma_cap_repo_full(t.skip(1), repo_path@, kept as nat, (kept + 1) as nat);
                }
            }
        } else {
            let c = copy_recent(&rest[j]);
            let ghost prev = out@;
            out.push(c);
            assert(recents_view(out@) =~= recents_view(prev).push(c@));
            assert(recents_view(prev) + (seq![t[0]] + cap_repo(t.skip(1), repo_path@, kept as nat))
                =~= recents_view(out@) + cap_repo(t.skip(1), repo_path@, kept as nat));
        }
        j = j + 1;
    }
    proof {
        assert(recents_view(rest@).skip(rest@.len() as int) =~= Seq::<RecentV>::empty());
        assert(recents_view(out@) + Seq::<RecentV>::empty() =~= recents_view(out@));
    }
    if out.len() > RECENT_TOTAL {
        out.truncate(RECENT_TOTAL);
        assert(recents_view(out@) =~= cap_repo(all, repo_path@, 0).take(RECENT_TOTAL as int));
    }
    *recent = out;
    true
}


/// The number of entries of repository `rp`.
pub open spec fn count_repo(s: Seq<RecentV>, rp: Seq<char>) -> nat
    decreases s.len(),
{
    if s.len() == 0 {
        0
    } else {
        (if s[0].repo_path == rp { 1nat } else { 0nat }) + count_repo(s.skip(1), rp)
    }
}

proof fn lemma_count_cons(x: RecentV, t: Seq<RecentV>, rp: Seq<char>)
    ensures
        count_repo(seq![x] + t, rp) == (if x.repo_path == rp { 1nat } else { 0nat }) + count_repo(t, rp),
{
    assert((seq![x] + t).skip(1) =~= t);
    assert((seq![x] + t)[0] == x);
}

proof fn lemma_cap_repo_count(s: Seq<RecentV>, rp: Seq<char>, k: nat)
    ensures
        k <= RECENT_PER_REPO ==> count_repo(cap_repo(s, rp, k), rp) <= RECENT_PER_REPO - k,
        k > RECENT_PER_REPO ==> count_repo(cap_repo(s, rp, k), rp) == 0,
    decreases s.len(),
{
    if s.len() > 0 {
        if s[0].repo_path == rp {
            lemma_cap_repo_count(s.skip(1), rp, k + 1);
            if k < RECENT_PER_REPO {
                lemma_count_cons(s[0], cap_repo(s.skip(1), rp, k + 1), rp);
            }
        } else {
            lemma_cap_repo_count(s.skip(1), rp, k);
            lemma_count_cons(s[0], cap_repo(s.skip(1), rp, k), rp);
        }
    }
}

proof fn lemma_count_take(s: Seq<RecentV>, rp: Seq<char>, n: int)
    requires
        0 <= n <= s.len(),
    ensures
        count_repo(s.take(n), rp) <= count_repo(s, rp),
    decreases s.len(),
{
    if n > 0 {
        lemma_count_take(s.skip(1), rp, n - 1);
        assert(s.take(n).skip(1) =~= s.skip(1).take(n - 1));
        assert(s.take(n)[0] == s[0]);
    }
}

proof fn lemma_without_entry(s: Seq<RecentV>, e: RecentV)
    ensures
        forall|i: int| 0 <= i < without_entry(s, e).len() ==> #[trigger] without_entry(s, e)[i] != e,
    decreases s.len(),
{
    if s.len() > 0 {
        lemma_without_entry(s.drop_last(), e);
        let p = without_entry(s.drop_last(), e);
        if s.last() != e {
            assert forall|i: int| 0 <= i < p.push(s.last()).len() implies #[trigger] p.push(s.last())[i] != e by {
                if i < p.len() {
                    assert(p.push(s.last())[i] == p[i]);
                }
            }
        }
    }
}

proof fn lemma_cap_repo_avoids(s: Seq<RecentV>, rp: Seq<char>, k: nat, e: RecentV)
    requires
        forall|i: int| 0 <= i < s.len() ==> #[trigger] s[i] != e,
    ensures
        forall|i: int| 0 <= i < cap_repo(s, rp, k).len() ==> #[trigger] cap_repo(s, rp, k)[i] != e,
    decreases s.len(),
{
    if s.len() > 0 {
        assert forall|i: int| 0 <= i < s.skip(1).len() implies #[trigger] s.skip(1)[i] != e by {
            assert(s.skip(1)[i] == s[i + 1]);
        }
        let k2 = if s[0].repo_path == rp { k + 1 } else { k };
        lemma_cap_repo_avoids(s.skip(1), rp, k2, e);
        let t = cap_repo(s.skip(1), rp, k2);
        assert forall|i: int| 0 <= i < (seq![s[0]] + t).len() implies #[trigger] (seq![s[0]] + t)[i] != e by {
            if i > 0 {
                assert((seq![s[0]] + t)[i] == t[i - 1]);
            }
        }
    }
}

/// After a comparison other than with the working tree is remembered, it is
/// the newest entry. When it was not already the newest, it is there only
/// once, its repository keeps at most `RECENT_PER_REPO` entries and the
/// history at most `RECENT_TOTAL`.
/// Whether `f` places the entries of `a`, in order, among those of `b`.
pub open spec fn embeds(a: Seq<RecentV>, b: Seq<RecentV>, f: spec_fn(int) -> int) -> bool {
    &&& forall|i: int| 0 <= i < a.len() ==> 0 <= #[trigger] f(i) < b.len() && a[i] == b[f(i)]
    &&& forall|i: int, j: int| 0 <= i < j < a.len() ==> #[trigger] f(i) < #[trigger] f(j)
}

/// Whether `a` is `b` with some entries left out, the rest in their order.
pub open spec fn subsequence(a: Seq<RecentV>, b: Seq<RecentV>) -> bool {
    exists|f: spec_fn(int) -> int| embeds(a, b, f)
}

proof fn lemma_subsequence_trans(a: Seq<RecentV>, b: Seq<RecentV>, c: Seq<RecentV>)
    requires
        subsequence(a, b),
        subsequence(b, c),
    ensures
        subsequence(a, c),
{
    let f = choose|f: spec_fn(int) -> int| embeds(a, b, f);
    let g = choose|g: spec_fn(int) -> int| embeds(b, c, g);
    let h = |i: int| g(f(i));
    assert forall|i: int| 0 <= i < a.len() implies 0 <= #[trigger] h(i) < c.len() && a[i] == c[h(i)] by {
        assert(0 <= f(i) < b.len());
    }
    assert forall|i: int, j: int| 0 <= i < j < a.len() implies #[trigger] h(i) < #[trigger] h(j) by {
        assert(f(i) < f(j));
        assert(0 <= f(i) < b.len() && 0 <= f(j) < b.len());
    }
    assert(embeds(a, c, h));
}

proof fn lemma_subsequence_take(a: Seq<RecentV>, b: Seq<RecentV>, n: int)
    requires
        subsequence(a, b),
        0 <= n <= a.len(),
    ensures
        subsequence(a.take(n), b),
{
    let f = choose|f: spec_fn(int) -> int| embeds(a, b, f);
    assert forall|i: int| 0 <= i < a.take(n).len() implies 0 <= #[trigger] f(i) < b.len() && a.take(n)[i] == b[f(i)] by {}
    assert(embeds(a.take(n), b, f));
}

proof fn lemma_without_entry_subsequence(s: Seq<RecentV>, e: RecentV)
    ensures
        subsequence(without_entry(s, e), s),
    decreases s.len(),
{
    let w = without_entry(s, e);
    if s.len() == 0 {
        let f = |i: int| i;
        assert(embeds(w, s, f));
    } else {
        let init = s.drop_last();
        lemma_without_entry_subsequence(init, e);
        let w0 = without_entry(init, e);
        let f = choose|f: spec_fn(int) -> int| embeds(w0, init, f);
        if s.last() == e {
            assert forall|i: int| 0 <= i < w.len() implies 0 <= #[trigger] f(i) < s.len() && w[i] == s[f(i)] by {
                assert(init[f(i)] == s[f(i)]);
            }
            assert(embeds(w, s, f));
        } else {
            let g = |i: int| if i < w0.len() { f(i) } else { s.len() - 1 };
            assert forall|i: int| 0 <= i < w.len() implies 0 <= #[trigger] g(i) < s.len() && w[i] == s[g(i)] by {
                if i < w0.len() {
                    assert(w[i] == w0[i]);
                    assert(init[f(i)] == s[f(i)]);
                }
            }
            assert forall|i: int, j: int| 0 <= i < j < w.len() implies #[trigger] g(i) < #[trigger] g(j) by {
                if j < w0.len() {
                    assert(f(i) < f(j));
                } else {
                    assert(0 <= f(i) < init.len());
                }
            }
            assert(embeds(w, s, g));
        }
    }
}

proof fn lemma_cap_repo_subsequence(s: Seq<RecentV>, rp: Seq<char>, kept: nat)
    ensures
        subsequence(cap_repo(s, rp, kept), s),
    decreases s.len(),
{
    let c = cap_repo(s, rp, kept);
    if s.len() == 0 {
        let f = |i: int| i;
        assert(embeds(c, s, f));
    } else {
        let t = s.skip(1);
        let kept2: nat = if s[0].repo_path == rp { kept + 1 } else { kept };
        lemma_cap_repo_subsequence(t, rp, kept2);
        let c0 = cap_repo(t, rp, kept2);
        let f = choose|f: spec_fn(int) -> int| embeds(c0, t, f);
        if s[0].repo_path == rp && kept >= RECENT_PER_REPO {
            let g = |i: int| f(i) + 1;
            assert forall|i: int| 0 <= i < c.len() implies 0 <= #[trigger] g(i) < s.len() && c[i] == s[g(i)] by {
                assert(t[f(i)] == s[f(i) + 1]);
            }
            assert forall|i: int, j: int| 0 <= i < j < c.len() implies #[trigger] g(i) < #[trigger] g(j) by {
                assert(f(i) < f(j));
            }
            assert(embeds(c, s, g));
        } else {
            assert(c == seq![s[0]] + c0);
            let g = |i: int| if i == 0 { 0 } else { f(i - 1) + 1 };
            assert forall|i: int| 0 <= i < c.len() implies 0 <= #[trigger] g(i) < s.len() && c[i] == s[g(i)] by {
                if i > 0 {
                    assert(c[i] == c0[i - 1]);
                    assert(t[f(i - 1)] == s[f(i - 1) + 1]);
                }
            }
            assert forall|i: int, j: int| 0 <= i < j < c.len() implies #[trigger] g(i) < #[trigger] g(j) by {
                if i > 0 {
                    assert(f(i - 1) < f(j - 1));
                } else {
                    assert(0 <= f(j - 1));
                }
            }
            assert(embeds(c, s, g));
        }
    }
}

/// Recording a comparison keeps the other entries in their order: after
/// the new entry at the front, the history is the old one with some
/// entries left out (older copies of the new one, and those over the
/// limits).
pub proof fn lemma_recorded_keeps_order(s: Seq<RecentV>, rp: Seq<char>, base: Seq<char>, target: Seq<char>)
    requires
        target != "WORKING_TREE"@,
        !(s.len() > 0 && s[0] == RecentV { repo_path: rp, base, target }),
    ensures
        subsequence(recorded(s, rp, base, target).skip(1), s),
{
    let e = RecentV { repo_path: rp, base, target };
    let w = without_entry(s, e);
    let all = seq![e] + w;
    assert(all[0] == e);
    assert(all.skip(1) =~= w);
    let c = cap_repo(all, rp, 0);
    assert(c == seq![e] + cap_repo(w, rp, 1));
    assert(c.skip(1) =~= cap_repo(w, rp, 1));
    lemma_cap_repo_subsequence(w, rp, 1);
    lemma_without_entry_subsequence(s, e);
    lemma_subsequence_trans(cap_repo(w, rp, 1), w, s);
    if c.len() > RECENT_TOTAL {
        let r = c.take(RECENT_TOTAL as int);
        assert(r.skip(1) =~= c.skip(1).take(RECENT_TOTAL - 1));
        lemma_subsequence_take(c.skip(1), s, RECENT_TOTAL - 1);
    }
}

pub proof fn lemma_recorded(s: Seq<RecentV>, rp: Seq<char>, base: Seq<char>, target: Seq<char>)
    requires
        target != "WORKING_TREE"@,
    ensures
        ({
            let r = recorded(s, rp, base, target);
            let e = RecentV { repo_path: rp, base, target };
            &&& r.len() > 0
            &&& r[0] == e
            &&& !(s.len() > 0 && s[0] == e) ==> {
                &&& r.len() <= RECENT_TOTAL
                &&& count_repo(r, rp) <= RECENT_PER_REPO
                &&& forall|i: int| 0 < i < r.len() ==> #[trigger] r[i] != e
            }
        }),
{
    let e = RecentV { repo_path: rp, base, target };
    if !(s.len() > 0 && s[0] == e) {
        let w = without_entry(s, e);
        let all = seq![e] + w;
        assert(all[0] == e);
        assert(all.skip(1) =~= w);
        let c = cap_repo(all, rp, 0);
        assert(c == seq![e] + cap_repo(w, rp, 1));
        lemma_cap_repo_count(all, rp, 0);
        lemma_without_entry(s, e);
        lemma_cap_repo_avoids(w, rp, 1, e);
        let t = cap_repo(w, rp, 1);
        assert forall|i: int| 0 < i < c.len() implies #[trigger] c[i] != e by {
            assert(c[i] == t[i - 1]);
        }
        if c.len() > RECENT_TOTAL {
            lemma_count_take(c, rp, RECENT_TOTAL as int);
            let r = c.take(RECENT_TOTAL as int);
            assert forall|i: int| 0 < i < r.len() implies #[trigger] r[i] != e by {
                assert(r[i] == c[i]);
            }
        }
    }
}


// ---------------------------------------------------------------------------
// Background work

/// The kinds of work the interface hands to its workers.
#[derive(Clone, Copy, Debug, PartialEq, Eq, Structural)]
pub enum JobKind {
    LoadRepo,
    PullRepo,
    FetchRepo,
    LoadChangedFiles,
    LoadFileDiff,
    LoadFileBlame,
    LoadBranchLog,
    LoadCommitDetail,
    LoadActivity,
    LoadDiffCommits,
    StashOp,
}

/// Whole-repository analysis and bulk pulls and fetches may wait behind the
/// work the user is looking at.
pub open spec fn background_kind(k: JobKind) -> bool {
    k is LoadRepo || k is PullRepo || k is FetchRepo
}

pub fn is_background(k: JobKind) -> (r: bool)
    ensures
        r == background_kind(k),
{
    match k {
        JobKind::LoadRepo | JobKind::PullRepo | JobKind::FetchRepo => true,
        _ => false,
    }
}

/// The request generations, one per kind of request that a newer one of the
/// same kind supersedes.
#[derive(Clone, Copy, Debug, PartialEq, Eq, Structural)]
pub struct JobSeqs {
    pub files: u64,
    pub content: u64,
    pub blame: u64,
    pub branch_log: u64,
    pub commit_detail: u64,
    pub activity: u64,
    pub diff_commits: u64,
}

/// The generation a job of kind `k` is checked against; none for the kinds
/// that are never superseded.
pub open spec fn current_seq(k: JobKind, s: JobSeqs) -> Option<u64> {
    match k {
        JobKind::LoadChangedFiles => Some(s.files),
        JobKind::LoadFileDiff => Some(s.content),
        JobKind::LoadFileBlame => Some(s.blame),
        JobKind::LoadBranchLog => Some(s.branch_log),
        JobKind::LoadCommitDetail => Some(s.commit_detail),
        JobKind::LoadActivity => Some(s.activity),
        JobKind::LoadDiffCommits => Some(s.diff_commits),
        _ => None,
    }
}

/// A job is stale when a newer request of its kind was issued after it.
pub fn is_stale(k: JobKind, seq: u64, seqs: &JobSeqs) -> (r: bool)
    ensures
        r == (current_seq(k, *seqs) matches Some(c) && c != seq),
{
    match k {
        JobKind::LoadChangedFiles => seq != seqs.files,
        JobKind::LoadFileDiff => seq != seqs.content,
        JobKind::LoadFileBlame => seq != seqs.blame,
        JobKind::LoadBranchLog => seq != seqs.branch_log,
        JobKind::LoadCommitDetail => seq != seqs.commit_detail,
        JobKind::LoadActivity => seq != seqs.activity,
        JobKind::LoadDiffCommits => seq != seqs.diff_commits,
        _ => false,
    }
}

/// Starts a new request generation and returns it, to tag the job with.
pub fn bump_seq(seq: &mut u64) -> (r: u64)
    requires
        *old(seq) < u64::MAX,
    ensures
        *final(seq) == *old(seq) + 1,
        r == *final(seq),
{
    *seq = *seq + 1;
    *seq
}

/// The current request generation.
pub fn cur_seq(seq: &u64) -> (r: u64)
    ensures
        r == *seq,
{
    *seq
}

/// Two queues of jobs: interactive jobs always leave before background ones,
/// each queue first in, first out.
pub struct JobQueue<T> {
    interactive: Vec<T>,
    background: Vec<T>,
}

impl<T> View for JobQueue<T> {
    type V = (Seq<T>, Seq<T>);

    closed spec fn view(&self) -> (Seq<T>, Seq<T>) {
        (self.interactive@, self.background@)
    }
}

impl<T> JobQueue<T> {
    pub fn new() -> (q: Self)
        ensures
            q@.0.len() == 0,
            q@.1.len() == 0,
    {
        JobQueue { interactive: Vec::new(), background: Vec::new() }
    }

    /// Queues a job at the end of its queue.
    pub fn push(&mut self, job: T, background: bool)
        ensures
            background ==> final(self)@ == (old(self)@.0, old(self)@.1.push(job)),
            !background ==> final(self)@ == (old(self)@.0.push(job), old(self)@.1),
    {
        if background {
            self.background.push(job);
        } else {
            self.interactive.push(job);
        }
    }

    /// The next job: the oldest interactive one, else the oldest background
    /// one; none when both queues are empty.
    pub fn pop(&mut self) -> (r: Option<T>)
        ensures
            old(self)@.0.len() > 0 ==> r == Some(old(self)@.0[0]) && final(self)@ == (old(self)@.0.skip(1), old(self)@.1),
            old(self)@.0.len() == 0 && old(self)@.1.len() > 0 ==> r == Some(old(self)@.1[0]) && final(self)@ == (
                old(self)@.0,
                old(self)@.1.skip(1),
            ),
            old(self)@.0.len() == 0 && old(self)@.1.len() == 0 ==> r is None && final(self)@ == old(self)@,
    {
        if self.interactive.len() > 0 {
            let j = self.interactive.remove(0);
            assert(self.interactive@ =~= old(self)@.0.skip(1));
            Some(j)
        } else if self.background.len() > 0 {
            let j = self.background.remove(0);
            assert(self.background@ =~= old(self)@.1.skip(1));
            Some(j)
        } else {
            None
        }
    }

    pub fn is_empty(&self) -> (r: bool)
        ensures
            r == (self@.0.len() == 0 && self@.1.len() == 0),
    {
        self.interactive.len() == 0 && self.background.len() == 0
    }
}


/// The repositories a pull or fetch of all of them takes, by position: all
/// but those whose loaded overview says they have no remote (`has_remote`
/// holds, for each repository, what its loaded overview says, if any).
pub open spec fn sync_targets_spec(has_remote: Seq<Option<bool>>) -> Seq<usize>
    decreases has_remote.len(),
{
    if has_remote.len() == 0 {
        Seq::empty()
    } else {
        let prev = sync_targets_spec(has_remote.drop_last());
        if has_remote.last() == Some(false) {
            prev
        } else {
            prev.push((has_remote.len() - 1) as usize)
        }
    }
}

/// `sync_targets_spec`.
pub fn sync_targets(has_remote: &Vec<Option<bool>>) -> (r: Vec<usize>)
    ensures
        r@ == sync_targets_spec(has_remote@),
{
    let mut r: Vec<usize> = Vec::new();
    let mut i: usize = 0;
    assert(has_remote@.take(0) =~= Seq::<Option<bool>>::empty());
    while i < has_remote.len()
        invariant
            i <= has_remote@.len(),
            r@ == sync_targets_spec(has_remote@.take(i as int)),
        decreases has_remote.len() - i,
    {
        proof {
            assert(has_remote@.take(i + 1).drop_last() =~= has_remote@.take(i as int));
            assert(has_remote@.take(i + 1).last() == has_remote@[i as int]);
        }
        if has_remote[i] != Some(false) {
            r.push(i);
        }
        i = i + 1;
    }
    assert(has_remote@.take(has_remote@.len() as int) =~= has_remote@);
    r
}

} // verus!

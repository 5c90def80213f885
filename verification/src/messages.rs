//! What the interface does with the results its workers send back: the
//! notices it shows, and which results it keeps.
use vstd::prelude::*;
use crate::config::{Language, Repository, RepositoryV, repos_view};
use crate::settings::{paths_equal, same_path};
use crate::diff::{DiffRow, DiffRowV, rows_view};
use crate::git::lit;
use crate::i18n::{t, translate};
use crate::text::{chars_of, concat, decimal, decimal_chars, string_of, trim, trim_str};
use crate::view::{columns, str_cols};

verus! {

/// How a notice is shown.
#[derive(Clone, Copy, Debug, PartialEq, Eq, Structural)]
pub enum ToastKind {
    Info,
    Success,
    Error,
}

/// Where a pull or fetch of a repository stands.
#[derive(Clone, Debug, PartialEq, Eq)]
pub enum PullState {
    Pulling,
    Success(String),
    Error(String),
}

/// The state a finished pull or fetch leaves: its message, as a success or
/// a failure.
pub fn pull_state_of(result: Result<String, String>) -> (r: PullState)
    ensures
        result matches Ok(m) ==> r == PullState::Success(m),
        result matches Err(e) ==> r == PullState::Error(e),
{
    match result {
        Ok(m) => PullState::Success(m),
        Err(e) => PullState::Error(e),
    }
}

/// An outcome that the interface reports.
#[derive(Clone, Debug, PartialEq, Eq)]
pub enum Notice {
    UpdateFailed(String),
    PullFailed(String),
    FetchFailed(String),
    CommitDetailFailed(String),
    ActivityFailed(String),
    CommitListFailed(String),
    CommitGraphFailed(String),
    StashApplied,
    StashDropped,
    StashApplyFailed(String),
    StashDropFailed(String),
    WorkerPanicked(String),
}

/// The text (in the interface language) and kind of a notice.
pub open spec fn notice_spec(lang: Language, n: Notice) -> (Seq<char>, ToastKind) {
    let en = lang == Language::English;
    match n {
        Notice::UpdateFailed(e) => (if en { "Update failed: "@ } else { "更新失敗: "@ } + e@, ToastKind::Error),
        Notice::PullFailed(e) => (if en { "Pull failed: "@ } else { "Pull 失敗: "@ } + e@, ToastKind::Error),
        Notice::FetchFailed(e) => (if en { "Fetch failed: "@ } else { "Fetch 失敗: "@ } + e@, ToastKind::Error),
        Notice::CommitDetailFailed(e) => (
            if en { "Failed to fetch commit details: "@ } else { "コミット詳細取得失敗: "@ } + e@,
            ToastKind::Error,
        ),
        Notice::ActivityFailed(e) => (
            if en { "Failed to fetch activity: "@ } else { "アクティビティ取得失敗: "@ } + e@,
            ToastKind::Error,
        ),
        Notice::CommitListFailed(e) => (
            if en { "Failed to fetch commit list: "@ } else { "コミット一覧の取得失敗: "@ } + e@,
            ToastKind::Error,
        ),
        Notice::CommitGraphFailed(e) => (
            if en { "Failed to fetch commit graph: "@ } else { "コミットグラフ取得失敗: "@ } + e@,
            ToastKind::Error,
        ),
        Notice::StashApplied => (translate(lang, "toast_stash_applied"@), ToastKind::Success),
        Notice::StashDropped => (translate(lang, "toast_stash_dropped"@), ToastKind::Success),
        Notice::StashApplyFailed(e) => (
            if en { "Failed to apply stash: "@ } else { "スタッシュ適用失敗: "@ } + e@,
            ToastKind::Error,
        ),
        Notice::StashDropFailed(e) => (
            if en { "Failed to drop stash: "@ } else { "スタッシュ削除失敗: "@ } + e@,
            ToastKind::Error,
        ),
        Notice::WorkerPanicked(e) => (
            if en {
                "Internal error occurred (continuing execution): "@
            } else {
                "内部エラーが発生しました（処理は継続します）: "@
            } + e@,
            ToastKind::Error,
        ),
    }
}

fn prefixed(en: bool, english: &str, japanese: &str, e: &String) -> (r: String)
    ensures
        r@ == if en { english@ } else { japanese@ } + e@,
{
    let p = if en {
        chars_of(english)
    } else {
        chars_of(japanese)
    };
    let all = concat(&p, &chars_of(e.as_str()));
    string_of(&all)
}

/// The text and kind of a notice (see `notice_spec`).
pub fn notice_text(lang: Language, n: &Notice) -> (r: (String, ToastKind))
    ensures
        (r.0@, r.1) == notice_spec(lang, *n),
{
    let en = lang == Language::English;
    match n {
        Notice::UpdateFailed(e) => (prefixed(en, "Update failed: ", "更新失敗: ", e), ToastKind::Error),
        Notice::PullFailed(e) => (prefixed(en, "Pull failed: ", "Pull 失敗: ", e), ToastKind::Error),
        Notice::FetchFailed(e) => (prefixed(en, "Fetch failed: ", "Fetch 失敗: ", e), ToastKind::Error),
        Notice::CommitDetailFailed(e) => (
            prefixed(en, "Failed to fetch commit details: ", "コミット詳細取得失敗: ", e),
            ToastKind::Error,
        ),
        Notice::ActivityFailed(e) => (
            prefixed(en, "Failed to fetch activity: ", "アクティビティ取得失敗: ", e),
            ToastKind::Error,
        ),
        Notice::CommitListFailed(e) => (
            prefixed(en, "Failed to fetch commit list: ", "コミット一覧の取得失敗: ", e),
            ToastKind::Error,
        ),
        Notice::CommitGraphFailed(e) => (
            prefixed(en, "Failed to fetch commit graph: ", "コミットグラフ取得失敗: ", e),
            ToastKind::Error,
        ),
        Notice::StashApplied => (lit(t(lang, "toast_stash_applied")), ToastKind::Success),
        Notice::StashDropped => (lit(t(lang, "toast_stash_dropped")), ToastKind::Success),
        Notice::StashApplyFailed(e) => (
            prefixed(en, "Failed to apply stash: ", "スタッシュ適用失敗: ", e),
            ToastKind::Error,
        ),
        Notice::StashDropFailed(e) => (
            prefixed(en, "Failed to drop stash: ", "スタッシュ削除失敗: ", e),
            ToastKind::Error,
        ),
        Notice::WorkerPanicked(e) => (
            prefixed(
                en,
                "Internal error occurred (continuing execution): ",
                "内部エラーが発生しました（処理は継続します）: ",
                e,
            ),
            ToastKind::Error,
        ),
    }
}

/// The warning for an analysis that failed while the rest succeeded: its
/// name and the trimmed error.
pub open spec fn soft_warning_spec(name: Seq<char>, err: Seq<char>) -> Seq<char> {
    name + ": "@ + trim(err)
}

pub fn soft_warning(name: &str, err: &str) -> (r: String)
    ensures
        r@ == soft_warning_spec(name@, err@),
{
    let a = concat(&chars_of(name), &chars_of(": "));
    let b = concat(&a, &trim_str(err));
    string_of(&b)
}

/// The notice about failed parts of an analysis: the first warning, and
/// how many more there were; none without warnings.
pub open spec fn partial_failure_spec(lang: Language, warnings: Seq<Seq<char>>) -> Option<Seq<char>> {
    if warnings.len() == 0 {
        None
    } else {
        let more = if warnings.len() > 1 {
            if lang == Language::English {
                " ("@ + decimal((warnings.len() - 1) as nat) + " more)"@
            } else {
                "（他"@ + decimal((warnings.len() - 1) as nat) + "件）"@
            }
        } else {
            Seq::empty()
        };
        Some(
            if lang == Language::English {
                "Partial analysis failed: "@
            } else {
                "一部の解析に失敗: "@
            } + warnings[0] + more,
        )
    }
}

pub fn partial_failure_notice(lang: Language, warnings: &Vec<String>) -> (r: Option<String>)
    ensures
        match r {
            Some(s) => partial_failure_spec(lang, crate::git::strings_view(warnings@)) == Some(s@),
            None => partial_failure_spec(lang, crate::git::strings_view(warnings@)) is None,
        },
{
    if warnings.len() == 0 {
        return None;
    }
    let en = lang == Language::English;
    let more = if warnings.len() > 1 {
        let n = decimal_chars((warnings.len() - 1) as u64);
        let (pre, post) = if en {
            (chars_of(" ("), chars_of(" more)"))
        } else {
            (chars_of("（他"), chars_of("件）"))
        };
        let a = concat(&pre, &n);
        concat(&a, &post)
    } else {
        Vec::new()
    };
    let head = if en {
        chars_of("Partial analysis failed: ")
    } else {
        chars_of("一部の解析に失敗: ")
    };
    let a = concat(&head, &chars_of(warnings[0].as_str()));
    let b = concat(&a, &more);
    assert(crate::git::strings_view(warnings@)[0] == warnings@[0]@);
    Some(string_of(&b))
}

/// Whether a finished analysis replaces what is shown: a failure does not
/// replace a good earlier result.
pub open spec fn replaces_shown(new_ok: bool, shown_ok: bool) -> bool {
    new_ok || !shown_ok
}

pub fn keep_new_result(new_ok: bool, shown_ok: bool) -> (r: bool)
    ensures
        r == replaces_shown(new_ok, shown_ok),
{
    new_ok || !shown_ok
}

/// The widest row of a file diff in display columns: the wider of its two
/// sides, the widest over all rows (0 for none).
pub open spec fn max_cols(rows: Seq<DiffRowV>) -> nat
    decreases rows.len(),
{
    if rows.len() == 0 {
        0
    } else {
        let r = rows.last();
        let l = match r.left_text {
            Some(t) => columns(t),
            None => 0,
        };
        let rt = match r.right_text {
            Some(t) => columns(t),
            None => 0,
        };
        let w = if l > rt { l } else { rt };
        let m = max_cols(rows.drop_last());
        if w > m { w } else { m }
    }
}

fn side_cols(t: &Option<String>) -> (r: usize)
    requires
        t matches Some(s) ==> 2 * s@.len() <= usize::MAX,
    ensures
        r == match crate::diff::opt_str_view(*t) {
            Some(s) => columns(s),
            None => 0,
        },
{
    match t {
        Some(s) => str_cols(s.as_str()),
        None => 0,
    }
}

/// The widest row of a file diff in display columns (see `max_cols`).
pub fn diff_max_cols(rows: &Vec<DiffRow>) -> (r: usize)
    requires
        forall|i: int| 0 <= i < rows@.len() ==> ((#[trigger] rows@[i]).left_text matches Some(s) ==> 2 * s@.len() <= usize::MAX),
        forall|i: int| 0 <= i < rows@.len() ==> ((#[trigger] rows@[i]).right_text matches Some(s) ==> 2 * s@.len() <= usize::MAX),
    ensures
        r == max_cols(rows_view(rows@)),
{
    let ghost rv = rows_view(rows@);
    let mut m: usize = 0;
    let mut i: usize = 0;
    while i < rows.len()
        invariant
            i <= rows@.len(),
            rv == rows_view(rows@),
            forall|k: int| 0 <= k < rows@.len() ==> ((#[trigger] rows@[k]).left_text matches Some(s) ==> 2 * s@.len() <= usize::MAX),
            forall|k: int| 0 <= k < rows@.len() ==> ((#[trigger] rows@[k]).right_text matches Some(s) ==> 2 * s@.len() <= usize::MAX),
            m == max_cols(rv.take(i as int)),
        decreases rows.len() - i,
    {
        proof {
            assert(rv.take(i + 1).drop_last() =~= rv.take(i as int));
            assert(rv.take(i + 1).last() == rows@[i as int]@);
        }
        let row = &rows[i];
        let l = side_cols(&row.left_text);
        let r = side_cols(&row.right_text);
        let w = if l > r {
            l
        } else {
            r
        };
        if w > m {
            m = w;
        }
        i = i + 1;
    }
    assert(rv.take(rows@.len() as int) =~= rv);
    m
}


// ---------------------------------------------------------------------------
// Notices on screen

/// A notice on screen: its text, how it is shown, and when it was raised,
/// in milliseconds of a monotonic clock.
#[derive(Clone, Debug, PartialEq, Eq)]
pub struct Toast {
    pub message: String,
    pub kind: ToastKind,
    pub started_at_ms: u64,
}

pub struct ToastV {
    pub message: Seq<char>,
    pub kind: ToastKind,
    pub started_at_ms: u64,
}

impl View for Toast {
    type V = ToastV;

    open spec fn view(&self) -> ToastV {
        ToastV { message: self.message@, kind: self.kind, started_at_ms: self.started_at_ms }
    }
}

pub open spec fn toasts_view(s: Seq<Toast>) -> Seq<ToastV> {
    s.map_values(|t: Toast| t@)
}

/// How long a notice stays, in milliseconds: six seconds for an error,
/// three for the others.
pub open spec fn toast_ttl(kind: ToastKind) -> nat {
    match kind {
        ToastKind::Error => 6000,
        _ => 3000,
    }
}

/// `toast_ttl` of a kind.
pub fn toast_ttl_ms(kind: ToastKind) -> (r: u64)
    ensures
        r == toast_ttl(kind),
{
    match kind {
        ToastKind::Error => 6000,
        _ => 3000,
    }
}

/// The time since a notice was raised; a clock read before it counts as none.
pub open spec fn toast_age(t: ToastV, now: u64) -> nat {
    if now >= t.started_at_ms {
        (now - t.started_at_ms) as nat
    } else {
        0
    }
}

/// Whether a notice is still shown at `now`.
pub open spec fn toast_alive(t: ToastV, now: u64) -> bool {
    toast_age(t, now) < toast_ttl(t.kind)
}

/// The notices still shown at `now`, in the order they were raised.
pub open spec fn live_toasts(s: Seq<ToastV>, now: u64) -> Seq<ToastV>
    decreases s.len(),
{
    if s.len() == 0 {
        s
    } else {
        let prev = live_toasts(s.drop_last(), now);
        if toast_alive(s.last(), now) {
            prev.push(s.last())
        } else {
            prev
        }
    }
}

/// Whether a notice raised at `t.started_at_ms` is still shown at `now_ms`.
pub fn is_toast_alive(t: &Toast, now_ms: u64) -> (r: bool)
    ensures
        r == toast_alive(t@, now_ms),
{
    let age: u64 = if now_ms >= t.started_at_ms { now_ms - t.started_at_ms } else { 0 };
    age < toast_ttl_ms(t.kind)
}

/// Raises a notice at `now_ms`: it goes after those already shown.
pub fn push_toast(toasts: &mut Vec<Toast>, message: String, kind: ToastKind, now_ms: u64)
    ensures
        toasts_view(final(toasts)@) == toasts_view(old(toasts)@).push(
            ToastV { message: message@, kind: kind, started_at_ms: now_ms },
        ),
{
    let ghost before = toasts_view(toasts@);
    toasts.push(Toast { message, kind, started_at_ms: now_ms });
    assert(toasts_view(toasts@) =~= before.push(ToastV { message: message@, kind: kind, started_at_ms: now_ms }));
}

/// Takes down the notices whose time is up at `now_ms`; the others stay in
/// their order.
pub fn retain_live_toasts(toasts: &mut Vec<Toast>, now_ms: u64)
    ensures
        toasts_view(final(toasts)@) == live_toasts(toasts_view(old(toasts)@), now_ms),
{
    let ghost sv = toasts_view(toasts@);
    let mut kept: Vec<Toast> = Vec::new();
    let mut i: usize = 0;
    assert(sv.take(0) =~= Seq::<ToastV>::empty());
    while i < toasts.len()
        invariant
            i <= toasts@.len(),
            sv == toasts_view(toasts@),
            toasts_view(kept@) == live_toasts(sv.take(i as int), now_ms),
        decreases toasts.len() - i,
    {
        proof {
            assert(sv.take(i + 1).drop_last() =~= sv.take(i as int));
            assert(sv.take(i + 1).last() == toasts@[i as int]@);
        }
        if is_toast_alive(&toasts[i], now_ms) {
            let t = Toast {
                message: crate::git::lit(toasts[i].message.as_str()),
                kind: toasts[i].kind,
                started_at_ms: toasts[i].started_at_ms,
            };
            let ghost prev = kept@;
            kept.push(t);
            assert(toasts_view(kept@) =~= toasts_view(prev).push(t@));
        }
        i = i + 1;
    }
    assert(sv.take(toasts@.len() as int) =~= sv);
    *toasts = kept;
}

/// What stays after the notices are cleared at some time stays, unchanged,
/// when they are cleared again at that time.
pub proof fn lemma_live_toasts_idempotent(s: Seq<ToastV>, now: u64)
    ensures
        live_toasts(live_toasts(s, now), now) == live_toasts(s, now),
        forall|i: int| 0 <= i < live_toasts(s, now).len() ==> toast_alive(#[trigger] live_toasts(s, now)[i], now),
    decreases s.len(),
{
    if s.len() > 0 {
        lemma_live_toasts_idempotent(s.drop_last(), now);
        let prev = live_toasts(s.drop_last(), now);
        if toast_alive(s.last(), now) {
            assert(prev.push(s.last()).drop_last() =~= prev);
        }
    }
}


// ---------------------------------------------------------------------------
// Repository loads in flight

/// The bookkeeping of repository analyses: the generation of the cache of
/// results, raised whenever a finished analysis replaces a cached result,
/// and the repositories whose analysis is still running.
pub struct LoadBook {
    pub cache_gen: u64,
    pub loading: Vec<usize>,
}

impl LoadBook {
    /// The repositories still loading, as a set.
    pub open spec fn loading_set(&self) -> Set<usize> {
        self.loading@.to_set()
    }

    /// Nothing loading, generation zero.
    pub fn new() -> (r: LoadBook)
        ensures
            r.cache_gen == 0,
            r.loading_set() == Set::<usize>::empty(),
    {
        let r = LoadBook { cache_gen: 0, loading: Vec::new() };
        assert(r.loading_set() =~= Set::<usize>::empty());
        r
    }

    /// Whether the analysis of `index` is running.
    pub fn is_loading(&self, index: usize) -> (r: bool)
        ensures
            r == self.loading_set().contains(index),
    {
        let mut i: usize = 0;
        while i < self.loading.len()
            invariant
                i <= self.loading@.len(),
                forall|k: int| 0 <= k < i ==> self.loading@[k] != index,
            decreases self.loading.len() - i,
        {
            if self.loading[i] == index {
                return true;
            }
            i = i + 1;
        }
        false
    }

    /// An analysis of `index` has started.
    pub fn start_load(&mut self, index: usize)
        ensures
            final(self).cache_gen == old(self).cache_gen,
            final(self).loading_set() == old(self).loading_set().insert(index),
    {
        let ghost before = self.loading@;
        if !self.is_loading(index) {
            self.loading.push(index);
            proof {
                assert(self.loading@[before.len() as int] == index);
                assert forall|x: usize| before.contains(x) implies #[trigger] self.loading@.contains(x) by {
                    let m = choose|m: int| 0 <= m < before.len() && before[m] == x;
                    assert(self.loading@[m] == x);
                }
                assert forall|x: usize| #[trigger] self.loading@.contains(x) && x != index implies before.contains(x) by {
                    let m = choose|m: int| 0 <= m < self.loading@.len() && self.loading@[m] == x;
                    assert(before[m] == x);
                }
            }
        }
        assert(self.loading_set() =~= old(self).loading_set().insert(index));
    }

    /// The analysis of `index` has finished with a result that is good or
    /// not, while the cache held a good result or not. The cache is
    /// replaced (and its generation raised) unless a failure would replace
    /// a good result; either way `index` is no longer loading. Returns
    /// whether the cache was replaced.
    pub fn finish_load(&mut self, index: usize, new_ok: bool, shown_ok: bool) -> (replaced: bool)
        requires
            old(self).cache_gen < u64::MAX,
        ensures
            replaced == replaces_shown(new_ok, shown_ok),
            final(self).cache_gen == old(self).cache_gen + (if replaced { 1int } else { 0int }),
            final(self).loading_set() == old(self).loading_set().remove(index),
    {
        let replaced = keep_new_result(new_ok, shown_ok);
        if replaced {
            self.cache_gen = self.cache_gen + 1;
        }
        let ghost before = self.loading@;
        let mut kept: Vec<usize> = Vec::new();
        let mut i: usize = 0;
        while i < self.loading.len()
            invariant
                i <= self.loading@.len(),
                self.loading@ == before,
                forall|k: int| 0 <= k < kept@.len() ==> #[trigger] kept@[k] != index && before.contains(kept@[k]),
                forall|k: int| 0 <= k < i && before[k] != index ==> kept@.contains(#[trigger] before[k]),
            decreases self.loading.len() - i,
        {
            let x = self.loading[i];
            if x != index {
                let ghost pk = kept@;
                kept.push(x);
                proof {
                    assert(kept@[kept@.len() - 1] == x);
                    assert forall|k: int| 0 <= k < i + 1 && before[k] != index implies kept@.contains(#[trigger] before[k]) by {
                        if k < i {
                            let m = choose|m: int| 0 <= m < pk.len() && pk[m] == before[k];
                            assert(kept@[m] == before[k]);
                        }
                    }
                }
            }
            i = i + 1;
        }
        self.loading = kept;
        proof {
            assert forall|x: usize| #[trigger] self.loading_set().contains(x) <==> old(self).loading_set().remove(index).contains(x) by {
                if self.loading@.contains(x) {
                    let m = choose|m: int| 0 <= m < self.loading@.len() && self.loading@[m] == x;
                    assert(self.loading@[m] != index && before.contains(self.loading@[m]));
                }
                if before.contains(x) && x != index {
                    let m = choose|m: int| 0 <= m < before.len() && before[m] == x;
                    assert(self.loading@.contains(before[m]));
                }
            }
            assert(self.loading_set() =~= old(self).loading_set().remove(index));
        }
        replaced
    }
}


// ---------------------------------------------------------------------------
// Reacting to what the workers send back

/// A message from a worker: an analysis of a repository finished (with its
/// error, if it failed, and the warnings of its failed parts), or a pull or
/// fetch of the repository at a path finished.
pub enum WorkerMessage {
    RepoLoaded { repo_index: usize, error: Option<String>, warnings: Vec<String> },
    PullFinished { path: String, result: Result<String, String> },
    FetchFinished { path: String, result: Result<String, String> },
}

/// What the interface does about a message: the notices to show, whether
/// the analysis result replaces the cached one, the sync state to record
/// for a path, and the repository whose analysis to start again.
pub struct Reaction {
    pub toasts: Vec<(String, ToastKind)>,
    pub replaced: bool,
    pub status: Option<(String, PullState)>,
    pub reload: Option<usize>,
}

pub open spec fn toast_texts(s: Seq<(String, ToastKind)>) -> Seq<(Seq<char>, ToastKind)> {
    s.map_values(|t: (String, ToastKind)| (t.0@, t.1))
}

/// The position of the first repository whose path names the same path as
/// `path` (see `paths_equal`), from `i` on.
pub open spec fn first_repo_at(repos: Seq<RepositoryV>, path: Seq<char>, i: int) -> Option<int>
    decreases repos.len() - i,
{
    if i < 0 || i >= repos.len() {
        None
    } else if paths_equal(repos[i].path, path) {
        Some(i)
    } else {
        first_repo_at(repos, path, i + 1)
    }
}

/// The position of the first repository at `path` (see `first_repo_at`).
pub fn find_repo(repos: &Vec<Repository>, path: &str) -> (r: Option<usize>)
    ensures
        (match r {
            Some(k) => Some(k as int),
            None => None,
        }) == first_repo_at(repos_view(repos@), path@, 0),
{
    let ghost rv = repos_view(repos@);
    let mut i: usize = 0;
    while i < repos.len()
        invariant
            i <= repos@.len(),
            rv == repos_view(repos@),
            first_repo_at(rv, path@, 0) == first_repo_at(rv, path@, i as int),
        decreases repos.len() - i,
    {
        assert(rv[i as int].path == repos@[i as int].path@);
        if same_path(repos[i].path.as_str(), path) {
            return Some(i);
        }
        i = i + 1;
    }
    None
}

/// The reaction to a finished pull (`fetch` false) or fetch of the
/// repository at `path`: a notice when it failed, the sync state it leaves
/// for the path, and on success the analysis of that repository started
/// again (when it is in the list).
pub open spec fn sync_reaction(
    lang: Language,
    repos: Seq<RepositoryV>,
    fetch: bool,
    path: Seq<char>,
    result: Result<String, String>,
    r: Reaction,
) -> bool {
    &&& toast_texts(r.toasts@) == (match result {
        Ok(_) => Seq::empty(),
        Err(e) => seq![notice_spec(lang, if fetch { Notice::FetchFailed(e) } else { Notice::PullFailed(e) })],
    })
    &&& !r.replaced
    &&& r.status matches Some((p, st)) && p@ == path && (match result {
        Ok(m) => st matches PullState::Success(x) && x@ == m@,
        Err(e) => st matches PullState::Error(x) && x@ == e@,
    })
    &&& r.reload == (if result is Ok {
        match first_repo_at(repos, path, 0) {
            Some(k) => Some(k as usize),
            None => None,
        }
    } else {
        None
    })
}

fn sync_finished(lang: Language, repos: &Vec<Repository>, fetch: bool, path: String, result: Result<String, String>) -> (r: Reaction)
    ensures
        sync_reaction(lang, repos_view(repos@), fetch, path@, result, r),
{
    let mut toasts: Vec<(String, ToastKind)> = Vec::new();
    let ok = result.is_ok();
    let (state, reload) = match result {
        Ok(m) => {
            let reload = find_repo(repos, path.as_str());
            (PullState::Success(lit(m.as_str())), reload)
        },
        Err(e) => {
            let n = if fetch {
                Notice::FetchFailed(lit(e.as_str()))
            } else {
                Notice::PullFailed(lit(e.as_str()))
            };
            toasts.push(notice_text(lang, &n));
            (PullState::Error(lit(e.as_str())), None)
        },
    };
    proof {
        if !ok {
            assert(toast_texts(toasts@) =~= seq![toast_texts(toasts@)[0]]);
        } else {
            assert(toast_texts(toasts@) =~= Seq::<(Seq<char>, ToastKind)>::empty());
        }
    }
    Reaction { toasts, replaced: false, status: Some((path, state)), reload }
}

/// What the interface does about a worker's message. A finished analysis
/// replaces the cached result unless a failure would replace a good one
/// (then a notice says the update failed), raising the cache generation
/// when it does; the repository is no longer loading; a notice reports
/// failed parts. A finished pull or fetch is handled by `sync_reaction`.
pub fn on_worker_message(
    book: &mut LoadBook,
    lang: Language,
    repos: &Vec<Repository>,
    shown_ok: bool,
    msg: WorkerMessage,
) -> (r: Reaction)
    requires
        msg is RepoLoaded ==> old(book).cache_gen < u64::MAX,
    ensures
        match msg {
            WorkerMessage::RepoLoaded { repo_index, error, warnings } => {
                &&& r.replaced == replaces_shown(error is None, shown_ok)
                &&& final(book).cache_gen == old(book).cache_gen + (if r.replaced { 1int } else { 0int })
                &&& final(book).loading_set() == old(book).loading_set().remove(repo_index)
                &&& toast_texts(r.toasts@) == (if r.replaced {
                    Seq::empty()
                } else {
                    seq![notice_spec(lang, Notice::UpdateFailed(error.unwrap()))]
                }) + (match partial_failure_spec(lang, crate::git::strings_view(warnings@)) {
                    Some(m) => seq![(m, ToastKind::Error)],
                    None => Seq::empty(),
                })
                &&& r.status is None && r.reload is None
            },
            WorkerMessage::PullFinished { path, result } => {
                &&& sync_reaction(lang, repos_view(repos@), false, path@, result, r)
                &&& final(book).cache_gen == old(book).cache_gen && final(book).loading@ == old(book).loading@
            },
            WorkerMessage::FetchFinished { path, result } => {
                &&& sync_reaction(lang, repos_view(repos@), true, path@, result, r)
                &&& final(book).cache_gen == old(book).cache_gen && final(book).loading@ == old(book).loading@
            },
        },
{
    match msg {
        WorkerMessage::RepoLoaded { repo_index, error, warnings } => {
            let replaced = book.finish_load(repo_index, error.is_none(), shown_ok);
            let mut toasts: Vec<(String, ToastKind)> = Vec::new();
            if !replaced {
                match &error {
                    Some(e) => {
                        let n = Notice::UpdateFailed(lit(e.as_str()));
                        toasts.push(notice_text(lang, &n));
                    },
                    None => {},
                }
            }
            let ghost first = toast_texts(toasts@);
            match partial_failure_notice(lang, &warnings) {
                Some(m) => {
                    toasts.push((m, ToastKind::Error));
                },
                None => {},
            }
            proof {
                if !replaced {
                    assert(first =~= seq![notice_spec(lang, Notice::UpdateFailed(error.unwrap()))]);
                } else {
                    assert(first =~= Seq::<(Seq<char>, ToastKind)>::empty());
                }
                assert(toast_texts(toasts@) =~= first + (match partial_failure_spec(lang, crate::git::strings_view(warnings@)) {
                    Some(m) => seq![(m, ToastKind::Error)],
                    None => Seq::<(Seq<char>, ToastKind)>::empty(),
                }));
            }
            Reaction { toasts, replaced, status: None, reload: None }
        },
        WorkerMessage::PullFinished { path, result } => sync_finished(lang, repos, false, path, result),
        WorkerMessage::FetchFinished { path, result } => sync_finished(lang, repos, true, path, result),
    }
}

} // verus!

//! The home view: the list of repositories, with the controls above it and
//! the card of each repository.
use vstd::prelude::*;
use crate::analysis::RepoData;
use crate::config::{Language, Repository, RepositoryV, repos_view};
use crate::git::lit;
use crate::i18n::{t, translate};
use crate::messages::PullState;
use crate::repos::{RepoFilterSortInput, RepoInputV, inputs_view};
use crate::search::strings_view;
use crate::settings::{joined, joined_exec};
use crate::sort::{lemma_lex_lt_order, lex_lt, lex_lt_exec};
use crate::summary::Summary;
use crate::text::{chars_of, concat, decimal, decimal_chars, str_eq, string_of};
use crate::view::{dotted, dotted_chars};

verus! {

// ---------------------------------------------------------------------------
// Above the list

/// The progress line while repositories are still being analysed: how many
/// of how many are done; none once all are.
pub open spec fn progress_line(lang: Language, loaded: nat, total: nat) -> Option<Seq<char>> {
    if loaded < total {
        Some(match lang {
            Language::English => "Analysis in progress: "@ + decimal(loaded) + " of "@ + decimal(total) + " completed"@,
            Language::Japanese => "分析進行中: "@ + decimal(total) + " 件中 "@ + decimal(loaded) + " 件の分析が完了"@,
        })
    } else {
        None
    }
}

/// `progress_line`.
pub fn analysis_progress(lang: Language, loaded: usize, total: usize) -> (r: Option<String>)
    ensures
        match progress_line(lang, loaded as nat, total as nat) {
            Some(m) => r matches Some(s) && s@ == m,
            None => r is None,
        },
{
    if loaded >= total {
        return None;
    }
    let l = decimal_chars(loaded as u64);
    let n = decimal_chars(total as u64);
    let v = match lang {
        Language::English => concat(
            &concat(&concat(&concat(&chars_of("Analysis in progress: "), &l), &chars_of(" of ")), &n),
            &chars_of(" completed"),
        ),
        Language::Japanese => concat(
            &concat(&concat(&concat(&chars_of("分析進行中: "), &n), &chars_of(" 件中 ")), &l),
            &chars_of(" 件の分析が完了"),
        ),
    };
    Some(string_of(&v))
}

// ---------------------------------------------------------------------------
// The card of a repository

/// The theme colours of a card's marks.
#[derive(Clone, Copy, Debug, PartialEq, Eq, Structural)]
pub enum CardTone {
    Accent,
    Success,
    Error,
    Warning,
    Dim,
    Faint,
}

/// The colour of the dot before a repository: as its last pull or fetch
/// stands, faint when there was none.
pub open spec fn dot_tone(state: Option<PullState>) -> CardTone {
    match state {
        Some(PullState::Pulling) => CardTone::Accent,
        Some(PullState::Success(_)) => CardTone::Success,
        Some(PullState::Error(_)) => CardTone::Error,
        None => CardTone::Faint,
    }
}

/// `dot_tone`.
pub fn status_dot(state: &Option<PullState>) -> (r: CardTone)
    ensures
        r == dot_tone(*state),
{
    match state {
        Some(PullState::Pulling) => CardTone::Accent,
        Some(PullState::Success(_)) => CardTone::Success,
        Some(PullState::Error(_)) => CardTone::Error,
        None => CardTone::Faint,
    }
}

/// The badge of how a repository stands against its remote: local only, no
/// upstream, behind (↓n), ahead (↑n), or up to date.
pub open spec fn badge_spec(lang: Language, has_remote: bool, has_upstream: bool, ahead: nat, behind: nat) -> (Seq<char>, CardTone) {
    if !has_remote {
        (translate(lang, "local_only"@), CardTone::Faint)
    } else if !has_upstream {
        (translate(lang, "no_upstream"@), CardTone::Faint)
    } else if behind > 0 {
        ("↓"@ + decimal(behind), CardTone::Warning)
    } else if ahead > 0 {
        ("↑"@ + decimal(ahead), CardTone::Dim)
    } else {
        (translate(lang, "up_to_date"@), CardTone::Success)
    }
}

/// `badge_spec` of a repository's overview.
pub fn sync_badge(lang: Language, s: &Summary) -> (r: (String, CardTone))
    ensures
        r.0@ == badge_spec(lang, s.has_remote, s.has_upstream, s.ahead as nat, s.behind as nat).0,
        r.1 == badge_spec(lang, s.has_remote, s.has_upstream, s.ahead as nat, s.behind as nat).1,
{
    if !s.has_remote {
        (lit(t(lang, "local_only")), CardTone::Faint)
    } else if !s.has_upstream {
        (lit(t(lang, "no_upstream")), CardTone::Faint)
    } else if s.behind > 0 {
        (string_of(&concat(&chars_of("↓"), &decimal_chars(s.behind as u64))), CardTone::Warning)
    } else if s.ahead > 0 {
        (string_of(&concat(&chars_of("↑"), &decimal_chars(s.ahead as u64))), CardTone::Dim)
    } else {
        (lit(t(lang, "up_to_date")), CardTone::Success)
    }
}

/// A language or framework with its version: "-" when unknown, the name
/// alone when its version is unknown, else "name (version)".
pub open spec fn tech_text(name: Seq<char>, version: Seq<char>) -> Seq<char> {
    if name == "-"@ {
        "-"@
    } else if version == "-"@ {
        name
    } else {
        name + " ("@ + version + ")"@
    }
}

/// `tech_text`.
pub fn tech_label(name: &str, version: &str) -> (r: String)
    ensures
        r@ == tech_text(name@, version@),
{
    if str_eq(name, "-") {
        lit("-")
    } else if str_eq(version, "-") {
        lit(name)
    } else {
        string_of(&concat(&concat(&concat(&chars_of(name), &chars_of(" (")), &chars_of(version)), &chars_of(")")))
    }
}

/// What a repository's card shows: its commit line, the line of details
/// under it, the remote badge, and the number of uncommitted changes.
#[derive(Clone, Debug, PartialEq, Eq)]
pub struct RepoCard {
    pub commit_line: String,
    pub metadata: String,
    pub badge: Option<(String, CardTone)>,
    pub uncommitted: usize,
}

/// The commit line of a card (before it is cut to 60 characters, see `dotted`): while the
/// analysis runs a loading text; for a failed one the failure; else the
/// latest commit's message, or "no commits".
pub open spec fn commit_line_text(lang: Language, entry: Option<Result<RepoData, String>>) -> Seq<char> {
    match entry {
        None => translate(lang, "loading_analysis_data"@),
        Some(Err(e)) => match lang {
            Language::English => "Analysis failed: "@ + e@,
            Language::Japanese => "分析失敗: "@ + e@,
        },
        Some(Ok(d)) => if d.recent_commits@.len() > 0 {
            d.recent_commits@[0].message@
        } else {
            translate(lang, "no_commits"@)
        },
    }
}

/// The date of the latest commit, or "unknown".
pub open spec fn latest_date(lang: Language, d: RepoData) -> Seq<char> {
    if d.recent_commits@.len() > 0 {
        d.recent_commits@[0].date@
    } else {
        translate(lang, "unknown"@)
    }
}

/// The known details of an analysed repository, in order: language,
/// framework, branch, date of the latest commit; "-" stands for unknown.
pub open spec fn metadata_parts(lang: Language, d: RepoData) -> Seq<Seq<char>> {
    let l = tech_text(d.tech_info.language@, d.tech_info.lang_version@);
    let f = tech_text(d.tech_info.framework@, d.tech_info.framework_version@);
    let b = d.summary.current_branch@;
    let date = latest_date(lang, d);
    (if l != "-"@ { seq![l] } else { Seq::empty() }) + (if f != "-"@ { seq![f] } else { Seq::empty() }) + (if b != "-"@ {
        seq!["branch: "@ + b]
    } else {
        Seq::empty()
    }) + (if date != "-"@ { seq![date] } else { Seq::empty() })
}

/// The line of details of a card: loading, the error of a failed analysis,
/// or the known details separated by dots ("no metadata" when none is).
pub open spec fn metadata_line(lang: Language, entry: Option<Result<RepoData, String>>) -> Seq<char> {
    match entry {
        None => translate(lang, "loading"@),
        Some(Err(e)) => match lang {
            Language::English => "Error: "@ + e@,
            Language::Japanese => "エラー: "@ + e@,
        },
        Some(Ok(d)) => if metadata_parts(lang, d).len() == 0 {
            translate(lang, "no_metadata"@)
        } else {
            joined(metadata_parts(lang, d), "  ·  "@)
        },
    }
}

fn push_part(parts: &mut Vec<String>, s: String)
    ensures
        s@ != "-"@ ==> strings_view(final(parts)@) == strings_view(old(parts)@).push(s@),
        s@ == "-"@ ==> strings_view(final(parts)@) == strings_view(old(parts)@),
{
    if !str_eq(s.as_str(), "-") {
        let ghost prev = strings_view(parts@);
        parts.push(s);
        assert(strings_view(parts@) =~= prev.push(s@));
    }
}

fn metadata_of(lang: Language, d: &RepoData) -> (r: Vec<String>)
    ensures
        strings_view(r@) == metadata_parts(lang, *d),
{
    let mut parts: Vec<String> = Vec::new();
    let l = tech_label(d.tech_info.language.as_str(), d.tech_info.lang_version.as_str());
    push_part(&mut parts, l);
    let f = tech_label(d.tech_info.framework.as_str(), d.tech_info.framework_version.as_str());
    push_part(&mut parts, f);
    if !str_eq(d.summary.current_branch.as_str(), "-") {
        let b = string_of(&concat(&chars_of("branch: "), &chars_of(d.summary.current_branch.as_str())));
        let ghost prev = strings_view(parts@);
        parts.push(b);
        assert(strings_view(parts@) =~= prev.push(b@));
    }
    let date = if d.recent_commits.len() > 0 {
        lit(d.recent_commits[0].date.as_str())
    } else {
        lit(t(lang, "unknown"))
    };
    push_part(&mut parts, date);
    proof {
        let ld = tech_text(d.tech_info.language@, d.tech_info.lang_version@);
        let fd = tech_text(d.tech_info.framework@, d.tech_info.framework_version@);
        let bd = d.summary.current_branch@;
        let dd = latest_date(lang, *d);
        let e = Seq::<Seq<char>>::empty();
        assert(strings_view(parts@) =~= (if ld != "-"@ { seq![ld] } else { e }) + (if fd != "-"@ { seq![fd] } else { e }) + (if bd != "-"@ {
            seq!["branch: "@ + bd]
        } else {
            e
        }) + (if dd != "-"@ { seq![dd] } else { e }));
    }
    parts
}

/// The card of a repository from what its analysis gave so far: nothing
/// yet, a failure, or the analysis.
pub fn repo_card(lang: Language, entry: &Option<Result<RepoData, String>>) -> (r: RepoCard)
    ensures
        r.commit_line@ == dotted(commit_line_text(lang, *entry), 60),
        r.metadata@ == metadata_line(lang, *entry),
        match *entry {
            Some(Ok(d)) => r.badge matches Some((b, tone)) && b@ == badge_spec(
                lang,
                d.summary.has_remote,
                d.summary.has_upstream,
                d.summary.ahead as nat,
                d.summary.behind as nat,
            ).0 && tone == badge_spec(lang, d.summary.has_remote, d.summary.has_upstream, d.summary.ahead as nat, d.summary.behind as nat).1
                && r.uncommitted == d.summary.uncommitted_changes,
            _ => r.badge is None && r.uncommitted == 0,
        },
{
    match entry {
        None => {
            let c = chars_of(t(lang, "loading_analysis_data"));
            RepoCard { commit_line: dotted_chars(&c, 60), metadata: lit(t(lang, "loading")), badge: None, uncommitted: 0 }
        },
        Some(Err(e)) => {
            let (p1, p2) = match lang {
                Language::English => (chars_of("Analysis failed: "), chars_of("Error: ")),
                Language::Japanese => (chars_of("分析失敗: "), chars_of("エラー: ")),
            };
            let ev = chars_of(e.as_str());
            let c = concat(&p1, &ev);
            RepoCard { commit_line: dotted_chars(&c, 60), metadata: string_of(&concat(&p2, &ev)), badge: None, uncommitted: 0 }
        },
        Some(Ok(d)) => {
            let c = if d.recent_commits.len() > 0 {
                chars_of(d.recent_commits[0].message.as_str())
            } else {
                chars_of(t(lang, "no_commits"))
            };
            let parts = metadata_of(lang, d);
            let metadata = if parts.len() == 0 {
                lit(t(lang, "no_metadata"))
            } else {
                string_of(&joined_exec(&parts, "  ·  "))
            };
            RepoCard {
                commit_line: dotted_chars(&c, 60),
                metadata,
                badge: Some(sync_badge(lang, &d.summary)),
                uncommitted: d.summary.uncommitted_changes,
            }
        },
    }
}

/// The badge of uncommitted changes: their number.
pub open spec fn changes_text(lang: Language, n: nat) -> Seq<char> {
    match lang {
        Language::English => decimal(n) + " changes"@,
        Language::Japanese => "変更 "@ + decimal(n) + "件"@,
    }
}

/// `changes_text`.
pub fn uncommitted_badge(lang: Language, n: usize) -> (r: String)
    ensures
        r@ == changes_text(lang, n as nat),
{
    let d = decimal_chars(n as u64);
    match lang {
        Language::English => string_of(&concat(&d, &chars_of(" changes"))),
        Language::Japanese => string_of(&concat(&concat(&chars_of("変更 "), &d), &chars_of("件"))),
    }
}


// ---------------------------------------------------------------------------
// The hosts of the repositories

/// Whether some repository is on host `h`.
pub open spec fn has_host(repos: Seq<RepositoryV>, h: Seq<char>) -> bool {
    exists|i: int| 0 <= i < repos.len() && (#[trigger] repos[i]).host == Some(h)
}

/// Whether `s` is in strictly increasing order.
pub open spec fn strictly_increasing(s: Seq<Seq<char>>) -> bool {
    forall|i: int, j: int| 0 <= i < j < s.len() ==> lex_lt(#[trigger] s[i], #[trigger] s[j])
}

/// The hosts the repositories are on, each once, in increasing order: the
/// choices of the host filter.
pub fn distinct_hosts(repos: &Vec<Repository>) -> (r: Vec<String>)
    ensures
        strictly_increasing(strings_view(r@)),
        forall|h: Seq<char>| strings_view(r@).contains(h) <==> has_host(repos_view(repos@), h),
{
    let ghost rv = repos_view(repos@);
    let mut out: Vec<String> = Vec::new();
    let mut i: usize = 0;
    while i < repos.len()
        invariant
            i <= repos@.len(),
            rv == repos_view(repos@),
            strictly_increasing(strings_view(out@)),
            forall|h: Seq<char>| strings_view(out@).contains(h) <==> has_host(rv.take(i as int), h),
        decreases repos.len() - i,
    {
        let ghost before = strings_view(out@);
        proof {
            assert forall|h: Seq<char>| has_host(rv.take(i + 1), h) <==> (has_host(rv.take(i as int), h) || rv[i as int].host == Some(h)) by {
                if has_host(rv.take(i + 1), h) {
                    let k = choose|k: int| 0 <= k < rv.take(i + 1).len() && (#[trigger] rv.take(i + 1)[k]).host == Some(h);
                    if k < i {
                        assert(rv.take(i as int)[k] == rv.take(i + 1)[k]);
                    }
                }
                if has_host(rv.take(i as int), h) {
                    let k = choose|k: int| 0 <= k < rv.take(i as int).len() && (#[trigger] rv.take(i as int)[k]).host == Some(h);
                    assert(rv.take(i + 1)[k] == rv.take(i as int)[k]);
                }
                if rv[i as int].host == Some(h) {
                    assert(rv.take(i + 1)[i as int] == rv[i as int]);
                }
            }
        }
        match &repos[i].host {
            None => {
                assert(rv[i as int].host is None);
            },
            Some(h) => {
                assert(rv[i as int].host == Some(h@));
                let hv = chars_of(h.as_str());
                // The first position whose host is not below `h`.
                let mut p: usize = 0;
                while p < out.len() && lex_lt_exec(&chars_of(out[p].as_str()), &hv)
                    invariant
                        p <= out@.len(),
                        strings_view(out@) == before,
                        hv@ == h@,
                        forall|k: int| 0 <= k < p ==> lex_lt(#[trigger] before[k], h@),
                    decreases out.len() - p,
                {
                    p = p + 1;
                }
                let present = p < out.len() && str_eq(out[p].as_str(), h.as_str());
                if !present {
                    proof {
                        // `h` is not among the hosts so far: those before `p` are
                        // below it, those from `p` on above it.
                        assert forall|k: int| p <= k < before.len() implies lex_lt(h@, #[trigger] before[k]) by {
                            lemma_lex_lt_order(before[p as int], h@, h@);
                            lemma_lex_lt_order(h@, before[p as int], before[k]);
                            lemma_lex_lt_order(before[p as int], h@, before[p as int]);
                            if k > p {
                                assert(lex_lt(before[p as int], before[k]));
                            }
                        }
                    }
                    let ghost hs = h@;
                    out.insert(p, lit(h.as_str()));
                    proof {
                        let nv = strings_view(out@);
                        assert(nv =~= before.insert(p as int, hs));
                        assert forall|a: int, b: int| 0 <= a < b < nv.len() implies lex_lt(#[trigger] nv[a], #[trigger] nv[b]) by {
                            if b < p {
                            } else if b == p {
                                assert(nv[b] == hs);
                                assert(nv[a] == before[a]);
                            } else if a == p {
                                assert(nv[b] == before[b - 1]);
                            } else if a < p {
                                assert(nv[a] == before[a] && nv[b] == before[b - 1]);
                                lemma_lex_lt_order(before[a], hs, before[b - 1]);
                            } else {
                                assert(nv[a] == before[a - 1] && nv[b] == before[b - 1]);
                            }
                        }
                        assert forall|x: Seq<char>| nv.contains(x) <==> (before.contains(x) || x == hs) by {
                            if nv.contains(x) {
                                let k = choose|k: int| 0 <= k < nv.len() && nv[k] == x;
                                if k < p {
                                    assert(before[k] == x);
                                } else if k > p {
                                    assert(before[k - 1] == x);
                                }
                            }
                            if before.contains(x) {
                                let k = choose|k: int| 0 <= k < before.len() && before[k] == x;
                                if k < p {
                                    assert(nv[k] == x);
                                } else {
                                    assert(nv[k + 1] == x);
                                }
                            }
                            if x == hs {
                                assert(nv[p as int] == x);
                            }
                        }
                    }
                } else {
                    assert(before[p as int] == h@);
                    assert(before.contains(h@));
                }
            },
        }
        i = i + 1;
    }
    assert(rv.take(repos@.len() as int) =~= rv);
    out
}


// ---------------------------------------------------------------------------
// The entries of the list

/// What the list needs of an analysed repository: the date of its latest
/// commit (empty when there is none), its language and its framework.
pub open spec fn list_fields_spec(d: RepoData) -> (Seq<char>, Seq<char>, Seq<char>) {
    (
        if d.recent_commits@.len() > 0 { d.recent_commits@[0].date@ } else { Seq::empty() },
        d.tech_info.language@,
        d.tech_info.framework@,
    )
}

/// `list_fields_spec`.
pub fn list_fields(d: &RepoData) -> (r: (String, String, String))
    ensures
        (r.0@, r.1@, r.2@) == list_fields_spec(*d),
{
    let date = if d.recent_commits.len() > 0 { lit(d.recent_commits[0].date.as_str()) } else { String::new() };
    (date, lit(d.tech_info.language.as_str()), lit(d.tech_info.framework.as_str()))
}

/// Whether a repository on `host` passes the host filter `selected` (none:
/// every repository does).
pub open spec fn host_selected(host: Option<Seq<char>>, selected: Option<Seq<char>>) -> bool {
    match selected {
        None => true,
        Some(h) => host == Some(h),
    }
}

pub open spec fn opt_fields_view(f: Option<(String, String, String)>) -> (Seq<char>, Seq<char>, Seq<char>) {
    match f {
        Some((a, b, c)) => (a@, b@, c@),
        None => (Seq::empty(), Seq::empty(), Seq::empty()),
    }
}

/// The entries of the list, before searching and sorting, for the first `n`
/// repositories: those that pass the host filter, each with its position,
/// name and path, and the fields of its analysis (empty while there is
/// none).
pub open spec fn home_entries(
    repos: Seq<RepositoryV>,
    fields: Seq<Option<(String, String, String)>>,
    selected: Option<Seq<char>>,
    n: nat,
) -> Seq<RepoInputV>
    decreases n,
{
    if n == 0 {
        Seq::empty()
    } else {
        let prev = home_entries(repos, fields, selected, (n - 1) as nat);
        let k = (n - 1) as int;
        if host_selected(repos[k].host, selected) {
            let f = opt_fields_view(fields[k]);
            prev.push(RepoInputV {
                index: k as usize,
                name: repos[k].name,
                path: repos[k].path,
                last_commit_date: f.0,
                language: f.1,
                framework: f.2,
            })
        } else {
            prev
        }
    }
}

/// The entries of the list (see `home_entries`); `fields` holds, for each
/// repository, the fields of its analysis when it is done (see
/// `list_fields`).
pub fn home_list_inputs(
    repos: &Vec<Repository>,
    fields: &Vec<Option<(String, String, String)>>,
    selected_host: &Option<String>,
) -> (r: Vec<RepoFilterSortInput>)
    requires
        fields@.len() == repos@.len(),
    ensures
        inputs_view(r@) == home_entries(
            repos_view(repos@),
            fields@,
            crate::diff::opt_str_view(*selected_host),
            repos@.len(),
        ),
{
    let ghost rv = repos_view(repos@);
    let ghost sel = crate::diff::opt_str_view(*selected_host);
    let mut out: Vec<RepoFilterSortInput> = Vec::new();
    let mut i: usize = 0;
    while i < repos.len()
        invariant
            i <= repos@.len(),
            fields@.len() == repos@.len(),
            rv == repos_view(repos@),
            sel == crate::diff::opt_str_view(*selected_host),
            inputs_view(out@) == home_entries(rv, fields@, sel, i as nat),
        decreases repos.len() - i,
    {
        let repo = &repos[i];
        assert(rv[i as int] == repo@);
        let pass = match selected_host {
            None => true,
            Some(h) => match &repo.host {
                Some(rh) => str_eq(rh.as_str(), h.as_str()),
                None => false,
            },
        };
        if pass {
            let (d, l, f) = match &fields[i] {
                Some((a, b, c)) => (lit(a.as_str()), lit(b.as_str()), lit(c.as_str())),
                None => (String::new(), String::new(), String::new()),
            };
            let e = RepoFilterSortInput {
                index: i,
                name: lit(repo.name.as_str()),
                path: lit(repo.path.as_str()),
                last_commit_date: d,
                language: l,
                framework: f,
            };
            let ghost prev = out@;
            out.push(e);
            assert(inputs_view(out@) =~= inputs_view(prev).push(e@));
        }
        i = i + 1;
    }
    out
}

} // verus!

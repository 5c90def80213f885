//! The overview of a repository: its name, branch, counts and sizes, from
//! the output of one batch of git commands.
use vstd::prelude::*;
use crate::config::{Member, MemberV, members_view};
use crate::contributors::{contributor_list, process_contributor_log};
use crate::git::{lit, parse_sync_status, repo_name_from_ssh_path, repo_name_of, result_view, results_view, ssh_repo, parse_ssh_repo, strings_view, sync_status, git_suffix};
use crate::remote::commands_view;
use crate::text::{chars_of, contains_exec, contains_seq, filter_map, lemma_filter_map_all, lemma_filter_map_take, lines_seq, lines_str, parse_usize, parse_usize_exec, slice_of, string_of, trim, trim_end_seq, trim_end_seq_exec, trim_str, trim_vec, vviews};
use crate::view::{format_size, size_text};

verus! {

/// The overview of a repository.
#[derive(Clone, Debug, PartialEq, Eq)]
pub struct Summary {
    pub repo_name: String,
    pub repo_path: String,
    pub current_branch: String,
    pub total_commits: usize,
    pub total_contributors: usize,
    pub total_branches: usize,
    pub total_files: usize,
    pub total_size_bytes: u64,
    pub total_size_formatted: String,
    pub has_upstream: bool,
    pub ahead: usize,
    pub behind: usize,
    pub has_remote: bool,
    pub uncommitted_changes: usize,
}

// ---------------------------------------------------------------------------
// The commands

/// The commands of the overview, in order: current branch, commit count,
/// branches, tracked files, remotes, working-tree status, upstream name,
/// ahead/behind counts, author log.
pub open spec fn summary_command_list() -> Seq<Seq<Seq<char>>> {
    seq![
        seq!["branch"@, "--show-current"@],
        seq!["rev-list"@, "--count"@, "HEAD"@],
        seq!["branch"@, "-a"@],
        seq!["ls-files"@],
        seq!["remote"@],
        seq!["status"@, "--porcelain=v1"@],
        seq!["rev-parse"@, "--abbrev-ref"@, "@{u}"@],
        seq!["rev-list"@, "--left-right"@, "--count"@, "HEAD...@{u}"@],
        seq!["log"@, "--format=%an|||%ae|||%at"@],
    ]
}

fn words(a: &str, b: &str, c: &str, d: &str, n: usize) -> (r: Vec<String>)
    requires
        1 <= n <= 4,
    ensures
        strings_view(r@) == seq![a@, b@, c@, d@].take(n as int),
{
    let mut r: Vec<String> = Vec::new();
    r.push(lit(a));
    if n > 1 {
        r.push(lit(b));
    }
    if n > 2 {
        r.push(lit(c));
    }
    if n > 3 {
        r.push(lit(d));
    }
    assert(strings_view(r@) =~= seq![a@, b@, c@, d@].take(n as int));
    r
}

/// The commands of the overview (see `summary_command_list`).
pub fn summary_commands() -> (r: Vec<Vec<String>>)
    ensures
        commands_view(r@) == summary_command_list(),
{
    let mut r: Vec<Vec<String>> = Vec::new();
    r.push(words("branch", "--show-current", "", "", 2));
    r.push(words("rev-list", "--count", "HEAD", "", 3));
    r.push(words("branch", "-a", "", "", 2));
    r.push(words("ls-files", "", "", "", 1));
    r.push(words("remote", "", "", "", 1));
    r.push(words("status", "--porcelain=v1", "", "", 2));
    r.push(words("rev-parse", "--abbrev-ref", "@{u}", "", 3));
    r.push(words("rev-list", "--left-right", "--count", "HEAD...@{u}", 4));
    r.push(words("log", "--format=%an|||%ae|||%at", "", "", 2));
    assert(commands_view(r@) =~= summary_command_list()) by {
        assert(seq!["branch"@, "--show-current"@, ""@, ""@].take(2) =~= seq!["branch"@, "--show-current"@]);
        assert(seq!["rev-list"@, "--count"@, "HEAD"@, ""@].take(3) =~= seq!["rev-list"@, "--count"@, "HEAD"@]);
        assert(seq!["branch"@, "-a"@, ""@, ""@].take(2) =~= seq!["branch"@, "-a"@]);
        assert(seq!["ls-files"@, ""@, ""@, ""@].take(1) =~= seq!["ls-files"@]);
        assert(seq!["remote"@, ""@, ""@, ""@].take(1) =~= seq!["remote"@]);
        assert(seq!["status"@, "--porcelain=v1"@, ""@, ""@].take(2) =~= seq!["status"@, "--porcelain=v1"@]);
        assert(seq!["rev-parse"@, "--abbrev-ref"@, "@{u}"@, ""@].take(3) =~= seq!["rev-parse"@, "--abbrev-ref"@, "@{u}"@]);
        assert(seq!["rev-list"@, "--left-right"@, "--count"@, "HEAD...@{u}"@].take(4)
            =~= seq!["rev-list"@, "--left-right"@, "--count"@, "HEAD...@{u}"@]);
        assert(seq!["log"@, "--format=%an|||%ae|||%at"@, ""@, ""@].take(2) =~= seq!["log"@, "--format=%an|||%ae|||%at"@]);
    }
    r
}

// ---------------------------------------------------------------------------
// Reading the outputs

/// The output of command `i`; empty when it failed or is missing.
pub open spec fn out_of(outs: Seq<Result<Seq<char>, Seq<char>>>, i: int) -> Seq<char> {
    if 0 <= i < outs.len() && outs[i] is Ok {
        outs[i]->Ok_0
    } else {
        Seq::empty()
    }
}

fn out_exec(outs: &Vec<Result<String, String>>, i: usize) -> (r: Vec<char>)
    ensures
        r@ == out_of(results_view(outs@), i as int),
{
    if i < outs.len() {
        assert(results_view(outs@)[i as int] == result_view(outs@[i as int]));
        match &outs[i] {
            Ok(s) => chars_of(s.as_str()),
            Err(_) => Vec::new(),
        }
    } else {
        Vec::new()
    }
}

/// The number of lines of `s` that `p` accepts.
pub open spec fn count_lines_where(lines: Seq<Seq<char>>, p: spec_fn(Seq<char>) -> bool) -> nat
    decreases lines.len(),
{
    if lines.len() == 0 {
        0
    } else {
        count_lines_where(lines.drop_last(), p) + if p(lines.last()) { 1nat } else { 0nat }
    }
}

/// A line with something on it besides whitespace.
pub open spec fn nonblank(l: Seq<char>) -> bool {
    trim(l).len() > 0
}

/// A line of the branch listing that names a branch (symbolic `a -> b`
/// lines left out).
pub open spec fn branch_line(l: Seq<char>) -> bool {
    trim(l).len() > 0 && !contains_seq(l, "->"@)
}

fn count_nonblank(v: &Vec<char>) -> (r: usize)
    ensures
        r == count_lines_where(lines_seq(v@), |l: Seq<char>| nonblank(l)),
{
    let s = string_of(v);
    let lines = lines_str(s.as_str());
    let ghost ls = vviews(lines@);
    let ghost p = |l: Seq<char>| nonblank(l);
    let mut n: usize = 0;
    let mut i: usize = 0;
    while i < lines.len()
        invariant
            i <= lines@.len(),
            ls == vviews(lines@),
            p == (|l: Seq<char>| nonblank(l)),
            n == count_lines_where(ls.take(i as int), p),
            n <= i,
        decreases lines.len() - i,
    {
        proof {
            assert(ls.take(i + 1).drop_last() =~= ls.take(i as int));
            assert(ls.take(i + 1).last() == lines@[i as int]@);
        }
        if trim_vec(&lines[i]).len() > 0 {
            n = n + 1;
        }
        i = i + 1;
    }
    assert(ls.take(lines@.len() as int) =~= ls);
    n
}

fn count_branches(v: &Vec<char>) -> (r: usize)
    ensures
        r == count_lines_where(lines_seq(v@), |l: Seq<char>| branch_line(l)),
{
    let s = string_of(v);
    let lines = lines_str(s.as_str());
    let arrow = chars_of("->");
    let ghost ls = vviews(lines@);
    let ghost p = |l: Seq<char>| branch_line(l);
    let mut n: usize = 0;
    let mut i: usize = 0;
    while i < lines.len()
        invariant
            i <= lines@.len(),
            ls == vviews(lines@),
            arrow@ == "->"@,
            p == (|l: Seq<char>| branch_line(l)),
            n == count_lines_where(ls.take(i as int), p),
            n <= i,
        decreases lines.len() - i,
    {
        proof {
            assert(ls.take(i + 1).drop_last() =~= ls.take(i as int));
            assert(ls.take(i + 1).last() == lines@[i as int]@);
        }
        if trim_vec(&lines[i]).len() > 0 && !contains_exec(&lines[i], &arrow) {
            n = n + 1;
        }
        i = i + 1;
    }
    assert(ls.take(lines@.len() as int) =~= ls);
    n
}

/// The tracked files of an `ls-files` listing: its non-blank lines, trimmed.
pub open spec fn tracked_file_list(ls: Seq<char>) -> Seq<Seq<char>> {
    filter_map(lines_seq(ls), |l: Seq<char>| if trim(l).len() > 0 { Some(trim(l)) } else { None })
}

/// The tracked files of an `ls-files` listing (whose sizes the overview
/// adds up).
pub fn tracked_files(ls_output: &str) -> (r: Vec<String>)
    ensures
        strings_view(r@) == tracked_file_list(ls_output@),
{
    let lines = lines_str(ls_output);
    let ghost ls = vviews(lines@);
    let ghost f = |l: Seq<char>| if trim(l).len() > 0 { Some(trim(l)) } else { None };
    let mut r: Vec<String> = Vec::new();
    let mut i: usize = 0;
    while i < lines.len()
        invariant
            i <= lines@.len(),
            ls == vviews(lines@),
            f == (|l: Seq<char>| if trim(l).len() > 0 { Some(trim(l)) } else { None }),
            strings_view(r@) == filter_map(ls.take(i as int), f),
        decreases lines.len() - i,
    {
        proof {
            lemma_filter_map_take(ls, f, i as int);
            assert(ls[i as int] == lines@[i as int]@);
        }
        let t = trim_vec(&lines[i]);
        if t.len() > 0 {
            let ghost prev = r@;
            r.push(string_of(&t));
            assert(strings_view(r@) =~= strings_view(prev).push(t@));
        }
        i = i + 1;
    }
    proof {
        lemma_filter_map_all(ls, f);
    }
    r
}

/// The total of the sizes that could be read.
pub open spec fn total_size(sizes: Seq<Option<u64>>) -> nat
    decreases sizes.len(),
{
    if sizes.len() == 0 {
        0
    } else {
        total_size(sizes.drop_last()) + match sizes.last() {
            Some(n) => n as nat,
            None => 0nat,
        }
    }
}

/// The overview from the outputs of the overview commands (in the order of
/// `summary_command_list`), the sizes of the tracked files (none for a file
/// whose size could not be read) and the members.
pub open spec fn summary_fields(outs: Seq<Result<Seq<char>, Seq<char>>>, sizes: Seq<Option<u64>>, ms: Seq<MemberV>) -> (
    Seq<char>,
    usize,
    nat,
    nat,
    nat,
    nat,
    bool,
    nat,
    (bool, usize, usize),
) {
    let has_upstream = trim(out_of(outs, 6)).len() > 0;
    (
        trim(out_of(outs, 0)),
        match parse_usize(trim(out_of(outs, 1))) {
            Some(n) => n,
            None => 0,
        },
        count_lines_where(lines_seq(out_of(outs, 2)), |l: Seq<char>| branch_line(l)),
        tracked_file_list(out_of(outs, 3)).len(),
        total_size(sizes),
        contributor_list(out_of(outs, 8), ms).len(),
        trim(out_of(outs, 4)).len() > 0,
        count_lines_where(lines_seq(out_of(outs, 5)), |l: Seq<char>| nonblank(l)),
        sync_status(has_upstream, out_of(outs, 7)),
    )
}

proof fn lemma_filter_map_len<A, B>(s: Seq<A>, f: spec_fn(A) -> Option<B>)
    ensures
        filter_map(s, f).len() <= s.len(),
    decreases s.len(),
{
    if s.len() > 0 {
        lemma_filter_map_len(s.drop_last(), f);
    }
}

fn total_size_exec(sizes: &Vec<Option<u64>>) -> (r: u64)
    requires
        total_size(sizes@) <= u64::MAX,
    ensures
        r == total_size(sizes@),
{
    let mut t: u64 = 0;
    let mut i: usize = 0;
    while i < sizes.len()
        invariant
            i <= sizes@.len(),
            total_size(sizes@) <= u64::MAX,
            t == total_size(sizes@.take(i as int)),
        decreases sizes.len() - i,
    {
        proof {
            assert(sizes@.take(i + 1).drop_last() =~= sizes@.take(i as int));
            assert(sizes@.take(i + 1).last() == sizes@[i as int]);
            lemma_total_size_prefix(sizes@, i + 1);
        }
        match sizes[i] {
            Some(n) => {
                t = t + n;
            },
            None => {},
        }
        i = i + 1;
    }
    assert(sizes@.take(sizes@.len() as int) =~= sizes@);
    t
}

proof fn lemma_total_size_prefix(s: Seq<Option<u64>>, k: int)
    requires
        0 <= k <= s.len(),
    ensures
        total_size(s.take(k)) <= total_size(s),
    decreases s.len() - k,
{
    if k < s.len() {
        lemma_total_size_prefix(s, k + 1);
        assert(s.take(k + 1).drop_last() =~= s.take(k));
    } else {
        assert(s.take(k) =~= s);
    }
}

/// The overview of a repository whose name and path are given, from the
/// outputs of the overview commands (see `summary_fields`).
pub fn get_summary(
    repo_name: String,
    repo_path: String,
    outputs: &Vec<Result<String, String>>,
    sizes: &Vec<Option<u64>>,
    members: &[Member],
) -> (r: Summary)
    requires
        total_size(sizes@) <= u64::MAX,
    ensures
        r.repo_name == repo_name,
        r.repo_path == repo_path,
        ({
            let f = summary_fields(results_view(outputs@), sizes@, members_view(members@));
            &&& r.current_branch@ == f.0
            &&& r.total_commits == f.1
            &&& r.total_branches == f.2
            &&& r.total_files == f.3
            &&& r.total_size_bytes == f.4
            &&& r.total_contributors == f.5
            &&& r.has_remote == f.6
            &&& r.uncommitted_changes == f.7
            &&& (r.has_upstream, r.ahead, r.behind) == f.8
            &&& r.total_size_formatted@ == size_text(f.4)
        }),
{
    let o0 = out_exec(outputs, 0);
    let o1 = out_exec(outputs, 1);
    let o2 = out_exec(outputs, 2);
    let o3 = out_exec(outputs, 3);
    let o4 = out_exec(outputs, 4);
    let o5 = out_exec(outputs, 5);
    let o6 = out_exec(outputs, 6);
    let o7 = out_exec(outputs, 7);
    let o8 = out_exec(outputs, 8);
    let current_branch = string_of(&trim_vec(&o0));
    let total_commits = match parse_usize_exec(&trim_vec(&o1)) {
        Some(n) => n,
        None => 0,
    };
    let total_branches = count_branches(&o2);
    let files = tracked_files(string_of(&o3).as_str());
    proof {
        lemma_filter_map_len(lines_seq(o3@), |l: Seq<char>| if trim(l).len() > 0 { Some(trim(l)) } else { None });
    }
    let total_files = files.len();
    let total_size_bytes = total_size_exec(sizes);
    let has_remote = trim_vec(&o4).len() > 0;
    let uncommitted_changes = count_nonblank(&o5);
    let has_upstream = trim_vec(&o6).len() > 0;
    let sync = parse_sync_status(has_upstream, string_of(&o7).as_str());
    let contributors = process_contributor_log(string_of(&o8).as_str(), members);
    Summary {
        repo_name,
        repo_path,
        current_branch,
        total_commits,
        total_contributors: contributors.len(),
        total_branches,
        total_files,
        total_size_bytes,
        total_size_formatted: format_size(total_size_bytes),
        has_upstream: sync.has_upstream,
        ahead: sync.ahead,
        behind: sync.behind,
        has_remote,
        uncommitted_changes,
    }
}


// ---------------------------------------------------------------------------
// The repository's name

/// The name shown for a repository whose name cannot be found.
pub open spec fn unknown_repo() -> Seq<char> {
    "不明なリポジトリ"@
}

/// The position of the last `c` in `s`.
pub open spec fn last_index_of(s: Seq<char>, c: char) -> Option<int>
    decreases s.len(),
{
    if s.len() == 0 {
        None
    } else if s.last() == c {
        Some(s.len() - 1)
    } else {
        last_index_of(s.drop_last(), c)
    }
}

/// The repository name in a remote URL: what follows the last `/` of the
/// trimmed URL, `.git` removed; none without a `/` or when nothing is left.
pub open spec fn url_repo_name(url: Seq<char>) -> Option<Seq<char>> {
    let t = trim(url);
    match last_index_of(t, '/') {
        Some(pos) => {
            let name = trim_end_seq(t.skip(pos + 1), git_suffix());
            if name.len() > 0 {
                Some(name)
            } else {
                None
            }
        },
        None => None,
    }
}

/// The repository name: from the URL of `origin`, else (for an `ssh://`
/// locator) the last segment of the remote path, else the local directory's
/// name; `unknown_repo()` when the chosen source gives none.
pub open spec fn display_name(url: Option<Seq<char>>, repo_path: Seq<char>, local_name: Option<Seq<char>>) -> Seq<char> {
    let from_url = match url {
        Some(u) => url_repo_name(u),
        None => None,
    };
    if from_url is Some {
        from_url->0
    } else {
        match ssh_repo(repo_path) {
            Some((_, rp)) => match repo_name_of(rp) {
                Some(n) => n,
                None => unknown_repo(),
            },
            None => match local_name {
                Some(n) => n,
                None => unknown_repo(),
            },
        }
    }
}

fn last_index_of_exec(v: &Vec<char>, c: char) -> (r: Option<usize>)
    ensures
        r matches Some(k) ==> last_index_of(v@, c) == Some(k as int) && k < v@.len(),
        r is None ==> last_index_of(v@, c) is None,
{
    let mut k: usize = v.len();
    assert(v@.take(k as int) =~= v@);
    while k > 0
        invariant
            k <= v@.len(),
            last_index_of(v@, c) == last_index_of(v@.take(k as int), c),
        decreases k,
    {
        proof {
            assert(v@.take(k as int).drop_last() =~= v@.take(k - 1));
            assert(v@.take(k as int).last() == v@[k - 1]);
        }
        if v[k - 1] == c {
            return Some(k - 1);
        }
        k = k - 1;
    }
    None
}

/// The arguments that print the URL of `origin`.
pub fn remote_url_args() -> (r: Vec<String>)
    ensures
        strings_view(r@) == seq!["config"@, "--get"@, "remote.origin.url"@],
{
    let r = words("config", "--get", "remote.origin.url", "", 3);
    assert(seq!["config"@, "--get"@, "remote.origin.url"@, ""@].take(3) =~= seq!["config"@, "--get"@, "remote.origin.url"@]);
    r
}

/// The repository name (see `display_name`), from the result of printing the
/// URL of `origin` (a failure counts as no URL), the locator, and the name
/// of the local directory when it could be resolved.
pub fn get_repo_name(url_output: &Result<String, String>, repo_path: &str, local_name: Option<String>) -> (r: String)
    ensures
        r@ == display_name(
            match url_output {
                Ok(u) => Some(u@),
                Err(_) => None,
            },
            repo_path@,
            match local_name {
                Some(n) => Some(n@),
                None => None,
            },
        ),
{
    match url_output {
        Ok(u) => {
            let t = trim_str(u.as_str());
            match last_index_of_exec(&t, '/') {
                Some(pos) => {
                    let tail = slice_of(&t, pos + 1, t.len());
                    assert(tail@ =~= t@.skip(pos + 1));
                    let mut suffix: Vec<char> = Vec::new();
                    suffix.push('.');
                    suffix.push('g');
                    suffix.push('i');
                    suffix.push('t');
                    assert(suffix@ =~= git_suffix());
                    let name = trim_end_seq_exec(&tail, &suffix);
                    if name.len() > 0 {
                        return string_of(&name);
                    }
                },
                None => {},
            }
        },
        Err(_) => {},
    }
    match parse_ssh_repo(repo_path) {
        Some((_, rp)) => match repo_name_from_ssh_path(rp.as_str()) {
            Some(n) => n,
            None => lit("不明なリポジトリ"),
        },
        None => match local_name {
            Some(n) => n,
            None => lit("不明なリポジトリ"),
        },
    }
}

} // verus!

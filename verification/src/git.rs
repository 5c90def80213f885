//! Reading git's output: the records the dashboard shows, parsed from the
//! text that git prints, and the argument lists that produce that text.
use vstd::prelude::*;
use chrono::TimeZone;
use crate::config::Language;
use crate::i18n::{t, translate};
use crate::sort::{lemma_sort_desc_all, lemma_sort_desc_map, sort_desc, stable_sort_desc};
use crate::text::{is_digit, digit_char, lemma_filter_map_from, lemma_filter_map_picked, picked, contains_exec, contains_seq, parse_i64, parse_i64_exec, starts_with, starts_with_exec, trim_start_seq, trim_start_seq_exec, decimal, usize_to_string, seq_eq, starts_with_char, chars_of, concat, lemma_splitn_nonempty, parse_i32, parse_i32_exec, string_of, strip_prefix, strip_prefix_exec, trim_end_char, trim_end_char_exec, trim_end_seq, trim_end_seq_exec, trim_start_char, trim_start_char_exec, filter_map, parse_usize, parse_usize_exec, split_char, splitn_char, splitn_seq, trim_str, trim_vec, lemma_filter_map_all, lemma_filter_map_take, lines_seq, lines_str, split_exec, split_seq, trim, trimmed_string, vviews};

verus! {

// ---------------------------------------------------------------------------
// Records

/// One commit of a log listing.
#[derive(Clone, Debug, PartialEq, Eq)]
pub struct CommitSummary {
    pub hash: String,
    pub author: String,
    pub date: String,
    pub message: String,
}

pub struct CommitSummaryV {
    pub hash: Seq<char>,
    pub author: Seq<char>,
    pub date: Seq<char>,
    pub message: Seq<char>,
}

impl View for CommitSummary {
    type V = CommitSummaryV;

    open spec fn view(&self) -> CommitSummaryV {
        CommitSummaryV {
            hash: self.hash@,
            author: self.author@,
            date: self.date@,
            message: self.message@,
        }
    }
}

pub open spec fn commits_view(s: Seq<CommitSummary>) -> Seq<CommitSummaryV> {
    s.map_values(|c: CommitSummary| c@)
}

/// One entry of `git stash list`.
#[derive(Clone, Debug, PartialEq, Eq)]
pub struct StashEntry {
    pub ref_name: String,
    pub date_relative: String,
    pub author: String,
    pub message: String,
}

pub struct StashEntryV {
    pub ref_name: Seq<char>,
    pub date_relative: Seq<char>,
    pub author: Seq<char>,
    pub message: Seq<char>,
}

impl View for StashEntry {
    type V = StashEntryV;

    open spec fn view(&self) -> StashEntryV {
        StashEntryV {
            ref_name: self.ref_name@,
            date_relative: self.date_relative@,
            author: self.author@,
            message: self.message@,
        }
    }
}

pub open spec fn stashes_view(s: Seq<StashEntry>) -> Seq<StashEntryV> {
    s.map_values(|c: StashEntry| c@)
}

/// Upstream tracking state of the current branch.
#[derive(Clone, Debug, PartialEq, Eq)]
pub struct SyncStatus {
    pub has_upstream: bool,
    pub ahead: usize,
    pub behind: usize,
}

/// The three-character field separator of the log formats used here.
pub open spec fn field_sep() -> Seq<char> {
    seq!['|', '|', '|']
}

pub(crate) fn field_sep_exec() -> (r: Vec<char>)
    ensures
        r@ == field_sep(),
{
    let mut r = Vec::new();
    r.push('|');
    r.push('|');
    r.push('|');
    assert(r@ =~= field_sep());
    r
}

/// The fields of one line of a `|||`-separated listing.
pub open spec fn fields(line: Seq<char>) -> Seq<Seq<char>> {
    split_seq(line, field_sep())
}

// ---------------------------------------------------------------------------
// Commit log

/// The commit that a `hash|||author|||date|||subject` line describes, if it
/// has at least four fields.
pub open spec fn commit_of_line(line: Seq<char>) -> Option<CommitSummaryV> {
    let p = fields(line);
    if p.len() < 4 {
        None
    } else {
        Some(
            CommitSummaryV {
                hash: trim(p[0]),
                author: trim(p[1]),
                date: trim(p[2]),
                message: trim(p[3]),
            },
        )
    }
}

/// The commits of a log listing, in order, lines with fewer than four fields
/// left out.
pub open spec fn commit_log(out: Seq<char>) -> Seq<CommitSummaryV> {
    filter_map(lines_seq(out), |l: Seq<char>| commit_of_line(l))
}

/// Parses `git log --format=%h|||%an|||%ad|||%s` output.
pub fn parse_commit_log(log_output: &str) -> (r: Vec<CommitSummary>)
    ensures
        commits_view(r@) == commit_log(log_output@),
{
    let lines = lines_str(log_output);
    let sep = field_sep_exec();
    let ghost ls = vviews(lines@);
    let ghost f = |l: Seq<char>| commit_of_line(l);
    let mut out: Vec<CommitSummary> = Vec::new();
    let mut i: usize = 0;
    while i < lines.len()
        invariant
            i <= lines.len(),
            ls == vviews(lines@),
            sep@ == field_sep(),
            f == (|l: Seq<char>| commit_of_line(l)),
            commits_view(out@) == filter_map(ls.take(i as int), f),
        decreases lines.len() - i,
    {
        let parts = split_exec(&lines[i], &sep);
        proof {
            lemma_filter_map_take(ls, f, i as int);
            assert(ls[i as int] == lines@[i as int]@);
        }
        let ghost prev = out@;
        if parts.len() >= 4 {
            let c = CommitSummary {
                hash: trimmed_string(&parts[0]),
                author: trimmed_string(&parts[1]),
                date: trimmed_string(&parts[2]),
                message: trimmed_string(&parts[3]),
            };
            out.push(c);
            proof {
                assert(vviews(parts@)[0] == parts@[0]@);
                assert(vviews(parts@)[1] == parts@[1]@);
                assert(vviews(parts@)[2] == parts@[2]@);
                assert(vviews(parts@)[3] == parts@[3]@);
                assert(commits_view(out@) =~= commits_view(prev).push(c@));
            }
        }
        i = i + 1;
    }
    proof {
        lemma_filter_map_all(ls, f);
    }
    out
}


// ---------------------------------------------------------------------------
// Stashes

/// The stash entry that a `ref|date|author|message` line describes.
pub open spec fn stash_of_line(line: Seq<char>) -> Option<StashEntryV> {
    let p = splitn_seq(line, seq!['|'], Some(4));
    if trim(line).len() == 0 || p.len() != 4 {
        None
    } else {
        Some(
            StashEntryV {
                ref_name: trim(p[0]),
                date_relative: trim(p[1]),
                author: trim(p[2]),
                message: trim(p[3]),
            },
        )
    }
}

/// The entries of a `git stash list --format=%gd|%cr|%an|%s` listing.
pub open spec fn stash_list(out: Seq<char>) -> Seq<StashEntryV> {
    filter_map(lines_seq(out), |l: Seq<char>| stash_of_line(l))
}

/// The arguments of the stash listing command.
pub fn stash_list_args() -> (r: Vec<String>)
    ensures
        strings_view(r@) == seq!["stash"@, "list"@, "--format=%gd|%cr|%an|%s"@],
{
    let mut r = Vec::new();
    r.push(lit("stash"));
    r.push(lit("list"));
    r.push(lit("--format=%gd|%cr|%an|%s"));
    assert(strings_view(r@) =~= seq!["stash"@, "list"@, "--format=%gd|%cr|%an|%s"@]);
    r
}

/// The stash entries, from the result of running the stash listing command
/// (a failed run is passed on).
pub fn get_stash_list(output: Result<String, String>) -> (r: Result<Vec<StashEntry>, String>)
    ensures
        output matches Err(e) ==> r == Err::<Vec<StashEntry>, String>(e),
        output matches Ok(o) ==> r matches Ok(v) && stashes_view(v@) == stash_list(o@),
{
    match output {
        Err(e) => Err(e),
        Ok(o) => {
            let lines = lines_str(o.as_str());
            let ghost ls = vviews(lines@);
            let ghost f = |l: Seq<char>| stash_of_line(l);
            let mut out: Vec<StashEntry> = Vec::new();
            let mut i: usize = 0;
            while i < lines.len()
                invariant
                    i <= lines.len(),
                    ls == vviews(lines@),
                    f == (|l: Seq<char>| stash_of_line(l)),
                    stashes_view(out@) == filter_map(ls.take(i as int), f),
                decreases lines.len() - i,
            {
                proof {
                    lemma_filter_map_take(ls, f, i as int);
                    assert(ls[i as int] == lines@[i as int]@);
                }
                let t = trim_vec(&lines[i]);
                if t.len() > 0 {
                    let parts = splitn_char(&lines[i], '|', 4);
                    if parts.len() == 4 {
                        let e = StashEntry {
                            ref_name: trimmed_string(&parts[0]),
                            date_relative: trimmed_string(&parts[1]),
                            author: trimmed_string(&parts[2]),
                            message: trimmed_string(&parts[3]),
                        };
                        let ghost prev = out@;
                        out.push(e);
                        proof {
                            assert(vviews(parts@)[0] == parts@[0]@);
                            assert(vviews(parts@)[1] == parts@[1]@);
                            assert(vviews(parts@)[2] == parts@[2]@);
                            assert(vviews(parts@)[3] == parts@[3]@);
                            assert(stashes_view(out@) =~= stashes_view(prev).push(e@));
                        }
                    }
                }
                i = i + 1;
            }
            proof {
                lemma_filter_map_all(ls, f);
            }
            Ok(out)
        },
    }
}

// ---------------------------------------------------------------------------
// Upstream status

/// Ahead/behind counts from the tab-separated `rev-list --left-right --count`
/// output; zero when the output is malformed, and all zero without upstream.
pub open spec fn sync_status(has_upstream: bool, counts_out: Seq<char>) -> (bool, usize, usize) {
    let parts = split_seq(trim(counts_out), seq!['\t']);
    if !has_upstream {
        (false, 0, 0)
    } else if parts.len() == 2 {
        (true, usize_or_zero(parse_usize(parts[0])), usize_or_zero(parse_usize(parts[1])))
    } else {
        (true, 0, 0)
    }
}

pub open spec fn usize_or_zero(x: Option<usize>) -> usize {
    match x {
        Some(v) => v,
        None => 0,
    }
}

/// Parses the sync status of a branch.
pub fn parse_sync_status(has_upstream: bool, counts_out: &str) -> (r: SyncStatus)
    ensures
        (r.has_upstream, r.ahead, r.behind) == sync_status(has_upstream, counts_out@),
{
    if !has_upstream {
        return SyncStatus { has_upstream: false, ahead: 0, behind: 0 };
    }
    let t = trim_str(counts_out);
    let parts = split_char(&t, '\t');
    if parts.len() == 2 {
        proof {
            assert(vviews(parts@)[0] == parts@[0]@);
            assert(vviews(parts@)[1] == parts@[1]@);
        }
        let ahead = match parse_usize_exec(&parts[0]) {
            Some(v) => v,
            None => 0,
        };
        let behind = match parse_usize_exec(&parts[1]) {
            Some(v) => v,
            None => 0,
        };
        SyncStatus { has_upstream: true, ahead, behind }
    } else {
        SyncStatus { has_upstream: true, ahead: 0, behind: 0 }
    }
}

// ---------------------------------------------------------------------------
// Strings helpers

pub open spec fn strings_view(s: Seq<String>) -> Seq<Seq<char>> {
    s.map_values(|x: String| x@)
}

/// A string literal as an owned string.
pub fn lit(s: &str) -> (r: String)
    ensures
        r@ == s@,
{
    s.to_owned()
}

// ---------------------------------------------------------------------------
// SSH locators

/// `(host, remote path)` of an `ssh://host/abs/path` locator; `None` for
/// anything else (local paths, a missing host or path).
pub open spec fn ssh_repo(s: Seq<char>) -> Option<(Seq<char>, Seq<char>)> {
    match strip_prefix(s, "ssh://"@) {
        None => None,
        Some(rest) => {
            let p = splitn_seq(rest, seq!['/'], Some(2));
            if p.len() < 2 || p[0].len() == 0 || p[1].len() == 0 {
                None
            } else {
                Some((p[0], seq!['/'] + trim_start_char(p[1], '/')))
            }
        },
    }
}

proof fn lemma_splitn_host(h: Seq<char>, x: Seq<char>)
    requires
        forall|i: int| 0 <= i < h.len() ==> h[i] != '/',
    ensures
        splitn_seq(h + seq!['/'] + x, seq!['/'], Some(2)) == seq![h, x],
    decreases h.len(),
{
    let s = h + seq!['/'] + x;
    if h.len() == 0 {
        assert(h =~= Seq::<char>::empty());
        assert(s =~= seq!['/'] + x);
        assert(s.take(1) =~= seq!['/']);
        assert(s.skip(1) =~= x);
        assert(splitn_seq(x, seq!['/'], Some(1)) == seq![x]);
        assert(splitn_seq(s, seq!['/'], Some(2)) == seq![Seq::<char>::empty()] + splitn_seq(x, seq!['/'], Some(1)));
        assert(seq![Seq::<char>::empty()] + seq![x] =~= seq![h, x]);
    } else {
        let t = h.drop_first();
        assert forall|i: int| 0 <= i < t.len() implies t[i] != '/' by {
            assert(t[i] == h[i + 1]);
        }
        lemma_splitn_host(t, x);
        assert(s.drop_first() =~= t + seq!['/'] + x);
        assert(s[0] == h[0]);
        assert(s.take(1) != seq!['/']) by {
            assert(s.take(1)[0] == h[0]);
        }
        let r = splitn_seq(s.drop_first(), seq!['/'], Some(2));
        assert(crate::text::prepend_first(seq![s[0]], r) =~= seq![h, x]) by {
            assert(seq![h[0]] + t =~= h);
        }
    }
}

/// A locator written as `ssh://`, a host (without `/`), `/` and a path that
/// does not begin with `/` reads back as that host and the path with one
/// leading `/`.
pub proof fn lemma_ssh_repo_roundtrip(h: Seq<char>, x: Seq<char>)
    requires
        h.len() > 0,
        forall|i: int| 0 <= i < h.len() ==> h[i] != '/',
        x.len() > 0,
        x[0] != '/',
    ensures
        ssh_repo("ssh://"@ + h + seq!['/'] + x) == Some((h, seq!['/'] + x)),
{
    let pre = "ssh://"@;
    let s = pre + h + seq!['/'] + x;
    assert(s.take(pre.len() as int) =~= pre);
    assert(s.skip(pre.len() as int) =~= h + seq!['/'] + x);
    lemma_splitn_host(h, x);
}

/// Splits an `ssh://user@host/abs/path` repository locator into
/// `(host, remote path)`. Local paths return `None`.
pub fn parse_ssh_repo(repo_path: &str) -> (r: Option<(String, String)>)
    ensures
        r is Some <==> ssh_repo(repo_path@) is Some,
        r matches Some((h, p)) ==> ssh_repo(repo_path@) == Some((h@, p@)),
{
    let v = chars_of(repo_path);
    let pre = chars_of("ssh://");
    let rest = match strip_prefix_exec(&v, &pre) {
        Some(x) => x,
        None => return None,
    };
    let parts = splitn_char(&rest, '/', 2);
    proof {
        lemma_splitn_nonempty(rest@, seq!['/'], Some(2));
    }
    if parts.len() < 2 || parts[0].len() == 0 || parts[1].len() == 0 {
        proof {
            if parts.len() >= 2 {
                assert(vviews(parts@)[0] == parts@[0]@);
                assert(vviews(parts@)[1] == parts@[1]@);
            }
        }
        return None;
    }
    proof {
        assert(vviews(parts@)[0] == parts@[0]@);
        assert(vviews(parts@)[1] == parts@[1]@);
    }
    let host = string_of(&parts[0]);
    let tail = trim_start_char_exec(&parts[1], '/');
    let mut slash: Vec<char> = Vec::new();
    slash.push('/');
    let path_chars = concat(&slash, &tail);
    assert(path_chars@ =~= seq!['/'] + tail@);
    let path = string_of(&path_chars);
    Some((host, path))
}

// ---------------------------------------------------------------------------
// Shell quoting

/// `s` with every `'` written as `'\''`.
pub open spec fn escape_quotes(s: Seq<char>) -> Seq<char>
    decreases s.len(),
{
    if s.len() == 0 {
        Seq::empty()
    } else {
        escape_quotes(s.drop_last()) + (if s.last() == '\'' {
            seq!['\'', '\\', '\'', '\'']
        } else {
            seq![s.last()]
        })
    }
}

/// `s` in single quotes for a POSIX shell.
pub open spec fn shell_quoted(s: Seq<char>) -> Seq<char> {
    seq!['\''] + escape_quotes(s) + seq!['\'']
}

/// Quotes a string for the remote POSIX shell.
pub fn shell_quote(s: &str) -> (r: String)
    ensures
        r@ == shell_quoted(s@),
{
    let v = chars_of(s);
    let mut out: Vec<char> = Vec::new();
    out.push('\'');
    let mut i: usize = 0;
    assert(out@ =~= seq!['\''] + escape_quotes(v@.take(0)));
    while i < v.len()
        invariant
            i <= v.len(),
            out@ == seq!['\''] + escape_quotes(v@.take(i as int)),
        decreases v.len() - i,
    {
        let ghost prev = out@;
        if v[i] == '\'' {
            out.push('\'');
            out.push('\\');
            out.push('\'');
            out.push('\'');
        } else {
            out.push(v[i]);
        }
        proof {
            let t = v@.take(i + 1);
            assert(t.drop_last() =~= v@.take(i as int));
            assert(t.last() == v@[i as int]);
            assert(out@ =~= seq!['\''] + escape_quotes(t));
        }
        i = i + 1;
    }
    out.push('\'');
    assert(v@.take(v.len() as int) =~= v@);
    assert(out@ =~= shell_quoted(v@));
    string_of(&out)
}

// ---------------------------------------------------------------------------
// Repository names

pub open spec fn git_suffix() -> Seq<char> {
    seq!['.', 'g', 'i', 't']
}

/// The last path segment of an SSH remote path, `.git` removed; `None` when
/// that leaves nothing.
pub open spec fn repo_name_of(remote_path: Seq<char>) -> Option<Seq<char>> {
    let parts = split_seq(trim_end_char(remote_path, '/'), seq!['/']);
    let name = trim_end_seq(parts.last(), git_suffix());
    if name.len() == 0 {
        None
    } else {
        Some(name)
    }
}

/// Last path segment of an SSH remote path, used as the repository name
/// (`/home/dev/myrepo` gives `myrepo`, `/srv/app.git` gives `app`).
pub fn repo_name_from_ssh_path(remote_path: &str) -> (r: Option<String>)
    ensures
        r is Some <==> repo_name_of(remote_path@) is Some,
        r matches Some(n) ==> repo_name_of(remote_path@) == Some(n@),
{
    let v = chars_of(remote_path);
    let t = trim_end_char_exec(&v, '/');
    let parts = split_char(&t, '/');
    proof {
        lemma_splitn_nonempty(t@, seq!['/'], None);
        assert(vviews(parts@)[parts.len() - 1] == parts@[parts.len() - 1]@);
    }
    let mut suffix: Vec<char> = Vec::new();
    suffix.push('.');
    suffix.push('g');
    suffix.push('i');
    suffix.push('t');
    assert(suffix@ =~= git_suffix());
    let name = trim_end_seq_exec(&parts[parts.len() - 1], &suffix);
    if name.len() == 0 {
        None
    } else {
        Some(string_of(&name))
    }
}

// ---------------------------------------------------------------------------
// Batched command output

/// Per-command output parsing state: the results so far and the output of
/// the command that is still running.
pub struct BatchState {
    pub results: Seq<Result<Seq<char>, Seq<char>>>,
    pub buf: Seq<char>,
}

/// One line of batch output: a sentinel line `<sep><code>` ends the current
/// command (exit code 0 means success), any other line is its output.
pub open spec fn batch_step(st: BatchState, line: Seq<char>, sep: Seq<char>) -> BatchState {
    match strip_prefix(line, sep) {
        Some(code_str) => {
            let content = trim_end_char(st.buf, '\n');
            BatchState {
                results: st.results.push(
                    if parse_i32(trim(code_str)) == Some(0i32) {
                        Ok(content)
                    } else {
                        Err(content)
                    },
                ),
                buf: Seq::empty(),
            }
        },
        None => BatchState { results: st.results, buf: st.buf + line + seq!['\n'] },
    }
}

pub open spec fn batch_fold(lines: Seq<Seq<char>>, sep: Seq<char>) -> BatchState
    decreases lines.len(),
{
    if lines.len() == 0 {
        BatchState { results: Seq::empty(), buf: Seq::empty() }
    } else {
        batch_step(batch_fold(lines.drop_last(), sep), lines.last(), sep)
    }
}

/// The message for commands whose sentinel never arrived.
pub open spec fn missing_result_message(conn_err: Seq<char>) -> Seq<char> {
    if conn_err.len() == 0 {
        "SSH接続に失敗しました"@
    } else {
        conn_err
    }
}

/// Exactly `expected` per-command results: those the sentinels delimit, then
/// errors for the commands whose sentinel is missing.
pub open spec fn split_batch(stdout: Seq<char>, sep: Seq<char>, expected: nat, conn_err: Seq<char>) -> Seq<
    Result<Seq<char>, Seq<char>>,
> {
    let rs = batch_fold(lines_seq(stdout), sep).results;
    if rs.len() >= expected {
        rs.take(expected as int)
    } else {
        rs + Seq::new(
            (expected - rs.len()) as nat,
            |i: int| Err::<Seq<char>, Seq<char>>(missing_result_message(conn_err)),
        )
    }
}

/// The number of sentinel lines (lines that begin with `sep`).
pub open spec fn sentinel_count(lines: Seq<Seq<char>>, sep: Seq<char>) -> nat
    decreases lines.len(),
{
    if lines.len() == 0 {
        0
    } else {
        sentinel_count(lines.drop_last(), sep) + if starts_with(lines.last(), sep) { 1nat } else { 0nat }
    }
}

proof fn lemma_batch_fold_count(lines: Seq<Seq<char>>, sep: Seq<char>)
    ensures
        batch_fold(lines, sep).results.len() == sentinel_count(lines, sep),
    decreases lines.len(),
{
    if lines.len() > 0 {
        lemma_batch_fold_count(lines.drop_last(), sep);
    }
}

/// The split of batch output gives one result per command: the results
/// the sentinel lines close, in order, and for each command past the last
/// sentinel the connection failure (`missing_result_message`).
pub proof fn lemma_split_batch_results(stdout: Seq<char>, sep: Seq<char>, expected: nat, conn_err: Seq<char>)
    ensures
        ({
            let r = split_batch(stdout, sep, expected, conn_err);
            let k = sentinel_count(lines_seq(stdout), sep);
            let rs = batch_fold(lines_seq(stdout), sep).results;
            &&& r.len() == expected
            &&& rs.len() == k
            &&& forall|i: int| 0 <= i < expected && i < k ==> #[trigger] r[i] == rs[i]
            &&& forall|i: int| k <= i < expected ==> #[trigger] r[i] == Err::<Seq<char>, Seq<char>>(
                missing_result_message(conn_err),
            )
        }),
{
    lemma_batch_fold_count(lines_seq(stdout), sep);
}

pub open spec fn result_view(r: Result<String, String>) -> Result<Seq<char>, Seq<char>> {
    match r {
        Ok(x) => Ok(x@),
        Err(e) => Err(e@),
    }
}

pub open spec fn results_view(s: Seq<Result<String, String>>) -> Seq<Result<Seq<char>, Seq<char>>> {
    s.map_values(|r: Result<String, String>| result_view(r))
}

/// Splits sentinel-delimited batch stdout into one result per command.
pub fn split_batch_output(stdout: &str, sep: &str, expected: usize, conn_err: &str) -> (r: Vec<
    Result<String, String>,
>)
    ensures
        results_view(r@) == split_batch(stdout@, sep@, expected as nat, conn_err@),
        r@.len() == expected,
{
    let lines = lines_str(stdout);
    let sepv = chars_of(sep);
    let ghost ls = vviews(lines@);
    let mut results: Vec<Result<String, String>> = Vec::new();
    let mut buf: Vec<char> = Vec::new();
    let mut i: usize = 0;
    assert(results_view(results@) =~= batch_fold(ls.take(0), sep@).results);
    assert(buf@ =~= batch_fold(ls.take(0), sep@).buf);
    while i < lines.len()
        invariant
            i <= lines.len(),
            ls == vviews(lines@),
            sepv@ == sep@,
            results_view(results@) == batch_fold(ls.take(i as int), sep@).results,
            buf@ == batch_fold(ls.take(i as int), sep@).buf,
        decreases lines.len() - i,
    {
        proof {
            assert(ls.take(i + 1).drop_last() =~= ls.take(i as int));
            assert(ls.take(i + 1).last() == lines@[i as int]@);
        }
        match strip_prefix_exec(&lines[i], &sepv) {
            Some(code_str) => {
                let code_t = trim_vec(&code_str);
                let code = parse_i32_exec(&code_t);
                let content_v = trim_end_char_exec(&buf, '\n');
                let content = string_of(&content_v);
                let ghost prev = results@;
                if code == Some(0i32) {
                    results.push(Ok(content));
                } else {
                    results.push(Err(content));
                }
                buf = Vec::new();
                proof {
                    assert(results_view(results@) =~= results_view(prev).push(
                        result_view(results@[prev.len() as int]),
                    ));
                    assert(buf@ =~= Seq::<char>::empty());
                }
            },
            None => {
                let mut nb = concat(&buf, &lines[i]);
                nb.push('\n');
                buf = nb;
            },
        }
        i = i + 1;
    }
    proof {
        assert(ls.take(lines.len() as int) =~= ls);
    }
    let ghost rs = results_view(results@);
    if results.len() < expected {
        let msg_v = if conn_err.is_empty() {
            chars_of("SSH接続に失敗しました")
        } else {
            chars_of(conn_err)
        };
        let start = results.len();
        assert(results_view(results@) =~= rs + Seq::new(
            0,
            |i: int| Err::<Seq<char>, Seq<char>>(missing_result_message(conn_err@)),
        ));
        while results.len() < expected
            invariant
                start <= results.len() <= expected,
                start == rs.len(),
                msg_v@ == missing_result_message(conn_err@),
                results_view(results@) == rs + Seq::new(
                    (results.len() - start) as nat,
                    |i: int| Err::<Seq<char>, Seq<char>>(missing_result_message(conn_err@)),
                ),
            decreases expected - results.len(),
        {
            let ghost prev = results@;
            let e = string_of(&msg_v);
            results.push(Err(e));
            proof {
                assert(result_view(results@[results.len() - 1]) == Err::<Seq<char>, Seq<char>>(
                    missing_result_message(conn_err@),
                ));
                assert(results_view(results@) =~= results_view(prev).push(
                    Err::<Seq<char>, Seq<char>>(missing_result_message(conn_err@)),
                ));
                assert(results_view(results@) =~= rs + Seq::new(
                    (results.len() - start) as nat,
                    |i: int| Err::<Seq<char>, Seq<char>>(missing_result_message(conn_err@)),
                ));
            }
        }
        results
    } else {
        results.truncate(expected);
        assert(results_view(results@) =~= rs.take(expected as int));
        results
    }
}

// ---------------------------------------------------------------------------
// Refs and diff arguments

/// The error for a ref that git would read as an option.
pub open spec fn unsafe_ref_message(r: Seq<char>) -> Seq<char> {
    "Git ref cannot start with '-': "@ + r
}

pub open spec fn is_unsafe_ref(r: Seq<char>) -> bool {
    r.len() > 0 && r[0] == '-'
}

/// Refuses a ref that starts with `-`.
pub fn check_safe_ref(r: &str) -> (res: Result<(), String>)
    ensures
        is_unsafe_ref(r@) ==> (res matches Err(e) && e@ == unsafe_ref_message(r@)),
        !is_unsafe_ref(r@) ==> res is Ok,
{
    let v = chars_of(r);
    if starts_with_char(&v, '-') {
        let pre = chars_of("Git ref cannot start with '-': ");
        let msg = concat(&pre, &v);
        Err(string_of(&msg))
    } else {
        Ok(())
    }
}

/// `check_safe_ref` on an optional ref.
pub fn check_safe_ref_opt(r: Option<&str>) -> (res: Result<(), String>)
    ensures
        (r matches Some(x) && is_unsafe_ref(x@)) ==> (res matches Err(e) && e@
            == unsafe_ref_message(r->0@)),
        !(r matches Some(x) && is_unsafe_ref(x@)) ==> res is Ok,
{
    match r {
        Some(s) => check_safe_ref(s),
        None => Ok(()),
    }
}

/// The revision range of a comparison: `base...target` (changes on target
/// since the merge base), `base..target`, or `target^..target` for a single
/// commit, where the three-dot flag does not apply.
pub open spec fn diff_range_spec(base: Option<Seq<char>>, target: Seq<char>, three_dot: bool) -> Seq<
    Seq<char>,
> {
    match base {
        Some(b) => if three_dot {
            seq![b + "..."@ + target]
        } else {
            seq![b + ".."@ + target]
        },
        None => seq![target + "^.."@ + target],
    }
}

pub open spec fn opt_view(o: Option<&str>) -> Option<Seq<char>> {
    match o {
        Some(s) => Some(s@),
        None => None,
    }
}

/// The revision range of a comparison.
pub fn diff_range(base: Option<&str>, target: &str, three_dot: bool) -> (r: Vec<String>)
    ensures
        strings_view(r@) == diff_range_spec(opt_view(base), target@, three_dot),
{
    let t = chars_of(target);
    let s = match base {
        Some(b) => {
            let bv = chars_of(b);
            let mid = if three_dot {
                chars_of("...")
            } else {
                chars_of("..")
            };
            let x = concat(&bv, &mid);
            concat(&x, &t)
        },
        None => {
            let mid = chars_of("^..");
            let x = concat(&t, &mid);
            concat(&x, &t)
        },
    };
    let mut r = Vec::new();
    r.push(string_of(&s));
    assert(strings_view(r@) =~= diff_range_spec(opt_view(base), target@, three_dot));
    r
}

/// `diff`, the extra options, the range, `--`, then the paths.
pub open spec fn diff_args_spec(range: Seq<Seq<char>>, extra: Seq<Seq<char>>, paths: Seq<Seq<char>>) -> Seq<
    Seq<char>,
> {
    seq!["diff"@] + extra + range + seq!["--"@] + paths
}

fn append_strings(out: &mut Vec<String>, xs: &Vec<String>)
    ensures
        strings_view(final(out)@) == strings_view(old(out)@) + strings_view(xs@),
{
    let ghost start = strings_view(out@);
    let mut i: usize = 0;
    while i < xs.len()
        invariant
            i <= xs.len(),
            strings_view(out@) == start + strings_view(xs@).take(i as int),
        decreases xs.len() - i,
    {
        let x = xs[i].clone();
        let ghost prev = strings_view(out@);
        out.push(x);
        assert(strings_view(out@) =~= prev.push(xs@[i as int]@));
        i = i + 1;
        assert(strings_view(out@) =~= start + strings_view(xs@).take(i as int));
    }
    assert(strings_view(xs@).take(xs.len() as int) =~= strings_view(xs@));
}

/// The arguments of a `git diff` over a range.
pub(crate) fn build_diff_args(range: &Vec<String>, extra: &Vec<String>, paths: &Vec<String>) -> (r: Vec<String>)
    ensures
        strings_view(r@) == diff_args_spec(strings_view(range@), strings_view(extra@), strings_view(paths@)),
{
    let mut r = Vec::new();
    r.push(lit("diff"));
    assert(strings_view(r@) =~= seq!["diff"@]);
    append_strings(&mut r, extra);
    append_strings(&mut r, range);
    let ghost mid = strings_view(r@);
    r.push(lit("--"));
    assert(strings_view(r@) =~= mid + seq!["--"@]);
    append_strings(&mut r, paths);
    assert(strings_view(r@) =~= diff_args_spec(
        strings_view(range@),
        strings_view(extra@),
        strings_view(paths@),
    ));
    r
}

/// The range compared: the working tree against `HEAD`, or `diff_range`.
pub open spec fn compare_range(base: Option<Seq<char>>, target: Seq<char>, three_dot: bool) -> Seq<
    Seq<char>,
> {
    if target == "WORKING_TREE"@ {
        seq!["HEAD"@]
    } else {
        diff_range_spec(base, target, three_dot)
    }
}

pub(crate) fn compare_range_exec(base: Option<&str>, target: &str, three_dot: bool) -> (r: Vec<String>)
    ensures
        strings_view(r@) == compare_range(opt_view(base), target@, three_dot),
{
    let t = chars_of(target);
    let wt = chars_of("WORKING_TREE");
    if seq_eq(&t, &wt) {
        let mut r = Vec::new();
        r.push(lit("HEAD"));
        assert(strings_view(r@) =~= seq!["HEAD"@]);
        r
    } else {
        diff_range(base, target, three_dot)
    }
}

/// Either ref starts with `-`.
pub open spec fn refs_unsafe(base: Option<Seq<char>>, target: Seq<char>) -> bool {
    (base matches Some(b) && is_unsafe_ref(b)) || is_unsafe_ref(target)
}

/// The error for unsafe refs (the base is checked first).
pub open spec fn refs_error(base: Option<Seq<char>>, target: Seq<char>) -> Seq<char> {
    match base {
        Some(b) => if is_unsafe_ref(b) {
            unsafe_ref_message(b)
        } else {
            unsafe_ref_message(target)
        },
        None => unsafe_ref_message(target),
    }
}

pub(crate) fn check_refs(base: Option<&str>, target: &str) -> (res: Result<(), String>)
    ensures
        refs_unsafe(opt_view(base), target@) ==> (res matches Err(e) && e@ == refs_error(
            opt_view(base),
            target@,
        )),
        !refs_unsafe(opt_view(base), target@) ==> res is Ok,
{
    match check_safe_ref_opt(base) {
        Err(e) => return Err(e),
        Ok(()) => {},
    }
    check_safe_ref(target)
}

// ---------------------------------------------------------------------------
// Changed files

/// One changed file of a comparison.
#[derive(Clone, Debug, PartialEq, Eq)]
pub struct ChangedFile {
    /// "M", "A", "D", "R", ... (the first letter of git's status)
    pub status: String,
    /// Display path (the new path for renames)
    pub path: String,
    pub old_path: Option<String>,
    pub additions: usize,
    pub deletions: usize,
}

pub struct ChangedFileV {
    pub status: Seq<char>,
    pub path: Seq<char>,
    pub old_path: Option<Seq<char>>,
    pub additions: usize,
    pub deletions: usize,
}

pub open spec fn opt_string_view(o: Option<String>) -> Option<Seq<char>> {
    match o {
        Some(s) => Some(s@),
        None => None,
    }
}

impl View for ChangedFile {
    type V = ChangedFileV;

    open spec fn view(&self) -> ChangedFileV {
        ChangedFileV {
            status: self.status@,
            path: self.path@,
            old_path: opt_string_view(self.old_path),
            additions: self.additions,
            deletions: self.deletions,
        }
    }
}

pub open spec fn changed_view(s: Seq<ChangedFile>) -> Seq<ChangedFileV> {
    s.map_values(|c: ChangedFile| c@)
}

/// `(path, additions, deletions)` of a `git diff --numstat` line; counts that
/// do not parse (binary files print `-`) are zero.
pub open spec fn numstat_of_line(line: Seq<char>) -> Option<(Seq<char>, usize, usize)> {
    let p = splitn_seq(line, seq!['\t'], Some(3));
    if p.len() < 3 {
        None
    } else {
        Some(
            (
                trim(p[2]),
                usize_or_zero(parse_usize(trim(p[0]))),
                usize_or_zero(parse_usize(trim(p[1]))),
            ),
        )
    }
}

pub open spec fn numstat_entries(numstat: Seq<char>) -> Seq<(Seq<char>, usize, usize)> {
    filter_map(lines_seq(numstat), |l: Seq<char>| numstat_of_line(l))
}

/// The counts of the last numstat entry for `path`, or zeros.
pub open spec fn lookup_counts(entries: Seq<(Seq<char>, usize, usize)>, path: Seq<char>) -> (
    usize,
    usize,
)
    decreases entries.len(),
{
    if entries.len() == 0 {
        (0, 0)
    } else if entries.last().0 == path {
        (entries.last().1, entries.last().2)
    } else {
        lookup_counts(entries.drop_last(), path)
    }
}

/// The single-letter status of a name-status line: `R` for any rename
/// score, else the first character, `?` for none.
pub open spec fn change_status(raw: Seq<char>) -> Seq<char> {
    if raw.len() > 0 && raw[0] == 'R' {
        seq!['R']
    } else if raw.len() > 0 {
        seq![raw[0]]
    } else {
        seq!['?']
    }
}

/// The changed file of a `git diff --name-status` line.
pub open spec fn changed_of_line(line: Seq<char>, entries: Seq<(Seq<char>, usize, usize)>) -> Option<
    ChangedFileV,
> {
    let p = splitn_seq(line, seq!['\t'], Some(3));
    let status = change_status(trim(p[0]));
    let po: Option<(Seq<char>, Option<Seq<char>>)> = if status == seq!['R'] && p.len() >= 3 {
        Some((trim(p[2]), Some(trim(p[1]))))
    } else if p.len() >= 2 {
        Some((trim(p[1]), None))
    } else {
        None
    };
    match po {
        None => None,
        Some((path, old)) => {
            let c = lookup_counts(entries, path);
            Some(
                ChangedFileV {
                    status: status,
                    path: path,
                    old_path: old,
                    additions: c.0,
                    deletions: c.1,
                },
            )
        },
    }
}

/// The changed files of a comparison: one per name-status line, with the
/// counts of the numstat line for the same path.
pub open spec fn changed_files(name_status: Seq<char>, numstat: Seq<char>) -> Seq<ChangedFileV> {
    let entries = numstat_entries(numstat);
    filter_map(lines_seq(name_status), |l: Seq<char>| changed_of_line(l, entries))
}

pub open spec fn entries_view(s: Seq<(Vec<char>, usize, usize)>) -> Seq<(Seq<char>, usize, usize)> {
    s.map_values(|e: (Vec<char>, usize, usize)| (e.0@, e.1, e.2))
}

fn lookup_counts_exec(entries: &Vec<(Vec<char>, usize, usize)>, path: &Vec<char>) -> (r: (
    usize,
    usize,
))
    ensures
        r == lookup_counts(entries_view(entries@), path@),
{
    let ghost es = entries_view(entries@);
    let mut j = entries.len();
    assert(es.take(j as int) =~= es);
    while j > 0
        invariant
            j <= entries.len(),
            es == entries_view(entries@),
            lookup_counts(es, path@) == lookup_counts(es.take(j as int), path@),
        decreases j,
    {
        proof {
            let t = es.take(j as int);
            assert(t.drop_last() =~= es.take(j - 1));
            assert(t.last() == es[j - 1]);
        }
        if seq_eq(&entries[j - 1].0, path) {
            return (entries[j - 1].1, entries[j - 1].2);
        }
        j = j - 1;
    }
    (0, 0)
}

/// Parses `git diff --name-status` and `git diff --numstat` output into the
/// list of changed files.
pub fn parse_changed_files(name_status: &str, numstat: &str) -> (r: Vec<ChangedFile>)
    ensures
        changed_view(r@) == changed_files(name_status@, numstat@),
{
    let nlines = lines_str(numstat);
    let ghost nls = vviews(nlines@);
    let ghost nf = |l: Seq<char>| numstat_of_line(l);
    let mut entries: Vec<(Vec<char>, usize, usize)> = Vec::new();
    let mut i: usize = 0;
    while i < nlines.len()
        invariant
            i <= nlines.len(),
            nls == vviews(nlines@),
            nf == (|l: Seq<char>| numstat_of_line(l)),
            entries_view(entries@) == filter_map(nls.take(i as int), nf),
        decreases nlines.len() - i,
    {
        proof {
            lemma_filter_map_take(nls, nf, i as int);
            assert(nls[i as int] == nlines@[i as int]@);
        }
        let parts = splitn_char(&nlines[i], '\t', 3);
        if parts.len() >= 3 {
            proof {
                assert(vviews(parts@)[0] == parts@[0]@);
                assert(vviews(parts@)[1] == parts@[1]@);
                assert(vviews(parts@)[2] == parts@[2]@);
            }
            let add = match parse_usize_exec(&trim_vec(&parts[0])) {
                Some(v) => v,
                None => 0,
            };
            let del = match parse_usize_exec(&trim_vec(&parts[1])) {
                Some(v) => v,
                None => 0,
            };
            let path = trim_vec(&parts[2]);
            let ghost prev = entries@;
            entries.push((path, add, del));
            proof {
                assert(entries_view(entries@) =~= entries_view(prev).push((path@, add, del)));
            }
        }
        i = i + 1;
    }
    proof {
        lemma_filter_map_all(nls, nf);
    }
    let ghost es = entries_view(entries@);
    let lines = lines_str(name_status);
    let ghost ls = vviews(lines@);
    let ghost f = |l: Seq<char>| changed_of_line(l, es);
    let mut files: Vec<ChangedFile> = Vec::new();
    let mut i: usize = 0;
    while i < lines.len()
        invariant
            i <= lines.len(),
            ls == vviews(lines@),
            es == entries_view(entries@),
            es == numstat_entries(numstat@),
            f == (|l: Seq<char>| changed_of_line(l, es)),
            changed_view(files@) == filter_map(ls.take(i as int), f),
        decreases lines.len() - i,
    {
        proof {
            lemma_filter_map_take(ls, f, i as int);
            assert(ls[i as int] == lines@[i as int]@);
        }
        let parts = splitn_char(&lines[i], '\t', 3);
        proof {
            lemma_splitn_nonempty(lines@[i as int]@, seq!['\t'], Some(3));
            assert(vviews(parts@)[0] == parts@[0]@);
            if parts.len() >= 2 {
                assert(vviews(parts@)[1] == parts@[1]@);
            }
            if parts.len() >= 3 {
                assert(vviews(parts@)[2] == parts@[2]@);
            }
        }
        let raw = trim_vec(&parts[0]);
        let is_rename = raw.len() > 0 && raw[0] == 'R';
        let status: Vec<char> = if is_rename {
            let mut s = Vec::new();
            s.push('R');
            s
        } else if raw.len() > 0 {
            let mut s = Vec::new();
            s.push(raw[0]);
            s
        } else {
            let mut s = Vec::new();
            s.push('?');
            s
        };
        proof {
            assert(status@ =~= change_status(raw@));
            assert(is_rename == (status@ == seq!['R'])) by {
                if !is_rename && raw.len() > 0 {
                    assert(status@[0] != 'R');
                }
                if raw.len() == 0 {
                    assert(status@[0] == '?');
                }
            }
        }
        let po: Option<(Vec<char>, Option<String>)> = if is_rename && parts.len() >= 3 {
            Some((trim_vec(&parts[2]), Some(trimmed_string(&parts[1]))))
        } else if parts.len() >= 2 {
            Some((trim_vec(&parts[1]), None))
        } else {
            None
        };
        match po {
            Some((path, old)) => {
                let counts = lookup_counts_exec(&entries, &path);
                let c = ChangedFile {
                    status: string_of(&status),
                    path: string_of(&path),
                    old_path: old,
                    additions: counts.0,
                    deletions: counts.1,
                };
                let ghost prev = files@;
                files.push(c);
                proof {
                    assert(changed_view(files@) =~= changed_view(prev).push(c@));
                }
            },
            None => {},
        }
        i = i + 1;
    }
    proof {
        lemma_filter_map_all(ls, f);
    }
    files
}

/// The two diff commands (name-status, numstat) that list the files changed
/// between the base (or the target's parent) and the target; refs starting
/// with `-` are refused.
pub fn get_changed_files_args(base: Option<&str>, target: &str, three_dot: bool) -> (r: Result<
    (Vec<String>, Vec<String>),
    String,
>)
    ensures
        refs_unsafe(opt_view(base), target@) ==> (r matches Err(e) && e@ == refs_error(
            opt_view(base),
            target@,
        )),
        !refs_unsafe(opt_view(base), target@) ==> (r matches Ok((ns, num)) && strings_view(ns@)
            == diff_args_spec(
            compare_range(opt_view(base), target@, three_dot),
            seq!["--name-status"@, "--find-renames"@],
            Seq::empty(),
        ) && strings_view(num@) == diff_args_spec(
            compare_range(opt_view(base), target@, three_dot),
            seq!["--numstat"@, "--find-renames"@],
            Seq::empty(),
        )),
{
    match check_refs(base, target) {
        Err(e) => return Err(e),
        Ok(()) => {},
    }
    let range = compare_range_exec(base, target, three_dot);
    let mut ns_extra = Vec::new();
    ns_extra.push(lit("--name-status"));
    ns_extra.push(lit("--find-renames"));
    let mut num_extra = Vec::new();
    num_extra.push(lit("--numstat"));
    num_extra.push(lit("--find-renames"));
    let no_paths: Vec<String> = Vec::new();
    assert(strings_view(ns_extra@) =~= seq!["--name-status"@, "--find-renames"@]);
    assert(strings_view(num_extra@) =~= seq!["--numstat"@, "--find-renames"@]);
    assert(strings_view(no_paths@) =~= Seq::<Seq<char>>::empty());
    let ns = build_diff_args(&range, &ns_extra, &no_paths);
    let num = build_diff_args(&range, &num_extra, &no_paths);
    Ok((ns, num))
}

/// The output of a command, empty when it failed.
pub open spec fn output_or_empty(r: Result<String, String>) -> Seq<char> {
    match r {
        Ok(s) => s@,
        Err(_) => Seq::empty(),
    }
}

/// The changed files, from the results of the two commands of
/// `get_changed_files_args` (a failed command counts as empty output).
pub fn get_changed_files(name_status: Result<String, String>, numstat: Result<String, String>) -> (r:
    Vec<ChangedFile>)
    ensures
        changed_view(r@) == changed_files(output_or_empty(name_status), output_or_empty(numstat)),
{
    let ns = match name_status {
        Ok(s) => s,
        Err(_) => String::new(),
    };
    let num = match numstat {
        Ok(s) => s,
        Err(_) => String::new(),
    };
    parse_changed_files(ns.as_str(), num.as_str())
}

// ---------------------------------------------------------------------------
// Simple commands

/// The arguments of the 30 most recent commits listing.
pub open spec fn recent_commits_args_spec() -> Seq<Seq<char>> {
    seq!["log"@, "-n"@, "30"@, "--format=%h|||%an|||%ad|||%s"@, "--date=format:%Y-%m-%d %H:%M"@]
}

/// The arguments of the 200-commit listing of the diff selector.
pub open spec fn diff_commits_args_spec() -> Seq<Seq<char>> {
    seq!["log"@, "-n"@, "200"@, "--format=%h|||%an|||%ad|||%s"@, "--date=format:%Y-%m-%d %H:%M"@]
}

pub fn get_recent_commits_args() -> (r: Vec<String>)
    ensures
        strings_view(r@) == recent_commits_args_spec(),
{
    let mut r = Vec::new();
    r.push(lit("log"));
    r.push(lit("-n"));
    r.push(lit("30"));
    r.push(lit("--format=%h|||%an|||%ad|||%s"));
    r.push(lit("--date=format:%Y-%m-%d %H:%M"));
    assert(strings_view(r@) =~= recent_commits_args_spec());
    r
}

pub fn get_commits_for_diff_args() -> (r: Vec<String>)
    ensures
        strings_view(r@) == diff_commits_args_spec(),
{
    let mut r = Vec::new();
    r.push(lit("log"));
    r.push(lit("-n"));
    r.push(lit("200"));
    r.push(lit("--format=%h|||%an|||%ad|||%s"));
    r.push(lit("--date=format:%Y-%m-%d %H:%M"));
    assert(strings_view(r@) =~= diff_commits_args_spec());
    r
}

/// The recent commits, from the result of the command of
/// `get_recent_commits_args` (a failed run is passed on).
pub fn get_recent_commits(output: Result<String, String>) -> (r: Result<Vec<CommitSummary>, String>)
    ensures
        output matches Err(e) ==> r == Err::<Vec<CommitSummary>, String>(e),
        output matches Ok(o) ==> (r matches Ok(v) && commits_view(v@) == commit_log(o@)),
{
    match output {
        Err(e) => Err(e),
        Ok(o) => Ok(parse_commit_log(o.as_str())),
    }
}

/// The commits of the diff selector, from the result of the command of
/// `get_commits_for_diff_args` (a failed run is passed on).
pub fn get_commits_for_diff(output: Result<String, String>) -> (r: Result<Vec<CommitSummary>, String>)
    ensures
        output matches Err(e) ==> r == Err::<Vec<CommitSummary>, String>(e),
        output matches Ok(o) ==> (r matches Ok(v) && commits_view(v@) == commit_log(o@)),
{
    match output {
        Err(e) => Err(e),
        Ok(o) => Ok(parse_commit_log(o.as_str())),
    }
}

/// A command whose single ref must not start with `-`: `prefix` then the ref.
pub open spec fn ref_command(prefix: Seq<Seq<char>>, r: Seq<char>) -> Result<Seq<Seq<char>>, Seq<char>> {
    if is_unsafe_ref(r) {
        Err(unsafe_ref_message(r))
    } else {
        Ok(prefix.push(r))
    }
}

pub open spec fn args_result_view(r: Result<Vec<String>, String>) -> Result<Seq<Seq<char>>, Seq<char>> {
    match r {
        Ok(v) => Ok(strings_view(v@)),
        Err(e) => Err(e@),
    }
}

fn ref_command_exec(a: &str, b: &str, r: &str) -> (res: Result<Vec<String>, String>)
    ensures
        args_result_view(res) == ref_command(seq![a@, b@], r@),
{
    match check_safe_ref(r) {
        Err(e) => Err(e),
        Ok(()) => {
            let mut v = Vec::new();
            v.push(lit(a));
            v.push(lit(b));
            v.push(lit(r));
            assert(strings_view(v@) =~= seq![a@, b@].push(r@));
            Ok(v)
        },
    }
}

/// The command showing a commit's header and message (`show -s <hash>`).
pub fn get_commit_show(hash: &str) -> (r: Result<Vec<String>, String>)
    ensures
        args_result_view(r) == ref_command(seq!["show"@, "-s"@], hash@),
{
    ref_command_exec("show", "-s", hash)
}

/// The command applying a stash.
pub fn apply_stash(ref_name: &str) -> (r: Result<Vec<String>, String>)
    ensures
        args_result_view(r) == ref_command(seq!["stash"@, "apply"@], ref_name@),
{
    ref_command_exec("stash", "apply", ref_name)
}

/// The command popping a stash.
pub fn pop_stash(ref_name: &str) -> (r: Result<Vec<String>, String>)
    ensures
        args_result_view(r) == ref_command(seq!["stash"@, "pop"@], ref_name@),
{
    ref_command_exec("stash", "pop", ref_name)
}

/// The command dropping a stash.
pub fn drop_stash(ref_name: &str) -> (r: Result<Vec<String>, String>)
    ensures
        args_result_view(r) == ref_command(seq!["stash"@, "drop"@], ref_name@),
{
    ref_command_exec("stash", "drop", ref_name)
}

/// The graph log format of the branch view.
pub open spec fn oneline_format() -> Seq<char> {
    "--pretty=format:%C(auto)%h%C(reset)%C(auto)%d%C(reset) %s %C(dim)(%cr, %an)%C(reset)"@
}

/// The command of a branch's commit graph (`log <branch> -n <limit> --graph ...`).
pub open spec fn branch_log_command(branch: Seq<char>, limit: nat) -> Result<Seq<Seq<char>>, Seq<char>> {
    if is_unsafe_ref(branch) {
        Err(unsafe_ref_message(branch))
    } else {
        Ok(
            seq![
                "log"@,
                branch,
                "-n"@,
                decimal(limit),
                "--graph"@,
                "--decorate"@,
                "--color=always"@,
                oneline_format(),
            ],
        )
    }
}

/// The command of a branch's commit graph.
pub fn get_branch_oneline_log(branch_name: &str, limit: usize) -> (r: Result<Vec<String>, String>)
    ensures
        args_result_view(r) == branch_log_command(branch_name@, limit as nat),
{
    match check_safe_ref(branch_name) {
        Err(e) => Err(e),
        Ok(()) => {
            let mut v = Vec::new();
            v.push(lit("log"));
            v.push(lit(branch_name));
            v.push(lit("-n"));
            v.push(usize_to_string(limit));
            v.push(lit("--graph"));
            v.push(lit("--decorate"));
            v.push(lit("--color=always"));
            v.push(
                lit(
                    "--pretty=format:%C(auto)%h%C(reset)%C(auto)%d%C(reset) %s %C(dim)(%cr, %an)%C(reset)",
                ),
            );
            assert(strings_view(v@) =~= branch_log_command(branch_name@, limit as nat)->Ok_0);
            Ok(v)
        },
    }
}

/// The command that succeeds inside a work tree.
pub fn is_git_repo_args() -> (r: Vec<String>)
    ensures
        strings_view(r@) == seq!["rev-parse"@, "--is-inside-work-tree"@],
{
    let mut r = Vec::new();
    r.push(lit("rev-parse"));
    r.push(lit("--is-inside-work-tree"));
    assert(strings_view(r@) =~= seq!["rev-parse"@, "--is-inside-work-tree"@]);
    r
}

/// A path is a git repository when the command of `is_git_repo_args` succeeds.
pub fn is_git_repo(output: &Result<String, String>) -> (r: bool)
    ensures
        r == output is Ok,
{
    output.is_ok()
}

// ---------------------------------------------------------------------------
// Pull and fetch

/// How a command that the app ran ended: it ran to completion (with its exit
/// status and output), or it could not be run or timed out (`Err`).
#[derive(Clone, Debug, PartialEq, Eq)]
pub struct CommandOutcome {
    pub success: bool,
    pub stdout: String,
    pub stderr: String,
}

/// What the library asks for next: a git command to run (network commands
/// get the longer time limit), or the final outcome.
#[derive(Debug, PartialEq, Eq)]
pub enum SyncAction {
    Run { args: Vec<String>, network: bool },
    Finish(Result<String, String>),
}

/// Where a pull or fetch stands: which command's outcome it waits for.
#[derive(Clone, Copy, Debug, PartialEq, Eq, Structural)]
pub enum SyncStage {
    AwaitRemotes,
    AwaitUpstream,
    AwaitTransfer,
    Done,
}

pub open spec fn sync_action_view(a: SyncAction) -> Result<(Seq<Seq<char>>, bool), Result<Seq<char>, Seq<char>>> {
    match a {
        SyncAction::Run { args, network } => Ok((strings_view(args@), network)),
        SyncAction::Finish(r) => Err(result_view(r)),
    }
}

/// The output of a command as `run_git_cmd` reports it: stdout on success,
/// nothing otherwise.
pub open spec fn ran_ok_output(o: Result<CommandOutcome, String>) -> Option<Seq<char>> {
    match o {
        Ok(c) => if c.success {
            Some(c.stdout@)
        } else {
            None
        },
        Err(_) => None,
    }
}

/// The message of a failed pull or fetch: its stderr, or its stdout when
/// stderr is blank.
pub open spec fn failure_text(c: CommandOutcome) -> Seq<char> {
    if trim(c.stderr@).len() == 0 {
        trim(c.stdout@)
    } else {
        trim(c.stderr@)
    }
}

/// The steps of a pull: list the remotes (none: refused), check the upstream
/// branch (none: refused), then pull; the pull's output, or "already up to
/// date" when it printed nothing.
pub open spec fn pull_step_spec(stage: SyncStage, lang: Language, o: Result<CommandOutcome, String>) -> (
    SyncStage,
    Result<(Seq<Seq<char>>, bool), Result<Seq<char>, Seq<char>>>,
) {
    match stage {
        SyncStage::AwaitRemotes => {
            let remotes = match ran_ok_output(o) {
                Some(s) => s,
                None => Seq::empty(),
            };
            if trim(remotes).len() == 0 {
                (SyncStage::Done, Err(Err(translate(lang, "git_no_remote_pull"@))))
            } else {
                (SyncStage::AwaitUpstream, Ok((seq!["rev-parse"@, "--abbrev-ref"@, "@{u}"@], false)))
            }
        },
        SyncStage::AwaitUpstream => {
            if ran_ok_output(o) is None {
                (SyncStage::Done, Err(Err(translate(lang, "git_no_upstream"@))))
            } else {
                (SyncStage::AwaitTransfer, Ok((seq!["pull"@], true)))
            }
        },
        SyncStage::AwaitTransfer => {
            match o {
                Err(e) => (SyncStage::Done, Err(Err("git pull: "@ + e@))),
                Ok(c) => if c.success {
                    if trim(c.stdout@).len() == 0 {
                        (SyncStage::Done, Err(Ok(translate(lang, "git_already_up_to_date"@))))
                    } else {
                        (SyncStage::Done, Err(Ok(trim(c.stdout@))))
                    }
                } else {
                    (SyncStage::Done, Err(Err(failure_text(c))))
                },
            }
        },
        SyncStage::Done => (SyncStage::Done, Err(Err(Seq::empty()))),
    }
}

/// The first command of a pull or fetch: list the remotes.
pub fn sync_start() -> (r: (SyncStage, SyncAction))
    ensures
        r.0 == SyncStage::AwaitRemotes,
        sync_action_view(r.1) == Ok::<(Seq<Seq<char>>, bool), Result<Seq<char>, Seq<char>>>(
            (seq!["remote"@], false),
        ),
{
    let mut args = Vec::new();
    args.push(lit("remote"));
    assert(strings_view(args@) =~= seq!["remote"@]);
    (SyncStage::AwaitRemotes, SyncAction::Run { args, network: false })
}

fn ran_ok_exec(o: &Result<CommandOutcome, String>) -> (r: Option<String>)
    ensures
        opt_string_view(r) == ran_ok_output(*o),
{
    match o {
        Ok(c) => if c.success {
            Some(c.stdout.clone())
        } else {
            None
        },
        Err(_) => None,
    }
}

fn failure_text_exec(c: &CommandOutcome) -> (r: String)
    ensures
        r@ == failure_text(*c),
{
    let e = trim_str(c.stderr.as_str());
    if e.len() == 0 {
        trimmed_string(&chars_of(c.stdout.as_str()))
    } else {
        string_of(&e)
    }
}

/// The next step of a pull, given the outcome of the command asked for.
pub fn pull_repository(stage: SyncStage, lang: Language, outcome: Result<CommandOutcome, String>) -> (r: (
    SyncStage,
    SyncAction,
))
    ensures
        (r.0, sync_action_view(r.1)) == pull_step_spec(stage, lang, outcome),
{
    match stage {
        SyncStage::AwaitRemotes => {
            let remotes = match ran_ok_exec(&outcome) {
                Some(s) => s,
                None => String::new(),
            };
            if trim_str(remotes.as_str()).len() == 0 {
                (SyncStage::Done, SyncAction::Finish(Err(lit(t(lang, "git_no_remote_pull")))))
            } else {
                let mut args = Vec::new();
                args.push(lit("rev-parse"));
                args.push(lit("--abbrev-ref"));
                args.push(lit("@{u}"));
                assert(strings_view(args@) =~= seq!["rev-parse"@, "--abbrev-ref"@, "@{u}"@]);
                (SyncStage::AwaitUpstream, SyncAction::Run { args, network: false })
            }
        },
        SyncStage::AwaitUpstream => {
            if ran_ok_exec(&outcome).is_none() {
                (SyncStage::Done, SyncAction::Finish(Err(lit(t(lang, "git_no_upstream")))))
            } else {
                let mut args = Vec::new();
                args.push(lit("pull"));
                assert(strings_view(args@) =~= seq!["pull"@]);
                (SyncStage::AwaitTransfer, SyncAction::Run { args, network: true })
            }
        },
        SyncStage::AwaitTransfer => {
            match outcome {
                Err(e) => {
                    let pre = chars_of("git pull: ");
                    let msg = concat(&pre, &chars_of(e.as_str()));
                    (SyncStage::Done, SyncAction::Finish(Err(string_of(&msg))))
                },
                Ok(c) => if c.success {
                    let out = trim_str(c.stdout.as_str());
                    if out.len() == 0 {
                        (
                            SyncStage::Done,
                            SyncAction::Finish(Ok(lit(t(lang, "git_already_up_to_date")))),
                        )
                    } else {
                        (SyncStage::Done, SyncAction::Finish(Ok(string_of(&out))))
                    }
                } else {
                    (SyncStage::Done, SyncAction::Finish(Err(failure_text_exec(&c))))
                },
            }
        },
        SyncStage::Done => (SyncStage::Done, SyncAction::Finish(Err(String::new()))),
    }
}

/// The steps of a fetch: list the remotes (none: refused), then fetch; a
/// fixed message on success.
pub open spec fn fetch_step_spec(stage: SyncStage, lang: Language, o: Result<CommandOutcome, String>) -> (
    SyncStage,
    Result<(Seq<Seq<char>>, bool), Result<Seq<char>, Seq<char>>>,
) {
    match stage {
        SyncStage::AwaitRemotes => {
            let remotes = match ran_ok_output(o) {
                Some(s) => s,
                None => Seq::empty(),
            };
            if trim(remotes).len() == 0 {
                (SyncStage::Done, Err(Err(translate(lang, "git_no_remote_fetch"@))))
            } else {
                (SyncStage::AwaitTransfer, Ok((seq!["fetch"@], true)))
            }
        },
        SyncStage::AwaitTransfer => {
            match o {
                Err(e) => (SyncStage::Done, Err(Err("git fetch: "@ + e@))),
                Ok(c) => if c.success {
                    (SyncStage::Done, Err(Ok(translate(lang, "git_fetch_success"@))))
                } else {
                    (SyncStage::Done, Err(Err(failure_text(c))))
                },
            }
        },
        _ => (SyncStage::Done, Err(Err(Seq::empty()))),
    }
}

/// The next step of a fetch, given the outcome of the command asked for.
pub fn fetch_repository(stage: SyncStage, lang: Language, outcome: Result<CommandOutcome, String>) -> (r: (
    SyncStage,
    SyncAction,
))
    ensures
        (r.0, sync_action_view(r.1)) == fetch_step_spec(stage, lang, outcome),
{
    match stage {
        SyncStage::AwaitRemotes => {
            let remotes = match ran_ok_exec(&outcome) {
                Some(s) => s,
                None => String::new(),
            };
            if trim_str(remotes.as_str()).len() == 0 {
                (SyncStage::Done, SyncAction::Finish(Err(lit(t(lang, "git_no_remote_fetch")))))
            } else {
                let mut args = Vec::new();
                args.push(lit("fetch"));
                assert(strings_view(args@) =~= seq!["fetch"@]);
                (SyncStage::AwaitTransfer, SyncAction::Run { args, network: true })
            }
        },
        SyncStage::AwaitTransfer => {
            match outcome {
                Err(e) => {
                    let pre = chars_of("git fetch: ");
                    let msg = concat(&pre, &chars_of(e.as_str()));
                    (SyncStage::Done, SyncAction::Finish(Err(string_of(&msg))))
                },
                Ok(c) => if c.success {
                    (SyncStage::Done, SyncAction::Finish(Ok(lit(t(lang, "git_fetch_success")))))
                } else {
                    (SyncStage::Done, SyncAction::Finish(Err(failure_text_exec(&c))))
                },
            }
        },
        _ => (SyncStage::Done, SyncAction::Finish(Err(String::new()))),
    }
}

// ---------------------------------------------------------------------------
// Timestamps

/// The text shown for an unknown date.
pub open spec fn unknown_date() -> Seq<char> {
    "不明"@
}

/// The earliest timestamp whose local date, in any time zone, lies in the
/// year 0 or later (0000-01-02T00:00:00Z).
pub const SHAPED_MIN_TS: i64 = -62167132800;

/// The latest timestamp whose local date, in any time zone, lies in the
/// year 9999 or earlier (9999-12-30T23:59:59Z).
pub const SHAPED_MAX_TS: i64 = 253402214399;

/// Whether a text has the shape of `%Y-%m-%d %H:%M:%S` for a year of four
/// digits: 19 characters, `-` at 4 and 7, a space at 10, `:` at 13 and 16,
/// digits elsewhere.
pub open spec fn datetime_shape(s: Seq<char>) -> bool {
    &&& s.len() == 19
    &&& s[4] == '-' && s[7] == '-' && s[10] == ' ' && s[13] == ':' && s[16] == ':'
    &&& forall|i: int| 0 <= i < 19 && i != 4 && i != 7 && i != 10 && i != 13 && i != 16 ==> #[trigger] is_digit(s[i])
}

/// `n` in `w` decimal digits, zero-padded (the lowest `w` digits).
pub open spec fn padded(n: nat, w: nat) -> Seq<char>
    decreases w,
{
    if w == 0 {
        Seq::empty()
    } else {
        padded(n / 10, (w - 1) as nat).push(digit_char(n % 10))
    }
}

/// The proleptic Gregorian date `(year, month, day)` of the day that lies
/// `days` days after 1970-01-01 (before it for a negative count).
pub open spec fn civil_from_days(days: int) -> (int, int, int) {
    let z = days + 719468;
    let era = z / 146097;
    let doe = z - era * 146097;
    let yoe = (doe - doe / 1460 + doe / 36524 - doe / 146096) / 365;
    let doy = doe - (365 * yoe + yoe / 4 - yoe / 100);
    let mp = (5 * doy + 2) / 153;
    let d = doy - (153 * mp + 2) / 5 + 1;
    let m = if mp < 10 { mp + 3 } else { mp - 9 };
    (yoe + era * 400 + (if m <= 2 { 1int } else { 0int }), m, d)
}

/// The `%Y-%m-%d %H:%M:%S` text of the moment `t` seconds after
/// 1970-01-01T00:00:00, for a year from 0 to 9999.
pub open spec fn datetime_text(t: int) -> Seq<char> {
    let days = t / 86400;
    let secs = t % 86400;
    let ymd = civil_from_days(days);
    padded(ymd.0 as nat, 4) + seq!['-'] + padded(ymd.1 as nat, 2) + seq!['-'] + padded(ymd.2 as nat, 2) + seq![' ']
        + padded((secs / 3600) as nat, 2) + seq![':'] + padded((secs % 3600 / 60) as nat, 2) + seq![':']
        + padded((secs % 60) as nat, 2)
}

/// Whether `text` is the date and time of the timestamp `ts` shifted by the
/// offset `o` seconds.
pub open spec fn shifted_datetime(text: Seq<char>, ts: int, o: int) -> bool {
    text == datetime_text(ts + o)
}

/// Whether `text` is the date and time of the timestamp `ts` shifted by
/// some offset of less than a day either way.
pub open spec fn local_datetime_of(text: Seq<char>, ts: int) -> bool {
    exists|o: int| -86400 < o < 86400 && #[trigger] shifted_datetime(text, ts, o)
}

/// Local date and time of a Unix timestamp as chrono writes it
/// (`Utc.timestamp_opt(ts, 0).single()`, converted to `Local`, formatted
/// `%Y-%m-%d %H:%M:%S`); `None` when chrono has no single datetime for it.
/// The text depends on the machine's time zone; what is stated holds in
/// every zone: a local offset is less than a day, so between
/// `SHAPED_MIN_TS` and `SHAPED_MAX_TS` the local year has four digits, which
/// chrono writes zero-padded, and the text has the shape of the pattern;
/// it is the date and time of `ts` shifted by the zone's offset at that
/// moment, a whole number of seconds under a day either way (which offset,
/// the machine's zone decides).
#[verifier::external_body]
fn local_datetime_text(ts: i64) -> (r: Option<String>)
    ensures
        SHAPED_MIN_TS <= ts <= SHAPED_MAX_TS ==> r is Some && datetime_shape(r.unwrap()@)
            && local_datetime_of(r.unwrap()@, ts as int),
{
    match chrono::Utc.timestamp_opt(ts, 0).single() {
        Some(dt) => Some(dt.with_timezone(&chrono::Local).format("%Y-%m-%d %H:%M:%S").to_string()),
        None => None,
    }
}

/// What the text of a timestamp is known to be: `不明` for 0, and for any
/// other timestamp between `SHAPED_MIN_TS` and `SHAPED_MAX_TS` the date and
/// time of that moment shifted by some offset under a day (the machine's
/// zone decides which), with the shape of `datetime_shape`.
pub open spec fn stamp_text(ts: i64, text: Seq<char>) -> bool {
    &&& ts == 0 ==> text == unknown_date()
    &&& ts != 0 && SHAPED_MIN_TS <= ts <= SHAPED_MAX_TS ==> datetime_shape(text) && text != unknown_date()
        && local_datetime_of(text, ts as int)
}

/// A Unix timestamp as local date and time (`%Y-%m-%d %H:%M:%S` in the
/// machine's time zone); `不明` for 0 or a time chrono cannot represent.
pub fn format_timestamp(ts: i64) -> (r: String)
    ensures
        stamp_text(ts, r@),
{
    if ts == 0 {
        return lit("不明");
    }
    match local_datetime_text(ts) {
        Some(s) => {
            proof {
                reveal_strlit("不明");
            }
            s
        },
        None => lit("不明"),
    }
}

// ---------------------------------------------------------------------------
// Branches

/// A branch as listed by git.
#[derive(Clone, Debug, PartialEq, Eq)]
pub struct BranchInfo {
    pub name: String,
    pub is_remote: bool,
    pub author: String,
    pub date: String,
    pub date_unix: i64,
    pub message: String,
}

/// A branch without its local-time date text.
pub struct BranchInfoV {
    pub name: Seq<char>,
    pub is_remote: bool,
    pub author: Seq<char>,
    pub date_unix: i64,
    pub message: Seq<char>,
}

pub open spec fn branch_view(b: BranchInfo) -> BranchInfoV {
    BranchInfoV {
        name: b.name@,
        is_remote: b.is_remote,
        author: b.author@,
        date_unix: b.date_unix,
        message: b.message@,
    }
}

pub open spec fn branches_view(s: Seq<BranchInfo>) -> Seq<BranchInfoV> {
    s.map_values(|b: BranchInfo| branch_view(b))
}

pub open spec fn i64_or_zero(x: Option<i64>) -> i64 {
    match x {
        Some(v) => v,
        None => 0,
    }
}

/// One `refname|||committer time|||author|||subject` line: the trimmed ref
/// name (none for an empty name, `HEAD` or a symbolic `a -> b` line), the
/// time (0 when it does not parse), author and subject.
pub open spec fn branch_rec_of_line(line: Seq<char>) -> Option<(Seq<char>, i64, Seq<char>, Seq<char>)> {
    let p = fields(line);
    if p.len() < 4 {
        None
    } else {
        let refname = trim(p[0]);
        if refname.len() == 0 || refname == "HEAD"@ || contains_seq(refname, "->"@) {
            None
        } else {
            Some((refname, i64_or_zero(parse_i64(trim(p[1]))), trim(p[2]), trim(p[3])))
        }
    }
}

/// The records with the first one of each ref name kept.
pub open spec fn dedup_refs(recs: Seq<(Seq<char>, i64, Seq<char>, Seq<char>)>) -> Seq<
    (Seq<char>, i64, Seq<char>, Seq<char>),
>
    decreases recs.len(),
{
    if recs.len() == 0 {
        Seq::empty()
    } else {
        let prev = dedup_refs(recs.drop_last());
        if exists|k: int| 0 <= k < prev.len() && (#[trigger] prev[k]).0 == recs.last().0 {
            prev
        } else {
            prev.push(recs.last())
        }
    }
}

/// The branch shown for a record: `remotes/` dropped from the name, remote
/// when the name starts with `remotes/` or `origin/`.
pub open spec fn branch_of_rec(r: (Seq<char>, i64, Seq<char>, Seq<char>)) -> BranchInfoV {
    BranchInfoV {
        name: trim_start_seq(r.0, "remotes/"@),
        is_remote: starts_with(r.0, "remotes/"@) || starts_with(r.0, "origin/"@),
        author: r.2,
        date_unix: r.1,
        message: r.3,
    }
}

pub open spec fn branch_key() -> spec_fn(BranchInfoV) -> int {
    |b: BranchInfoV| b.date_unix as int
}

/// The branches of a `git branch -a` listing: one per ref name, newest
/// commit first (equal times keep their listing order).
pub open spec fn branch_list(out: Seq<char>) -> Seq<BranchInfoV> {
    let recs = dedup_refs(filter_map(lines_seq(out), |l: Seq<char>| branch_rec_of_line(l)));
    sort_desc(recs.map_values(|r: (Seq<char>, i64, Seq<char>, Seq<char>)| branch_of_rec(r)), branch_key())
}

/// The arguments of the branch listing.
pub fn get_branches_args() -> (r: Vec<String>)
    ensures
        strings_view(r@) == seq![
            "branch"@,
            "-a"@,
            "--format=%(refname:short)|||%(committerdate:unix)|||%(authorname)|||%(subject)"@,
        ],
{
    let mut r = Vec::new();
    r.push(lit("branch"));
    r.push(lit("-a"));
    r.push(lit("--format=%(refname:short)|||%(committerdate:unix)|||%(authorname)|||%(subject)"));
    assert(strings_view(r@) =~= seq![
        "branch"@,
        "-a"@,
        "--format=%(refname:short)|||%(committerdate:unix)|||%(authorname)|||%(subject)"@,
    ]);
    r
}

fn seen_ref(seen: &Vec<Vec<char>>, name: &Vec<char>) -> (r: bool)
    ensures
        r == exists|k: int| 0 <= k < seen@.len() && (#[trigger] seen@[k])@ == name@,
{
    let mut k: usize = 0;
    while k < seen.len()
        invariant
            k <= seen.len(),
            forall|j: int| 0 <= j < k ==> (#[trigger] seen@[j])@ != name@,
        decreases seen.len() - k,
    {
        if seq_eq(&seen[k], name) {
            return true;
        }
        k = k + 1;
    }
    false
}

/// The branches, from the result of the branch listing command (a failed
/// command gives no branches). Dates are local time; `不明` for time 0.
pub fn get_branches(output: Result<String, String>) -> (r: Vec<BranchInfo>)
    ensures
        output matches Err(_) ==> r@.len() == 0,
        output matches Ok(o) ==> branches_view(r@) == branch_list(o@),
        forall|i: int| 0 <= i < r@.len() ==> stamp_text((#[trigger] r@[i]).date_unix, r@[i].date@),
{
    let o = match output {
        Err(_) => return Vec::new(),
        Ok(o) => o,
    };
    let lines = lines_str(o.as_str());
    let sep = field_sep_exec();
    let head = chars_of("HEAD");
    let arrow = chars_of("->");
    let remotes = chars_of("remotes/");
    let origin = chars_of("origin/");
    let ghost ls = vviews(lines@);
    let ghost f = |l: Seq<char>| branch_rec_of_line(l);
    let ghost g = |r: (Seq<char>, i64, Seq<char>, Seq<char>)| branch_of_rec(r);
    let mut seen: Vec<Vec<char>> = Vec::new();
    let mut infos: Vec<BranchInfo> = Vec::new();
    let mut keys: Vec<i128> = Vec::new();
    let mut i: usize = 0;
    assert(ls.take(0) =~= Seq::<Seq<char>>::empty());
    assert(branches_view(infos@) =~= dedup_refs(filter_map(ls.take(0), f)).map_values(g));
    while i < lines.len()
        invariant
            i <= lines.len(),
            ls == vviews(lines@),
            sep@ == field_sep(),
            head@ == "HEAD"@,
            arrow@ == "->"@,
            remotes@ == "remotes/"@,
            origin@ == "origin/"@,
            f == (|l: Seq<char>| branch_rec_of_line(l)),
            g == (|r: (Seq<char>, i64, Seq<char>, Seq<char>)| branch_of_rec(r)),
            seen@.len() == dedup_refs(filter_map(ls.take(i as int), f)).len(),
            forall|k: int| 0 <= k < seen@.len() ==> (#[trigger] seen@[k])@ == dedup_refs(
                filter_map(ls.take(i as int), f),
            )[k].0,
            branches_view(infos@) == dedup_refs(filter_map(ls.take(i as int), f)).map_values(g),
            keys@.len() == infos@.len(),
            forall|k: int| 0 <= k < infos@.len() ==> keys@[k] == (#[trigger] infos@[k]).date_unix,
            forall|k: int| 0 <= k < infos@.len() ==> stamp_text((#[trigger] infos@[k]).date_unix, infos@[k].date@),
        decreases lines.len() - i,
    {
        proof {
            lemma_filter_map_take(ls, f, i as int);
            assert(ls[i as int] == lines@[i as int]@);
        }
        let ghost prev_recs = filter_map(ls.take(i as int), f);
        let parts = split_exec(&lines[i], &sep);
        if parts.len() >= 4 {
            proof {
                assert(vviews(parts@)[0] == parts@[0]@);
                assert(vviews(parts@)[1] == parts@[1]@);
                assert(vviews(parts@)[2] == parts@[2]@);
                assert(vviews(parts@)[3] == parts@[3]@);
            }
            let refname = trim_vec(&parts[0]);
            if refname.len() > 0 && !seq_eq(&refname, &head) && !contains_exec(&refname, &arrow) {
                let ghost rec = branch_rec_of_line(ls[i as int])->0;
                let ghost recs = filter_map(ls.take(i + 1), f);
                assert(recs == prev_recs.push(rec));
                assert(recs.drop_last() =~= prev_recs);
                let ghost d0 = dedup_refs(prev_recs);
                if seen_ref(&seen, &refname) {
                    assert(dedup_refs(recs) == d0);
                } else {
                    assert forall|k: int| 0 <= k < d0.len() implies (#[trigger] d0[k]).0 != rec.0 by {
                        assert(seen@[k]@ == d0[k].0);
                    }
                    assert(dedup_refs(recs) == d0.push(rec));
                    let date_unix = match parse_i64_exec(&trim_vec(&parts[1])) {
                        Some(v) => v,
                        None => 0,
                    };
                    let is_remote = starts_with_exec(&refname, &remotes) || starts_with_exec(
                        &refname,
                        &origin,
                    );
                    let clean = trim_start_seq_exec(&refname, &remotes);
                    let b = BranchInfo {
                        name: string_of(&clean),
                        is_remote,
                        author: trimmed_string(&parts[2]),
                        date: format_timestamp(date_unix),
                        date_unix,
                        message: trimmed_string(&parts[3]),
                    };
                    let ghost pi = infos@;
                    let ghost ps = seen@;
                    infos.push(b);
                    keys.push(date_unix as i128);
                    seen.push(refname);
                    proof {
                        assert(branch_view(b) == g(rec));
                        assert(branches_view(infos@) =~= branches_view(pi).push(branch_view(b)));
                        assert(d0.push(rec).map_values(g) =~= d0.map_values(g).push(g(rec)));
                        assert forall|k: int| 0 <= k < seen@.len() implies (#[trigger] seen@[k])@
                            == dedup_refs(recs)[k].0 by {
                            if k < ps.len() {
                                assert(seen@[k] == ps[k]);
                            }
                        }
                        assert forall|k: int| 0 <= k < infos@.len() implies keys@[k] == (#[trigger] infos@[k]).date_unix by {
                            if k < pi.len() {
                                assert(infos@[k] == pi[k]);
                            }
                        }
                        assert forall|k: int| 0 <= k < infos@.len() implies stamp_text((#[trigger] infos@[k]).date_unix, infos@[k].date@) by {
                            if k < pi.len() {
                                assert(infos@[k] == pi[k]);
                            }
                        }
                    }
                }
            }
        }
        i = i + 1;
    }
    proof {
        lemma_filter_map_all(ls, f);
    }
    let ghost before = infos@;
    let ghost kb = |b: BranchInfo| b.date_unix as int;
    let sorted = stable_sort_desc(infos, keys, Ghost(kb));
    proof {
        let p = |b: BranchInfo| stamp_text(b.date_unix, b.date@);
        assert forall|k: int| 0 <= k < before.len() implies p(#[trigger] before[k]) by {}
        lemma_sort_desc_all(before, kb, p);
        assert forall|i: int| 0 <= i < sorted@.len() implies stamp_text((#[trigger] sorted@[i]).date_unix, sorted@[i].date@) by {
            assert(p(sorted@[i]));
        }
        lemma_sort_desc_map(before, kb, |b: BranchInfo| branch_view(b), branch_key());
        assert(branches_view(sorted@) == sort_desc(before, kb).map_values(|b: BranchInfo| branch_view(b)));
        assert(branches_view(before) == before.map_values(|b: BranchInfo| branch_view(b)));
    }
    sorted
}

/// The branches come newest commit first.
pub proof fn lemma_branches_newest_first(out: Seq<char>)
    ensures
        forall|i: int, j: int| 0 <= i < j < branch_list(out).len()
            ==> (#[trigger] branch_list(out)[i]).date_unix >= (#[trigger] branch_list(out)[j]).date_unix,
{
    let recs = dedup_refs(filter_map(lines_seq(out), |l: Seq<char>| branch_rec_of_line(l)));
    let bs = recs.map_values(|r: (Seq<char>, i64, Seq<char>, Seq<char>)| branch_of_rec(r));
    crate::sort::lemma_sort_desc_sorted(bs, branch_key());
    let r = branch_list(out);
    assert forall|i: int, j: int| 0 <= i < j < r.len() implies (#[trigger] r[i]).date_unix >= (#[trigger] r[j]).date_unix by {
        assert(branch_key()(r[i]) >= branch_key()(r[j]));
    }
}

// ---------------------------------------------------------------------------
// Tags

/// A tag: its name, date, message and the short hash of the commit it
/// points to.
#[derive(Clone, Debug, PartialEq, Eq)]
pub struct TagInfo {
    pub name: String,
    pub date: String,
    pub message: String,
    pub hash: String,
}

pub struct TagInfoV {
    pub name: Seq<char>,
    pub date: Seq<char>,
    pub message: Seq<char>,
    pub hash: Seq<char>,
}

impl View for TagInfo {
    type V = TagInfoV;

    open spec fn view(&self) -> TagInfoV {
        TagInfoV { name: self.name@, date: self.date@, message: self.message@, hash: self.hash@ }
    }
}

pub open spec fn tags_view(s: Seq<TagInfo>) -> Seq<TagInfoV> {
    s.map_values(|t: TagInfo| t@)
}

/// The arguments of the tag listing, newest first.
pub open spec fn tags_args_spec() -> Seq<Seq<char>> {
    seq![
        "tag"@,
        "-l"@,
        "--sort=-creatordate"@,
        "--format=%(refname:short)|||%(creatordate:short)|||%(subject)|||%(committerdate:short)|||%(objectname:short)|||%(*objectname:short)"@,
    ]
}

pub fn get_tags_args() -> (r: Vec<String>)
    ensures
        strings_view(r@) == tags_args_spec(),
{
    let mut r = Vec::new();
    r.push(lit("tag"));
    r.push(lit("-l"));
    r.push(lit("--sort=-creatordate"));
    r.push(
        lit(
            "--format=%(refname:short)|||%(creatordate:short)|||%(subject)|||%(committerdate:short)|||%(objectname:short)|||%(*objectname:short)",
        ),
    );
    assert(strings_view(r@) =~= tags_args_spec());
    r
}

/// A tag line's name, date and subject and the commit hash: the dereferenced
/// commit of an annotated tag, else the tag's own object.
pub open spec fn tag_rec_of_line(line: Seq<char>) -> Option<(Seq<char>, Seq<char>, Seq<char>, Seq<char>)> {
    let p = fields(line);
    if p.len() < 4 || trim(p[0]).len() == 0 {
        None
    } else {
        let date = if trim(p[1]).len() > 0 {
            trim(p[1])
        } else if trim(p[3]).len() > 0 {
            trim(p[3])
        } else {
            unknown_date()
        };
        let hash = if p.len() > 5 && trim(p[5]).len() > 0 {
            trim(p[5])
        } else if p.len() > 4 {
            trim(p[4])
        } else {
            Seq::empty()
        };
        Some((trim(p[0]), date, trim(p[2]), hash))
    }
}

pub open spec fn tag_recs(out: Seq<char>) -> Seq<(Seq<char>, Seq<char>, Seq<char>, Seq<char>)> {
    filter_map(lines_seq(out), |l: Seq<char>| tag_rec_of_line(l))
}

/// The names of the tags whose subject is empty: their message is looked up
/// with `log -1 --format=%s <name>`, in this order.
pub open spec fn tags_without_subject(recs: Seq<(Seq<char>, Seq<char>, Seq<char>, Seq<char>)>) -> Seq<Seq<char>> {
    filter_map(recs, |r: (Seq<char>, Seq<char>, Seq<char>, Seq<char>)| if r.2.len() == 0 {
        Some(r.0)
    } else {
        None
    })
}

/// The message of a tag looked up from its commit: the commit subject,
/// `メッセージなし` when empty, `No message` when the lookup failed or is missing.
pub open spec fn looked_up_message(r: Option<Result<Seq<char>, Seq<char>>>) -> Seq<char> {
    match r {
        Some(Ok(s)) => if trim(s).len() == 0 {
            "メッセージなし"@
        } else {
            trim(s)
        },
        _ => "No message"@,
    }
}

/// The tags of the first records, with the lookups used so far.
pub open spec fn tags_fold(recs: Seq<(Seq<char>, Seq<char>, Seq<char>, Seq<char>)>, lookups: Seq<Result<Seq<char>, Seq<char>>>) -> (Seq<TagInfoV>, nat)
    decreases recs.len(),
{
    if recs.len() == 0 {
        (Seq::empty(), 0)
    } else {
        let (prev, used) = tags_fold(recs.drop_last(), lookups);
        let r = recs.last();
        if r.2.len() > 0 {
            (prev.push(TagInfoV { name: r.0, date: r.1, message: r.2, hash: r.3 }), used)
        } else {
            let l = if used < lookups.len() {
                Some(lookups[used as int])
            } else {
                None
            };
            (prev.push(TagInfoV { name: r.0, date: r.1, message: looked_up_message(l), hash: r.3 }), used + 1)
        }
    }
}

/// The commands looking up the messages of the tags without a subject (see
/// `tags_without_subject`), from the result of the tag listing.
pub fn get_tags_lookups(output: &Result<String, String>) -> (r: Vec<Vec<String>>)
    ensures
        output matches Err(_) ==> r@.len() == 0,
        output matches Ok(o) ==> r@.len() == tags_without_subject(tag_recs(o@)).len()
            && forall|k: int| 0 <= k < r@.len() ==> strings_view((#[trigger] r@[k])@) == seq![
                "log"@,
                "-1"@,
                "--format=%s"@,
                tags_without_subject(tag_recs(o@))[k],
            ],
{
    let mut r: Vec<Vec<String>> = Vec::new();
    match output {
        Err(_) => r,
        Ok(o) => {
            let recs = parse_tag_recs(o.as_str());
            let ghost rv = recs_view(recs@);
            let ghost f = |x: (Seq<char>, Seq<char>, Seq<char>, Seq<char>)| if x.2.len() == 0 {
                Some(x.0)
            } else {
                None
            };
            let mut i: usize = 0;
            while i < recs.len()
                invariant
                    i <= recs.len(),
                    rv == recs_view(recs@),
                    f == (|x: (Seq<char>, Seq<char>, Seq<char>, Seq<char>)| if x.2.len() == 0 {
                        Some(x.0)
                    } else {
                        None
                    }),
                    r@.len() == filter_map(rv.take(i as int), f).len(),
                    forall|k: int| 0 <= k < r@.len() ==> strings_view((#[trigger] r@[k])@) == seq![
                        "log"@,
                        "-1"@,
                        "--format=%s"@,
                        filter_map(rv.take(i as int), f)[k],
                    ],
                decreases recs.len() - i,
            {
                proof {
                    lemma_filter_map_take(rv, f, i as int);
                }
                if recs[i].2.len() == 0 {
                    let mut c = Vec::new();
                    c.push(lit("log"));
                    c.push(lit("-1"));
                    c.push(lit("--format=%s"));
                    c.push(string_of(&recs[i].0));
                    let ghost pr = r@;
                    r.push(c);
                    proof {
                        assert(strings_view(c@) =~= seq!["log"@, "-1"@, "--format=%s"@, rv[i as int].0]);
                        assert forall|k: int| 0 <= k < r@.len() implies strings_view((#[trigger] r@[k])@) == seq![
                            "log"@,
                            "-1"@,
                            "--format=%s"@,
                            filter_map(rv.take(i + 1), f)[k],
                        ] by {
                            if k < pr.len() {
                                assert(r@[k] == pr[k]);
                            }
                        }
                    }
                }
                i = i + 1;
            }
            proof {
                lemma_filter_map_all(rv, f);
            }
            r
        },
    }
}

pub open spec fn recs_view(s: Seq<(Vec<char>, Vec<char>, Vec<char>, Vec<char>)>) -> Seq<(Seq<char>, Seq<char>, Seq<char>, Seq<char>)> {
    s.map_values(|x: (Vec<char>, Vec<char>, Vec<char>, Vec<char>)| (x.0@, x.1@, x.2@, x.3@))
}

fn parse_tag_recs(o: &str) -> (r: Vec<(Vec<char>, Vec<char>, Vec<char>, Vec<char>)>)
    ensures
        recs_view(r@) == tag_recs(o@),
{
    let lines = lines_str(o);
    let sep = field_sep_exec();
    let unknown = chars_of("不明");
    let ghost ls = vviews(lines@);
    let ghost f = |l: Seq<char>| tag_rec_of_line(l);
    let mut out: Vec<(Vec<char>, Vec<char>, Vec<char>, Vec<char>)> = Vec::new();
    let mut i: usize = 0;
    while i < lines.len()
        invariant
            i <= lines.len(),
            ls == vviews(lines@),
            sep@ == field_sep(),
            unknown@ == unknown_date(),
            f == (|l: Seq<char>| tag_rec_of_line(l)),
            recs_view(out@) == filter_map(ls.take(i as int), f),
        decreases lines.len() - i,
    {
        proof {
            lemma_filter_map_take(ls, f, i as int);
            assert(ls[i as int] == lines@[i as int]@);
        }
        let parts = split_exec(&lines[i], &sep);
        proof {
            lemma_splitn_nonempty(lines@[i as int]@, field_sep(), None);
            assert(vviews(parts@)[0] == parts@[0]@);
        }
        if parts.len() >= 4 {
            proof {
                assert(vviews(parts@)[1] == parts@[1]@);
                assert(vviews(parts@)[2] == parts@[2]@);
                assert(vviews(parts@)[3] == parts@[3]@);
                if parts.len() > 4 {
                    assert(vviews(parts@)[4] == parts@[4]@);
                }
                if parts.len() > 5 {
                    assert(vviews(parts@)[5] == parts@[5]@);
                }
            }
            let name = trim_vec(&parts[0]);
            if name.len() > 0 {
                let cd = trim_vec(&parts[1]);
                let subject = trim_vec(&parts[2]);
                let md = trim_vec(&parts[3]);
                let date = if cd.len() > 0 {
                    cd
                } else if md.len() > 0 {
                    md
                } else {
                    unknown.clone()
                };
                let mut hash: Vec<char> = Vec::new();
                if parts.len() > 5 {
                    hash = trim_vec(&parts[5]);
                }
                if hash.len() == 0 {
                    if parts.len() > 4 {
                        hash = trim_vec(&parts[4]);
                    } else {
                        hash = Vec::new();
                    }
                }
                let ghost prev = out@;
                out.push((name, date, subject, hash));
                proof {
                    let ghost rec = tag_rec_of_line(ls[i as int])->0;
                    assert(hash@ =~= rec.3);
                    assert(recs_view(out@) =~= recs_view(prev).push(rec));
                }
            }
        }
        i = i + 1;
    }
    proof {
        lemma_filter_map_all(ls, f);
    }
    out
}

/// The tags, from the result of the tag listing (a failed listing gives no
/// tags) and the results of the lookups of `get_tags_lookups`, in order (a
/// missing lookup counts as failed).
pub fn get_tags(output: Result<String, String>, lookups: Vec<Result<String, String>>) -> (r: Vec<TagInfo>)
    ensures
        output matches Err(_) ==> r@.len() == 0,
        output matches Ok(o) ==> tags_view(r@) == tags_fold(tag_recs(o@), results_view(lookups@)).0,
{
    let o = match output {
        Err(_) => return Vec::new(),
        Ok(o) => o,
    };
    let recs = parse_tag_recs(o.as_str());
    let ghost rv = recs_view(recs@);
    let ghost lv = results_view(lookups@);
    let mut tags: Vec<TagInfo> = Vec::new();
    let mut used: usize = 0;
    let mut i: usize = 0;
    assert(rv.take(0) =~= Seq::<(Seq<char>, Seq<char>, Seq<char>, Seq<char>)>::empty());
    while i < recs.len()
        invariant
            i <= recs.len(),
            rv == recs_view(recs@),
            lv == results_view(lookups@),
            (tags_view(tags@), used as nat) == tags_fold(rv.take(i as int), lv),
            used <= i,
        decreases recs.len() - i,
    {
        proof {
            assert(rv.take(i + 1).drop_last() =~= rv.take(i as int));
            assert(rv.take(i + 1).last() == rv[i as int]);
        }
        let message = if recs[i].2.len() > 0 {
            string_of(&recs[i].2)
        } else {
            let m = if used < lookups.len() {
                match &lookups[used] {
                    Ok(s) => {
                        let tr = trim_str(s.as_str());
                        if tr.len() == 0 {
                            lit("メッセージなし")
                        } else {
                            string_of(&tr)
                        }
                    },
                    Err(_) => lit("No message"),
                }
            } else {
                lit("No message")
            };
            proof {
                if used < lookups.len() {
                    assert(lv[used as int] == result_view(lookups@[used as int]));
                }
            }
            used = used + 1;
            m
        };
        let tg = TagInfo {
            name: string_of(&recs[i].0),
            date: string_of(&recs[i].1),
            message,
            hash: string_of(&recs[i].3),
        };
        let ghost prev = tags@;
        tags.push(tg);
        proof {
            assert(tags_view(tags@) =~= tags_view(prev).push(tg@));
        }
        i = i + 1;
    }
    assert(rv.take(recs.len() as int) =~= rv);
    tags
}


pub open spec fn has_ref(d: Seq<(Seq<char>, i64, Seq<char>, Seq<char>)>, name: Seq<char>) -> bool {
    exists|k: int| 0 <= k < d.len() && (#[trigger] d[k]).0 == name
}

#[verifier::spinoff_prover]
proof fn lemma_dedup_distinct(recs: Seq<(Seq<char>, i64, Seq<char>, Seq<char>)>)
    ensures
        forall|i: int, j: int| 0 <= i < j < dedup_refs(recs).len() ==> (#[trigger] dedup_refs(recs)[i]).0
            != (#[trigger] dedup_refs(recs)[j]).0,
    decreases recs.len(),
{
    if recs.len() > 0 {
        lemma_dedup_distinct(recs.drop_last());
        let prev = dedup_refs(recs.drop_last());
        let d = dedup_refs(recs);
        let last = recs.last();
        if !has_ref(prev, last.0) {
            assert(d == prev.push(last));
            assert forall|i: int, j: int| 0 <= i < j < d.len() implies (#[trigger] d[i]).0 != (#[trigger] d[j]).0 by {
                if j == prev.len() {
                    assert(d[i] == prev[i]);
                    if prev[i].0 == last.0 {
                        assert(has_ref(prev, last.0));
                    }
                } else {
                    assert(d[i] == prev[i] && d[j] == prev[j]);
                }
            }
        }
    }
}

#[verifier::spinoff_prover]
proof fn lemma_dedup_covers(recs: Seq<(Seq<char>, i64, Seq<char>, Seq<char>)>)
    ensures
        forall|i: int| 0 <= i < recs.len() ==> has_ref(dedup_refs(recs), (#[trigger] recs[i]).0),
        forall|name: Seq<char>| #[trigger] has_ref(dedup_refs(recs), name) ==> exists|i: int| 0 <= i < recs.len() && (#[trigger] recs[i]).0 == name,
    decreases recs.len(),
{
    if recs.len() > 0 {
        let init = recs.drop_last();
        lemma_dedup_covers(init);
        let prev = dedup_refs(init);
        let d = dedup_refs(recs);
        let last = recs.last();
        assert forall|name: Seq<char>| has_ref(prev, name) implies has_ref(d, name) by {
            let k = choose|k: int| 0 <= k < prev.len() && (#[trigger] prev[k]).0 == name;
            assert(d[k] == prev[k]);
        }
        assert(has_ref(d, last.0)) by {
            if !has_ref(prev, last.0) {
                assert(d[prev.len() as int] == last);
            }
        }
        assert forall|i: int| 0 <= i < recs.len() implies has_ref(d, (#[trigger] recs[i]).0) by {
            if i < init.len() {
                assert(recs[i] == init[i]);
            }
        }
        assert forall|name: Seq<char>| #[trigger] has_ref(d, name) implies exists|i: int| 0 <= i < recs.len() && (#[trigger] recs[i]).0 == name by {
            let k = choose|k: int| 0 <= k < d.len() && (#[trigger] d[k]).0 == name;
            if k < prev.len() {
                assert(d[k] == prev[k]);
                assert(has_ref(prev, name));
                let i = choose|i: int| 0 <= i < init.len() && (#[trigger] init[i]).0 == name;
                assert(recs[i] == init[i]);
            } else {
                assert(recs[recs.len() - 1] == last);
            }
        }
    }
}

#[verifier::spinoff_prover]
proof fn lemma_dedup_first(recs: Seq<(Seq<char>, i64, Seq<char>, Seq<char>)>)
    ensures
        forall|k: int| 0 <= k < dedup_refs(recs).len() ==> exists|i: int| 0 <= i < recs.len() && #[trigger] recs[i] == #[trigger] dedup_refs(recs)[k]
            && forall|j: int| 0 <= j < i ==> (#[trigger] recs[j]).0 != recs[i].0,
    decreases recs.len(),
{
    if recs.len() > 0 {
        let init = recs.drop_last();
        lemma_dedup_first(init);
        lemma_dedup_covers(init);
        let prev = dedup_refs(init);
        let d = dedup_refs(recs);
        let last = recs.last();
        assert forall|k: int| 0 <= k < d.len() implies exists|i: int| 0 <= i < recs.len() && #[trigger] recs[i] == #[trigger] d[k]
            && forall|j: int| 0 <= j < i ==> (#[trigger] recs[j]).0 != recs[i].0 by {
            if k < prev.len() {
                assert(d[k] == prev[k]);
                let i = choose|i: int| 0 <= i < init.len() && #[trigger] init[i] == #[trigger] prev[k]
                    && forall|j: int| 0 <= j < i ==> (#[trigger] init[j]).0 != init[i].0;
                assert(recs[i] == init[i]);
                assert forall|j: int| 0 <= j < i implies (#[trigger] recs[j]).0 != recs[i].0 by {
                    assert(recs[j] == init[j]);
                }
            } else {
                assert(!has_ref(prev, last.0));
                assert(d[k] == last);
                let i = recs.len() - 1;
                assert(recs[i] == last);
                assert forall|j: int| 0 <= j < i implies (#[trigger] recs[j]).0 != recs[i].0 by {
                    assert(recs[j] == init[j]);
                    assert(has_ref(prev, (#[trigger] init[j]).0));
                }
            }
        }
    }
}

/// The branch listing keeps one record per ref name, the first one listed:
/// the kept records have distinct ref names, every listed ref name is kept
/// and only those, and each kept record is the first of its name.
pub proof fn lemma_dedup_refs(recs: Seq<(Seq<char>, i64, Seq<char>, Seq<char>)>)
    ensures
        forall|i: int, j: int| 0 <= i < j < dedup_refs(recs).len() ==> (#[trigger] dedup_refs(recs)[i]).0
            != (#[trigger] dedup_refs(recs)[j]).0,
        forall|i: int| 0 <= i < recs.len() ==> has_ref(dedup_refs(recs), (#[trigger] recs[i]).0),
        forall|name: Seq<char>| #[trigger] has_ref(dedup_refs(recs), name) ==> exists|i: int| 0 <= i < recs.len() && (#[trigger] recs[i]).0 == name,
        forall|k: int| 0 <= k < dedup_refs(recs).len() ==> exists|i: int| 0 <= i < recs.len() && #[trigger] recs[i] == #[trigger] dedup_refs(recs)[k]
            && forall|j: int| 0 <= j < i ==> (#[trigger] recs[j]).0 != recs[i].0,
{
    lemma_dedup_distinct(recs);
    lemma_dedup_covers(recs);
    lemma_dedup_first(recs);
}


// ---------------------------------------------------------------------------
// The changed-files listing line by line

/// The name-status lines that name a file: those with at least two
/// tab-separated fields.
pub open spec fn file_lines(name_status: Seq<char>) -> Seq<Seq<char>> {
    filter_map(lines_seq(name_status), |l: Seq<char>| if splitn_seq(l, seq!['\t'], Some(3)).len() >= 2 {
        Some(l)
    } else {
        None
    })
}

/// The changed files are one per name-status line that names a file, in
/// order: the status from the first field (`R` for any rename score), the
/// path from the second field, or for a rename with three fields the third
/// with the second as the old path, and the counts that the numstat output
/// gives for that path. The numstat output decides the counts only.
pub proof fn lemma_changed_files_lines(name_status: Seq<char>, numstat: Seq<char>)
    ensures
        changed_files(name_status, numstat).len() == file_lines(name_status).len(),
        forall|i: int| 0 <= i < file_lines(name_status).len() ==> {
            let p = splitn_seq(file_lines(name_status)[i], seq!['\t'], Some(3));
            let c = #[trigger] changed_files(name_status, numstat)[i];
            &&& c.status == change_status(trim(p[0]))
            &&& (c.path, c.old_path) == (if c.status == seq!['R'] && p.len() >= 3 {
                (trim(p[2]), Some(trim(p[1])))
            } else {
                (trim(p[1]), None::<Seq<char>>)
            })
            &&& (c.additions, c.deletions) == lookup_counts(numstat_entries(numstat), c.path)
        },
{
    let e = numstat_entries(numstat);
    let lines = lines_seq(name_status);
    let f = |l: Seq<char>| changed_of_line(l, e);
    lemma_filter_map_picked(lines, f);
    let g1 = |a: Seq<char>| if f(a) is Some { Some(a) } else { None };
    let g2 = |l: Seq<char>| if splitn_seq(l, seq!['\t'], Some(3)).len() >= 2 { Some(l) } else { None };
    assert(g1 =~= g2);
    assert(picked(lines, f) == file_lines(name_status));
    assert(changed_files(name_status, numstat) == filter_map(lines, f));
}

/// The counts for a path come from the last numstat entry for it, and are
/// zero when no entry names it.
pub proof fn lemma_lookup_counts(entries: Seq<(Seq<char>, usize, usize)>, path: Seq<char>)
    ensures
        (forall|i: int| 0 <= i < entries.len() ==> (#[trigger] entries[i]).0 != path) ==> lookup_counts(entries, path) == (0usize, 0usize),
        forall|k: int| 0 <= k < entries.len() && (#[trigger] entries[k]).0 == path
            && (forall|j: int| k < j < entries.len() ==> (#[trigger] entries[j]).0 != path)
            ==> lookup_counts(entries, path) == (entries[k].1, entries[k].2),
    decreases entries.len(),
{
    if entries.len() > 0 {
        let t = entries.drop_last();
        lemma_lookup_counts(t, path);
        if forall|i: int| 0 <= i < entries.len() ==> (#[trigger] entries[i]).0 != path {
            assert(entries[entries.len() - 1].0 != path);
            assert forall|i: int| 0 <= i < t.len() implies (#[trigger] t[i]).0 != path by {
                assert(t[i] == entries[i]);
            }
        }
        assert forall|k: int| 0 <= k < entries.len() && (#[trigger] entries[k]).0 == path
            && (forall|j: int| k < j < entries.len() ==> (#[trigger] entries[j]).0 != path)
            implies lookup_counts(entries, path) == (entries[k].1, entries[k].2) by {
            if k < entries.len() - 1 {
                assert(entries[entries.len() - 1].0 != path);
                assert(t[k] == entries[k]);
                assert forall|j: int| k < j < t.len() implies (#[trigger] t[j]).0 != path by {
                    assert(t[j] == entries[j]);
                }
            }
        }
    }
}


// ---------------------------------------------------------------------------
// The tag list line by line

/// The `k`-th message lookup, if there is one.
pub open spec fn lookup_at(lookups: Seq<Result<Seq<char>, Seq<char>>>, k: nat) -> Option<Result<Seq<char>, Seq<char>>> {
    if k < lookups.len() {
        Some(lookups[k as int])
    } else {
        None
    }
}

/// One tag per record, in git's order, with the record's name, date and
/// hash; the message is the record's subject, or for a record without one
/// the message of its own lookup: the `k`-th lookup belongs to the `k`-th
/// record without a subject, the one `get_tags_lookups` asks about `k`-th.
pub proof fn lemma_tags_fold(recs: Seq<(Seq<char>, Seq<char>, Seq<char>, Seq<char>)>, lookups: Seq<Result<Seq<char>, Seq<char>>>)
    ensures
        tags_fold(recs, lookups).0.len() == recs.len(),
        tags_fold(recs, lookups).1 == tags_without_subject(recs).len(),
        forall|i: int| 0 <= i < recs.len() ==> {
            let t = #[trigger] tags_fold(recs, lookups).0[i];
            &&& t.name == recs[i].0
            &&& t.date == recs[i].1
            &&& t.hash == recs[i].3
            &&& t.message == (if recs[i].2.len() > 0 {
                recs[i].2
            } else {
                looked_up_message(lookup_at(lookups, tags_without_subject(recs.take(i)).len()))
            })
        },
    decreases recs.len(),
{
    if recs.len() > 0 {
        let init = recs.drop_last();
        lemma_tags_fold(init, lookups);
        let (prev, used) = tags_fold(init, lookups);
        let all = tags_fold(recs, lookups).0;
        assert forall|i: int| 0 <= i < recs.len() implies {
            let t = #[trigger] all[i];
            &&& t.name == recs[i].0
            &&& t.date == recs[i].1
            &&& t.hash == recs[i].3
            &&& t.message == (if recs[i].2.len() > 0 {
                recs[i].2
            } else {
                looked_up_message(lookup_at(lookups, tags_without_subject(recs.take(i)).len()))
            })
        } by {
            if i < recs.len() - 1 {
                assert(all[i] == prev[i]);
                assert(init[i] == recs[i]);
                assert(recs.take(i) =~= init.take(i));
            } else {
                assert(recs.take(i) =~= init);
            }
        }
    }
}

/// The tag lines that give a tag: at least four fields and a name.
pub open spec fn tag_lines(out: Seq<char>) -> Seq<Seq<char>> {
    picked(lines_seq(out), |l: Seq<char>| tag_rec_of_line(l))
}

/// The tag records are one per line with at least four fields and a
/// non-empty name, in git's order: the date is the creator date, else the
/// committer date, else `不明`; the hash is the dereferenced commit of an
/// annotated tag, else the tag's own object, else empty.
pub proof fn lemma_tag_recs_lines(out: Seq<char>)
    ensures
        tag_recs(out).len() == tag_lines(out).len(),
        forall|i: int| 0 <= i < tag_lines(out).len() ==> {
            let p = fields(tag_lines(out)[i]);
            let r = #[trigger] tag_recs(out)[i];
            &&& p.len() >= 4 && trim(p[0]).len() > 0
            &&& r.0 == trim(p[0])
            &&& r.1 == (if trim(p[1]).len() > 0 {
                trim(p[1])
            } else if trim(p[3]).len() > 0 {
                trim(p[3])
            } else {
                unknown_date()
            })
            &&& r.2 == trim(p[2])
            &&& r.3 == (if p.len() > 5 && trim(p[5]).len() > 0 {
                trim(p[5])
            } else if p.len() > 4 {
                trim(p[4])
            } else {
                Seq::<char>::empty()
            })
        },
{
    lemma_filter_map_picked(lines_seq(out), |l: Seq<char>| tag_rec_of_line(l));
}


// ---------------------------------------------------------------------------
// Each result of a batch

/// The output lines since the last sentinel line, each followed by `\n`.
pub open spec fn pending_output(lines: Seq<Seq<char>>, sep: Seq<char>) -> Seq<char>
    decreases lines.len(),
{
    if lines.len() == 0 {
        Seq::empty()
    } else if starts_with(lines.last(), sep) {
        Seq::empty()
    } else {
        pending_output(lines.drop_last(), sep) + lines.last() + seq!['\n']
    }
}

/// The result that a sentinel line closes: the output since the previous
/// sentinel without its trailing newlines, `Ok` when the code after the
/// separator parses (trimmed) as 0 and `Err` otherwise.
pub open spec fn closed_result(before: Seq<Seq<char>>, line: Seq<char>, sep: Seq<char>) -> Result<Seq<char>, Seq<char>> {
    let content = trim_end_char(pending_output(before, sep), '\n');
    if parse_i32(trim(line.skip(sep.len() as int))) == Some(0i32) {
        Ok(content)
    } else {
        Err(content)
    }
}

proof fn lemma_batch_fold_prefix(lines: Seq<Seq<char>>, sep: Seq<char>, j: int)
    requires
        0 <= j <= lines.len(),
    ensures
        batch_fold(lines.take(j), sep).results.len() <= batch_fold(lines, sep).results.len(),
        forall|i: int| 0 <= i < batch_fold(lines.take(j), sep).results.len() ==> #[trigger] batch_fold(lines, sep).results[i]
            == batch_fold(lines.take(j), sep).results[i],
        batch_fold(lines, sep).buf == pending_output(lines, sep),
    decreases lines.len(),
{
    if lines.len() > 0 {
        let init = lines.drop_last();
        if j == lines.len() {
            assert(lines.take(j) =~= lines);
            lemma_batch_fold_prefix(init, sep, init.len() as int);
        } else {
            assert(init.take(j) =~= lines.take(j));
            lemma_batch_fold_prefix(init, sep, j);
        }
    }
}

/// Each sentinel line closes the result of its command: the `i`-th
/// sentinel line (counting from 0) gives the `i`-th result, made of the
/// lines since the previous sentinel (see `closed_result`).
pub proof fn lemma_batch_result_at(stdout: Seq<char>, sep: Seq<char>, j: int)
    requires
        0 <= j < lines_seq(stdout).len(),
        starts_with(lines_seq(stdout)[j], sep),
    ensures
        ({
            let lines = lines_seq(stdout);
            let i = sentinel_count(lines.take(j), sep);
            &&& i < sentinel_count(lines, sep)
            &&& batch_fold(lines, sep).results[i as int] == closed_result(lines.take(j), lines[j], sep)
        }),
{
    let lines = lines_seq(stdout);
    let a = lines.take(j);
    let b = lines.take(j + 1);
    assert(b.drop_last() =~= a);
    lemma_batch_fold_count(a, sep);
    lemma_batch_fold_count(b, sep);
    lemma_batch_fold_count(lines, sep);
    lemma_batch_fold_prefix(a, sep, a.len() as int);
    lemma_batch_fold_prefix(lines, sep, j + 1);
    assert(a.take(a.len() as int) =~= a);
}


// ---------------------------------------------------------------------------
// Where each branch comes from

/// Whether a branch is the one that a listing line describes: the line has
/// the four `|||` fields `refname`, committer time, author name and
/// subject, and the branch has the ref name (without `remotes/`), whether
/// it is remote, the time (0 when it does not parse), the author from the
/// third field and the message from the fourth, each trimmed.
pub open spec fn branch_from_line(b: BranchInfoV, line: Seq<char>) -> bool {
    let p = fields(line);
    &&& p.len() >= 4
    &&& b.name == trim_start_seq(trim(p[0]), "remotes/"@)
    &&& b.is_remote == (starts_with(trim(p[0]), "remotes/"@) || starts_with(trim(p[0]), "origin/"@))
    &&& b.date_unix == i64_or_zero(parse_i64(trim(p[1])))
    &&& b.author == trim(p[2])
    &&& b.message == trim(p[3])
}

/// Every branch listed is the branch of one line of the listing (see
/// `branch_from_line`): its author is that line's third field and its
/// message the fourth.
pub proof fn lemma_branches_from_lines(out: Seq<char>)
    ensures
        forall|i: int| 0 <= i < branch_list(out).len() ==> exists|j: int| 0 <= j < lines_seq(out).len()
            && branch_from_line(#[trigger] branch_list(out)[i], lines_seq(out)[j]),
{
    let ls = lines_seq(out);
    let f = |l: Seq<char>| branch_rec_of_line(l);
    let recs = filter_map(ls, f);
    lemma_filter_map_from(ls, f);
    let d = dedup_refs(recs);
    lemma_dedup_first(recs);
    let g = |r: (Seq<char>, i64, Seq<char>, Seq<char>)| branch_of_rec(r);
    let bs = d.map_values(g);
    let p = |b: BranchInfoV| exists|j: int| 0 <= j < ls.len() && branch_from_line(b, ls[j]);
    assert forall|k: int| 0 <= k < bs.len() implies #[trigger] p(bs[k]) by {
        let i = choose|i: int| 0 <= i < recs.len() && #[trigger] recs[i] == #[trigger] d[k]
            && forall|j: int| 0 <= j < i ==> (#[trigger] recs[j]).0 != recs[i].0;
        let j = choose|j: int| 0 <= j < ls.len() && #[trigger] f(ls[j]) == Some(recs[i]);
        assert(branch_from_line(bs[k], ls[j]));
    }
    crate::sort::lemma_sort_desc_all(bs, branch_key(), p);
    let r = branch_list(out);
    assert forall|i: int| 0 <= i < r.len() implies exists|j: int| 0 <= j < ls.len()
        && branch_from_line(#[trigger] r[i], ls[j]) by {
        assert(p(r[i]));
    }
}

} // verus!

//! How git is invoked: directly for a local repository, or through `ssh`
//! for an `ssh://` locator, one command at a time or several in one script.
use vstd::prelude::*;
use crate::git::{escape_quotes, lit, parse_ssh_repo, shell_quote, shell_quoted, ssh_repo, strings_view};
use crate::text::{chars_of, concat, string_of};

verus! {

// ---------------------------------------------------------------------------
// What the remote shell reads back

/// Where a POSIX shell is while reading a word: outside quotes, inside
/// single quotes, or right after a backslash outside quotes.
pub enum QuoteState {
    Outside,
    Inside,
    Escaped,
}

/// One character read by the shell: quotes and backslashes change the
/// state, every other character (and an escaped one) is kept.
pub open spec fn shell_step(st: (Seq<char>, QuoteState), c: char) -> (Seq<char>, QuoteState) {
    match st.1 {
        QuoteState::Outside => if c == '\'' {
            (st.0, QuoteState::Inside)
        } else if c == '\\' {
            (st.0, QuoteState::Escaped)
        } else {
            (st.0.push(c), QuoteState::Outside)
        },
        QuoteState::Inside => if c == '\'' {
            (st.0, QuoteState::Outside)
        } else {
            (st.0.push(c), QuoteState::Inside)
        },
        QuoteState::Escaped => (st.0.push(c), QuoteState::Outside),
    }
}

/// The characters a POSIX shell reads from `s` (a word without blanks or
/// other special characters outside quotes), and the state it ends in.
pub open spec fn shell_read(s: Seq<char>) -> (Seq<char>, QuoteState)
    decreases s.len(),
{
    if s.len() == 0 {
        (Seq::empty(), QuoteState::Outside)
    } else {
        shell_step(shell_read(s.drop_last()), s.last())
    }
}

/// The shell reading from a given state.
pub open spec fn shell_read_from(st: (Seq<char>, QuoteState), s: Seq<char>) -> (Seq<char>, QuoteState)
    decreases s.len(),
{
    if s.len() == 0 {
        st
    } else {
        shell_step(shell_read_from(st, s.drop_last()), s.last())
    }
}

proof fn lemma_read_from_append(st: (Seq<char>, QuoteState), a: Seq<char>, b: Seq<char>)
    ensures
        shell_read_from(st, a + b) == shell_read_from(shell_read_from(st, a), b),
    decreases b.len(),
{
    if b.len() == 0 {
        assert(a + b =~= a);
    } else {
        lemma_read_from_append(st, a, b.drop_last());
        assert((a + b).drop_last() =~= a + b.drop_last());
        assert((a + b).last() == b.last());
    }
}

proof fn lemma_read_is_read_from(s: Seq<char>)
    ensures
        shell_read(s) == shell_read_from((Seq::empty(), QuoteState::Outside), s),
    decreases s.len(),
{
    if s.len() > 0 {
        lemma_read_is_read_from(s.drop_last());
    }
}

proof fn lemma_read_one(st: (Seq<char>, QuoteState), c: char)
    ensures
        shell_read_from(st, seq![c]) == shell_step(st, c),
{
    assert(seq![c].drop_last() =~= Seq::<char>::empty());
    assert(seq![c].last() == c);
    assert(shell_read_from(st, Seq::<char>::empty()) == st);
}

proof fn lemma_read_escaped(t: Seq<char>)
    ensures
        shell_read_from((Seq::empty(), QuoteState::Outside), seq!['\''] + escape_quotes(t)) == (t, QuoteState::Inside),
    decreases t.len(),
{
    let st0 = (Seq::<char>::empty(), QuoteState::Outside);
    if t.len() == 0 {
        assert(seq!['\''] + escape_quotes(t) =~= seq!['\'']);
        lemma_read_one(st0, '\'');
    } else {
        let u = t.drop_last();
        let c = t.last();
        lemma_read_escaped(u);
        let piece = if c == '\'' {
            seq!['\'', '\\', '\'', '\'']
        } else {
            seq![c]
        };
        assert(seq!['\''] + escape_quotes(t) =~= (seq!['\''] + escape_quotes(u)) + piece);
        lemma_read_from_append(st0, seq!['\''] + escape_quotes(u), piece);
        let mid = (u, QuoteState::Inside);
        if c == '\'' {
            let p1 = seq!['\''];
            let p2 = seq!['\'', '\\'];
            let p3 = seq!['\'', '\\', '\''];
            assert(p2.drop_last() =~= p1);
            assert(p3.drop_last() =~= p2);
            assert(piece.drop_last() =~= p3);
            lemma_read_one(mid, '\'');
            assert(shell_read_from(mid, p1) == (u, QuoteState::Outside));
            assert(shell_read_from(mid, p2) == (u, QuoteState::Escaped));
            assert(shell_read_from(mid, p3) == (u.push('\''), QuoteState::Outside));
            assert(shell_read_from(mid, piece) == (u.push('\''), QuoteState::Inside));
        } else {
            lemma_read_one(mid, c);
            assert(shell_read_from(mid, piece) == (u.push(c), QuoteState::Inside));
        }
        assert(u.push(c) =~= t);
    }
}

/// What `shell_quote` writes reads back, in a POSIX shell, as the string
/// itself, with every quote closed.
pub proof fn lemma_shell_quote_roundtrip(s: Seq<char>)
    ensures
        shell_read(shell_quoted(s)) == (s, QuoteState::Outside),
{
    let st0 = (Seq::<char>::empty(), QuoteState::Outside);
    lemma_read_is_read_from(shell_quoted(s));
    lemma_read_escaped(s);
    lemma_read_from_append(st0, seq!['\''] + escape_quotes(s), seq!['\'']);
    lemma_read_one((s, QuoteState::Inside), '\'');
}


// ---------------------------------------------------------------------------
// Invocations

/// The options every `ssh` call gets: never prompt for a password, give up
/// connecting after eight seconds.
pub open spec fn ssh_options() -> Seq<Seq<char>> {
    seq!["-o"@, "BatchMode=yes"@, "-o"@, "ConnectTimeout=8"@]
}

/// The environment a local git runs with: no terminal prompts, no optional
/// locks, no interactive credential helper.
pub open spec fn local_git_env() -> Seq<(Seq<char>, Seq<char>)> {
    seq![
        ("GIT_TERMINAL_PROMPT"@, "0"@),
        ("GIT_OPTIONAL_LOCKS"@, "0"@),
        ("GCM_INTERACTIVE"@, "never"@),
        ("GIT_ASKPASS"@, "echo"@),
    ]
}

/// A program to run: its name, arguments, working directory and extra
/// environment.
#[derive(Clone, Debug, PartialEq, Eq)]
pub struct Invocation {
    pub program: String,
    pub args: Vec<String>,
    pub current_dir: Option<String>,
    pub env: Vec<(String, String)>,
}

pub struct InvocationV {
    pub program: Seq<char>,
    pub args: Seq<Seq<char>>,
    pub current_dir: Option<Seq<char>>,
    pub env: Seq<(Seq<char>, Seq<char>)>,
}

impl View for Invocation {
    type V = InvocationV;

    open spec fn view(&self) -> InvocationV {
        InvocationV {
            program: self.program@,
            args: strings_view(self.args@),
            current_dir: match self.current_dir {
                Some(d) => Some(d@),
                None => None,
            },
            env: self.env@.map_values(|p: (String, String)| (p.0@, p.1@)),
        }
    }
}

/// How git runs `args` for a repository: `ssh host git -C 'path' 'arg'...`
/// (every word quoted for the remote shell) for an `ssh://` locator,
/// otherwise `git args...` in the repository's directory with the
/// environment of `local_git_env`.
pub open spec fn git_invocation(repo_path: Seq<char>, args: Seq<Seq<char>>) -> InvocationV {
    match ssh_repo(repo_path) {
        Some((host, remote)) => InvocationV {
            program: "ssh"@,
            args: ssh_options() + seq![host, "git"@, "-C"@, shell_quoted(remote)] + args.map_values(
                |a: Seq<char>| shell_quoted(a),
            ),
            current_dir: None,
            env: Seq::empty(),
        },
        None => InvocationV { program: "git"@, args, current_dir: Some(repo_path), env: local_git_env() },
    }
}

fn push_ssh_options(v: &mut Vec<String>)
    ensures
        strings_view(final(v)@) == strings_view(old(v)@) + ssh_options(),
{
    let ghost before = strings_view(v@);
    v.push(lit("-o"));
    v.push(lit("BatchMode=yes"));
    v.push(lit("-o"));
    v.push(lit("ConnectTimeout=8"));
    assert(strings_view(v@) =~= before + ssh_options());
}

/// The invocation of git for `args` in a repository (see `git_invocation`).
pub fn git_command_for(repo_path: &str, args: &Vec<String>) -> (r: Invocation)
    ensures
        r@ == git_invocation(repo_path@, strings_view(args@)),
{
    match parse_ssh_repo(repo_path) {
        Some((host, remote)) => {
            let mut a: Vec<String> = Vec::new();
            assert(strings_view(a@) =~= Seq::<Seq<char>>::empty());
            push_ssh_options(&mut a);
            assert(strings_view(a@) =~= ssh_options());
            let ghost hv = host@;
            let ghost rv = remote@;
            a.push(host);
            a.push(lit("git"));
            a.push(lit("-C"));
            a.push(shell_quote(remote.as_str()));
            let ghost head = strings_view(a@);
            assert(head =~= ssh_options() + seq![hv, "git"@, "-C"@, shell_quoted(rv)]);
            assert(strings_view(args@).take(0).map_values(|x: Seq<char>| shell_quoted(x)) =~= Seq::<Seq<char>>::empty());
            assert(head + Seq::<Seq<char>>::empty() =~= head);
            let mut i: usize = 0;
            while i < args.len()
                invariant
                    i <= args@.len(),
                    strings_view(a@) == head + strings_view(args@).take(i as int).map_values(|x: Seq<char>| shell_quoted(x)),
                decreases args.len() - i,
            {
                let q = shell_quote(args[i].as_str());
                let ghost prev = strings_view(a@);
                a.push(q);
                proof {
                    assert(strings_view(a@) =~= prev.push(q@));
                    assert(strings_view(args@).take(i + 1) =~= strings_view(args@).take(i as int).push(args@[i as int]@));
                    assert(strings_view(args@).take(i as int).push(args@[i as int]@).map_values(|x: Seq<char>| shell_quoted(x))
                        =~= strings_view(args@).take(i as int).map_values(|x: Seq<char>| shell_quoted(x)).push(q@));
                }
                i = i + 1;
            }
            assert(strings_view(args@).take(args@.len() as int) =~= strings_view(args@));
            assert(ssh_repo(repo_path@) == Some((hv, rv)));
            let env: Vec<(String, String)> = Vec::new();
            let r = Invocation { program: lit("ssh"), args: a, current_dir: None, env };
            assert(r@.env =~= Seq::<(Seq<char>, Seq<char>)>::empty());
            r
        },
        None => {
            let mut a: Vec<String> = Vec::new();
            let mut i: usize = 0;
            while i < args.len()
                invariant
                    i <= args@.len(),
                    strings_view(a@) == strings_view(args@).take(i as int),
                decreases args.len() - i,
            {
                let ghost prev = strings_view(a@);
                let c = args[i].clone();
                a.push(c);
                assert(strings_view(a@) =~= prev.push(args@[i as int]@));
                assert(strings_view(args@).take(i + 1) =~= strings_view(args@).take(i as int).push(args@[i as int]@));
                i = i + 1;
            }
            assert(strings_view(args@).take(args@.len() as int) =~= strings_view(args@));
            let mut env: Vec<(String, String)> = Vec::new();
            env.push((lit("GIT_TERMINAL_PROMPT"), lit("0")));
            env.push((lit("GIT_OPTIONAL_LOCKS"), lit("0")));
            env.push((lit("GCM_INTERACTIVE"), lit("never")));
            env.push((lit("GIT_ASKPASS"), lit("echo")));
            let r = Invocation { program: lit("git"), args: a, current_dir: Some(lit(repo_path)), env };
            assert(r@.env =~= local_git_env());
            r
        },
    }
}

// ---------------------------------------------------------------------------
// Several commands over one connection

/// The line that ends each command's output in a batch, followed by the
/// command's exit code.
pub const BATCH_SEP: &'static str = "___GITDASH_CMD_END_3f9a2c___";

/// The shell line that runs one git command in the remote repository: its
/// output and errors, then a line with the separator and the exit code.
pub open spec fn batch_line(qpath: Seq<char>, cmd: Seq<Seq<char>>, sep: Seq<char>) -> Seq<char> {
    "git -C "@ + qpath + quoted_words(cmd) + " 2>&1; printf '\\n%s%d\\n' '"@ + sep + "' \"$?\"\n"@
}

/// Each word with a blank before it, quoted for the shell.
pub open spec fn quoted_words(ws: Seq<Seq<char>>) -> Seq<char>
    decreases ws.len(),
{
    if ws.len() == 0 {
        Seq::empty()
    } else {
        quoted_words(ws.drop_last()) + seq![' '] + shell_quoted(ws.last())
    }
}

/// The script running the commands one after the other.
pub open spec fn batch_script(qpath: Seq<char>, cmds: Seq<Seq<Seq<char>>>, sep: Seq<char>) -> Seq<char>
    decreases cmds.len(),
{
    if cmds.len() == 0 {
        Seq::empty()
    } else {
        batch_script(qpath, cmds.drop_last(), sep) + batch_line(qpath, cmds.last(), sep)
    }
}

pub open spec fn commands_view(cmds: Seq<Vec<String>>) -> Seq<Seq<Seq<char>>> {
    cmds.map_values(|c: Vec<String>| strings_view(c@))
}

fn quoted_words_exec(ws: &Vec<String>) -> (r: Vec<char>)
    ensures
        r@ == quoted_words(strings_view(ws@)),
{
    let ghost wv = strings_view(ws@);
    let mut out: Vec<char> = Vec::new();
    let mut i: usize = 0;
    assert(wv.take(0) =~= Seq::<Seq<char>>::empty());
    while i < ws.len()
        invariant
            i <= ws@.len(),
            wv == strings_view(ws@),
            out@ == quoted_words(wv.take(i as int)),
        decreases ws.len() - i,
    {
        proof {
            assert(wv.take(i + 1).drop_last() =~= wv.take(i as int));
            assert(wv.take(i + 1).last() == ws@[i as int]@);
        }
        out.push(' ');
        let q = chars_of(shell_quote(ws[i].as_str()).as_str());
        out = concat(&out, &q);
        i = i + 1;
    }
    assert(wv.take(ws@.len() as int) =~= wv);
    out
}

/// The ssh arguments that run several git commands in the remote repository
/// over one connection (see `batch_script`).
pub fn batch_ssh_args(host: &str, remote_path: &str, cmds: &Vec<Vec<String>>) -> (r: Vec<String>)
    ensures
        strings_view(r@) == ssh_options() + seq![host@, batch_script(shell_quoted(remote_path@), commands_view(cmds@), BATCH_SEP@)],
{
    let qpath = chars_of(shell_quote(remote_path).as_str());
    let sep = chars_of(BATCH_SEP);
    let ghost cv = commands_view(cmds@);
    let mut script: Vec<char> = Vec::new();
    let mut i: usize = 0;
    assert(cv.take(0) =~= Seq::<Seq<Seq<char>>>::empty());
    while i < cmds.len()
        invariant
            i <= cmds@.len(),
            cv == commands_view(cmds@),
            qpath@ == shell_quoted(remote_path@),
            sep@ == BATCH_SEP@,
            script@ == batch_script(qpath@, cv.take(i as int), sep@),
        decreases cmds.len() - i,
    {
        proof {
            assert(cv.take(i + 1).drop_last() =~= cv.take(i as int));
            assert(cv.take(i + 1).last() == strings_view(cmds@[i as int]@));
        }
        let words = quoted_words_exec(&cmds[i]);
        let mut line = chars_of("git -C ");
        line = concat(&line, &qpath);
        line = concat(&line, &words);
        line = concat(&line, &chars_of(" 2>&1; printf '\\n%s%d\\n' '"));
        line = concat(&line, &sep);
        line = concat(&line, &chars_of("' \"$?\"\n"));
        script = concat(&script, &line);
        i = i + 1;
    }
    assert(cv.take(cmds@.len() as int) =~= cv);
    let mut r: Vec<String> = Vec::new();
    push_ssh_options(&mut r);
    r.push(lit(host));
    r.push(string_of(&script));
    r
}

/// The time limit of one git command, in seconds.
pub const GIT_TIMEOUT_SECS: u64 = 30;

/// The time limit of a pull or fetch, and of a whole batch, in seconds.
pub const GIT_NETWORK_TIMEOUT_SECS: u64 = 120;

/// The time limit of a batch of `n` commands: the single limit per command
/// (at least one), at most the network limit.
pub open spec fn batch_timeout(n: nat) -> nat {
    let t = GIT_TIMEOUT_SECS * if n == 0 { 1 } else { n };
    if t < GIT_NETWORK_TIMEOUT_SECS { t as nat } else { GIT_NETWORK_TIMEOUT_SECS as nat }
}

pub fn batch_timeout_secs(n: usize) -> (r: u64)
    ensures
        r == batch_timeout(n as nat),
{
    if n >= 4 {
        GIT_NETWORK_TIMEOUT_SECS
    } else if n == 0 {
        GIT_TIMEOUT_SECS
    } else {
        GIT_TIMEOUT_SECS * (n as u64)
    }
}

/// The results of a batch that could not run: the same error for every
/// command.
pub fn batch_failure(n: usize, e: &str) -> (r: Vec<Result<String, String>>)
    ensures
        r@.len() == n,
        forall|i: int| 0 <= i < n ==> (#[trigger] r@[i] matches Err(x) && x@ == e@),
{
    let mut r: Vec<Result<String, String>> = Vec::new();
    let mut i: usize = 0;
    while i < n
        invariant
            i <= n,
            r@.len() == i,
            forall|k: int| 0 <= k < i ==> (#[trigger] r@[k] matches Err(x) && x@ == e@),
        decreases n - i,
    {
        r.push(Err(lit(e)));
        i = i + 1;
    }
    r
}

} // verus!

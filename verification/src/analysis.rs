//! Everything the dashboard shows about one repository, put together from
//! the separate analyses.
use vstd::prelude::*;
use crate::activity::Activity;
use crate::contributors::Contributor;
use crate::files::FilesReport;
use crate::git::{BranchInfo, CommitSummary, StashEntry, TagInfo, strings_view};
use crate::messages::{soft_warning, soft_warning_spec};
use crate::summary::Summary;
use crate::tech::TechInfo;
use crate::config::Language;
use crate::git::{lit, parse_ssh_repo, ssh_repo};
use crate::i18n::{t, translate};
use crate::text::{chars_of, concat, string_of, trim, trim_vec, vviews, ws_tokens, ws_tokens_exec};

verus! {

/// The analysis of one repository.
#[derive(Clone, Debug)]
pub struct RepoData {
    pub summary: Summary,
    pub contributors: Vec<Contributor>,
    pub branches: Vec<BranchInfo>,
    pub tags: Vec<TagInfo>,
    pub activity: Activity,
    pub files: FilesReport,
    pub readme: Option<(String, String)>,
    pub recent_commits: Vec<CommitSummary>,
    pub tech_info: TechInfo,
    pub stash_list: Vec<StashEntry>,
}

/// The result of a secondary analysis, or `default` when it failed, with a
/// warning naming it added to `warnings`: only the overview is essential.
pub fn soft<T>(name: &str, result: Result<T, String>, default: T, warnings: &mut Vec<String>) -> (r: T)
    ensures
        result matches Ok(v) ==> r == v && final(warnings)@ == old(warnings)@,
        result matches Err(e) ==> r == default && strings_view(final(warnings)@) == strings_view(old(warnings)@).push(
            soft_warning_spec(name@, e@),
        ),
{
    match result {
        Ok(v) => v,
        Err(e) => {
            let w = soft_warning(name, e.as_str());
            let ghost before = strings_view(warnings@);
            warnings.push(w);
            assert(strings_view(warnings@) =~= before.push(w@));
            default
        },
    }
}

/// The platforms whose file manager the settings can open.
#[derive(Clone, Copy, Debug, PartialEq, Eq, Structural)]
pub enum Platform {
    MacOs,
    Windows,
    OtherUnix,
}

/// The program that shows a directory in the platform's file manager.
pub fn file_manager_program(p: Platform) -> (r: &'static str)
    ensures
        p == Platform::MacOs ==> r@ == "open"@,
        p == Platform::Windows ==> r@ == "explorer"@,
        p == Platform::OtherUnix ==> r@ == "xdg-open"@,
{
    match p {
        Platform::MacOs => "open",
        Platform::Windows => "explorer",
        Platform::OtherUnix => "xdg-open",
    }
}


/// What opening a repository in the editor does: refused for an SSH
/// locator, or when the editor command is blank (or has no word); else the
/// command's first word is the program, and its other words, then the path,
/// are the arguments.
pub open spec fn editor_plan(lang: Language, editor: Seq<char>, path: Seq<char>) -> Result<(Seq<char>, Seq<Seq<char>>), Seq<char>> {
    if ssh_repo(path) is Some {
        Err(translate(lang, "editor_err_ssh"@))
    } else if trim(editor).len() == 0 {
        Err(translate(lang, "editor_err_not_set"@))
    } else if ws_tokens(editor).len() == 0 {
        Err(translate(lang, "editor_err_empty"@))
    } else {
        Ok((ws_tokens(editor)[0], ws_tokens(editor).skip(1).push(path)))
    }
}

/// The program and arguments that open `path` with the editor command, or
/// the message that says why it cannot (see `editor_plan`).
pub fn editor_invocation(lang: Language, editor: &str, path: &str) -> (r: Result<(String, Vec<String>), String>)
    ensures
        match editor_plan(lang, editor@, path@) {
            Ok((prog, args)) => r matches Ok((p, a)) && p@ == prog && strings_view(a@) == args,
            Err(e) => r matches Err(m) && m@ == e,
        },
{
    if parse_ssh_repo(path).is_some() {
        return Err(lit(t(lang, "editor_err_ssh")));
    }
    let ev = chars_of(editor);
    if trim_vec(&ev).len() == 0 {
        return Err(lit(t(lang, "editor_err_not_set")));
    }
    let parts = ws_tokens_exec(&ev);
    if parts.len() == 0 {
        return Err(lit(t(lang, "editor_err_empty")));
    }
    let ghost pv = vviews(parts@);
    let prog = string_of(&parts[0]);
    let mut args: Vec<String> = Vec::new();
    let mut i: usize = 1;
    while i < parts.len()
        invariant
            1 <= i <= parts@.len(),
            pv == vviews(parts@),
            strings_view(args@) == pv.skip(1).take(i - 1),
        decreases parts.len() - i,
    {
        let ghost prev = args@;
        args.push(string_of(&parts[i]));
        assert(strings_view(args@) =~= pv.skip(1).take(i as int)) by {
            assert(strings_view(args@) =~= strings_view(prev).push(parts@[i as int]@));
        }
        i = i + 1;
    }
    let ghost before = strings_view(args@);
    args.push(lit(path));
    assert(strings_view(args@) =~= pv.skip(1).push(path@)) by {
        assert(pv.skip(1).take(pv.len() - 1) =~= pv.skip(1));
        assert(strings_view(args@) =~= before.push(path@));
    }
    Ok((prog, args))
}

/// The message when the editor could not be started: the error and the
/// command that was tried.
pub open spec fn editor_failure(lang: Language, err: Seq<char>, editor: Seq<char>) -> Seq<char> {
    match lang {
        Language::English => "Failed to launch editor: "@ + err + " (Command: "@ + editor + ")"@,
        Language::Japanese => "エディタ起動失敗: "@ + err + " (コマンド: "@ + editor + ")"@,
    }
}

/// `editor_failure`.
pub fn editor_launch_error(lang: Language, err: &str, editor: &str) -> (r: String)
    ensures
        r@ == editor_failure(lang, err@, editor@),
{
    let (a, b) = match lang {
        Language::English => (chars_of("Failed to launch editor: "), chars_of(" (Command: ")),
        Language::Japanese => (chars_of("エディタ起動失敗: "), chars_of(" (コマンド: ")),
    };
    let v = concat(&concat(&concat(&concat(&a, &chars_of(err)), &b), &chars_of(editor)), &chars_of(")"));
    string_of(&v)
}

} // verus!

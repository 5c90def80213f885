//! The settings forms: registering and editing repositories and members.
use vstd::prelude::*;
use crate::config::{Language, Member, MemberV, Repository, RepositoryV, members_view, repos_view};
use crate::contributors::{eq_ignore_ascii_case, eq_ignore_ascii_case_exec};
use crate::git::{lit, parse_ssh_repo, ssh_repo};
use crate::i18n::{t, translate};
use crate::repos::{lowercase, to_lowercase};
use crate::search::{matching_indices, positions_containing, strings_view};
use crate::sort::{key_before, sort_rel, stable_sort_by_keys};
use crate::text::{chars_of, filter_map, lemma_filter_map_all, lemma_filter_map_take, split_char, split_seq, string_of, trim, trim_vec, vviews};

verus! {

// ---------------------------------------------------------------------------
// Members

/// What one comma-separated part of the alias field gives: the part without
/// surrounding white space, unless nothing is left.
pub open spec fn alias_part(part: Seq<char>) -> Option<Seq<char>> {
    if trim(part).len() > 0 {
        Some(trim(part))
    } else {
        None
    }
}

/// The aliases typed into the alias field: its comma-separated parts,
/// trimmed, the empty ones left out.
pub open spec fn alias_list(input: Seq<char>) -> Seq<Seq<char>> {
    filter_map(split_seq(input, seq![',']), |p: Seq<char>| alias_part(p))
}

/// `alias_list` of the alias field.
pub fn parse_alias_list(input: &str) -> (r: Vec<String>)
    ensures
        strings_view(r@) == alias_list(input@),
{
    let parts = split_char(&chars_of(input), ',');
    let ghost pv = vviews(parts@);
    let ghost f = |p: Seq<char>| alias_part(p);
    let mut r: Vec<String> = Vec::new();
    let mut i: usize = 0;
    while i < parts.len()
        invariant
            i <= parts@.len(),
            pv == vviews(parts@),
            pv == split_seq(input@, seq![',']),
            f == (|p: Seq<char>| alias_part(p)),
            strings_view(r@) == filter_map(pv.take(i as int), f),
        decreases parts.len() - i,
    {
        proof {
            lemma_filter_map_take(pv, f, i as int);
            assert(pv[i as int] == parts@[i as int]@);
        }
        let tv = trim_vec(&parts[i]);
        if tv.len() > 0 {
            let ghost prev = r@;
            r.push(string_of(&tv));
            assert(strings_view(r@) =~= strings_view(prev).push(tv@));
        }
        i = i + 1;
    }
    proof {
        lemma_filter_map_all(pv, f);
    }
    r
}

/// What the member form gives: the error when the name is blank, else the
/// member with the trimmed name, the aliases of the alias field, and the
/// active flag.
pub open spec fn member_form(lang: Language, name: Seq<char>, aliases: Seq<char>, is_active: bool) -> Result<MemberV, Seq<char>> {
    if trim(name).len() == 0 {
        Err(translate(lang, "err_enter_canonical_name"@))
    } else {
        Ok(MemberV { canonical_name: trim(name), aliases: alias_list(aliases), is_active: is_active })
    }
}

/// The member the form describes, or the message shown under it.
pub fn member_from_form(lang: Language, name: &str, aliases: &str, is_active: bool) -> (r: Result<Member, String>)
    ensures
        match r {
            Ok(m) => member_form(lang, name@, aliases@, is_active) == Ok::<MemberV, Seq<char>>(m@),
            Err(e) => member_form(lang, name@, aliases@, is_active) == Err::<MemberV, Seq<char>>(e@),
        },
{
    let n = trim_vec(&chars_of(name));
    if n.len() == 0 {
        return Err(lit(t(lang, "err_enter_canonical_name")));
    }
    let list = parse_alias_list(aliases);
    let m = Member { canonical_name: string_of(&n), aliases: list, is_active };
    assert(m@.aliases =~= strings_view(list@));
    Ok(m)
}

/// Saves the edit of member `idx` from the form: its name and aliases
/// change, its active flag stays; when the name is blank nothing changes
/// and the message is returned.
pub fn apply_member_edit(members: &mut Vec<Member>, idx: usize, lang: Language, name: &str, aliases: &str) -> (r: Option<String>)
    requires
        idx < old(members)@.len(),
    ensures
        match member_form(lang, name@, aliases@, old(members)@[idx as int].is_active) {
            Ok(m) => r is None && members_view(final(members)@) == members_view(old(members)@).update(idx as int, m),
            Err(e) => (r matches Some(s) && s@ == e) && members_view(final(members)@) == members_view(old(members)@),
        },
{
    let active = members[idx].is_active;
    match member_from_form(lang, name, aliases, active) {
        Ok(m) => {
            let ghost before = members_view(members@);
            let ghost mv = m@;
            members.set(idx, m);
            assert(members_view(members@) =~= before.update(idx as int, mv));
            None
        },
        Err(e) => Some(e),
    }
}

/// Whether a list holds a name equal to `x` up to ASCII case.
pub open spec fn any_eq_ignore_case(list: Seq<Seq<char>>, x: Seq<char>) -> bool {
    exists|i: int| 0 <= i < list.len() && eq_ignore_ascii_case(#[trigger] list[i], x)
}

/// A member after a contributor's name and e-mail address were added as
/// aliases: the trimmed name, unless blank or already the member's name or
/// an alias (up to ASCII case); then the trimmed address, unless blank or
/// already an alias.
pub open spec fn with_contributor_aliases(m: MemberV, name: Seq<char>, email: Seq<char>) -> MemberV {
    let n = trim(name);
    let e = trim(email);
    let a1 = if n.len() > 0 && !eq_ignore_ascii_case(m.canonical_name, n) && !any_eq_ignore_case(m.aliases, n) {
        m.aliases.push(n)
    } else {
        m.aliases
    };
    let a2 = if e.len() > 0 && !any_eq_ignore_case(a1, e) {
        a1.push(e)
    } else {
        a1
    };
    MemberV { canonical_name: m.canonical_name, aliases: a2, is_active: m.is_active }
}

fn any_eq_ignore_case_exec(list: &Vec<String>, x: &Vec<char>) -> (r: bool)
    ensures
        r == any_eq_ignore_case(strings_view(list@), x@),
{
    let ghost lv = strings_view(list@);
    let mut i: usize = 0;
    while i < list.len()
        invariant
            i <= list@.len(),
            lv == strings_view(list@),
            forall|j: int| 0 <= j < i ==> !eq_ignore_ascii_case(#[trigger] lv[j], x@),
        decreases list.len() - i,
    {
        if eq_ignore_ascii_case_exec(&chars_of(list[i].as_str()), x) {
            assert(eq_ignore_ascii_case(lv[i as int], x@));
            return true;
        }
        i = i + 1;
    }
    false
}

/// Adds a contributor's name and e-mail address to a member's aliases (see
/// `with_contributor_aliases`).
pub fn add_contributor_aliases(member: &mut Member, name: &str, email: &str)
    ensures
        final(member)@ == with_contributor_aliases(old(member)@, name@, email@),
{
    let ghost m0 = member@;
    let n = trim_vec(&chars_of(name));
    let e = trim_vec(&chars_of(email));
    if n.len() > 0 && !eq_ignore_ascii_case_exec(&chars_of(member.canonical_name.as_str()), &n)
        && !any_eq_ignore_case_exec(&member.aliases, &n)
    {
        let ghost prev = strings_view(member.aliases@);
        member.aliases.push(string_of(&n));
        assert(strings_view(member.aliases@) =~= prev.push(n@));
    }
    let ghost a1 = strings_view(member.aliases@);
    if e.len() > 0 && !any_eq_ignore_case_exec(&member.aliases, &e) {
        member.aliases.push(string_of(&e));
        assert(strings_view(member.aliases@) =~= a1.push(e@));
    }
    assert(member@.aliases =~= with_contributor_aliases(m0, name@, email@).aliases);
}


// ---------------------------------------------------------------------------
// Repositories

/// What the repository form gives: the error when the name or the path is
/// blank; when the path is no repository (`is_repo`, the result of the git
/// check on it), the error for an unreachable SSH locator or for a local
/// folder; else the trimmed name and the path as typed.
pub open spec fn repo_form(lang: Language, name: Seq<char>, path: Seq<char>, is_repo: bool) -> Result<(Seq<char>, Seq<char>), Seq<char>> {
    if trim(name).len() == 0 || trim(path).len() == 0 {
        Err(translate(lang, "err_enter_name_and_path"@))
    } else if !is_repo {
        Err(if ssh_repo(path) is Some {
            translate(lang, "err_ssh_unreachable"@)
        } else {
            translate(lang, "err_invalid_git_repo"@)
        })
    } else {
        Ok((trim(name), path))
    }
}

/// Registers the repository of the form (see `repo_form`) at the end of the
/// list; on an error nothing changes and the message is returned.
pub fn add_repository_from_form(repos: &mut Vec<Repository>, lang: Language, name: &str, path: &str, is_repo: bool) -> (r: Option<String>)
    ensures
        match repo_form(lang, name@, path@, is_repo) {
            Ok((n, p)) => r is None && repos_view(final(repos)@) == repos_view(old(repos)@).push(
                RepositoryV { name: n, path: p, host: None },
            ),
            Err(e) => (r matches Some(s) && s@ == e) && repos_view(final(repos)@) == repos_view(old(repos)@),
        },
{
    let n = trim_vec(&chars_of(name));
    let p = trim_vec(&chars_of(path));
    if n.len() == 0 || p.len() == 0 {
        return Some(lit(t(lang, "err_enter_name_and_path")));
    }
    if !is_repo {
        return Some(
            if parse_ssh_repo(path).is_some() {
                lit(t(lang, "err_ssh_unreachable"))
            } else {
                lit(t(lang, "err_invalid_git_repo"))
            },
        );
    }
    let ghost before = repos_view(repos@);
    let repo = Repository { name: string_of(&n), path: lit(path), host: None };
    repos.push(repo);
    assert(repos_view(repos@) =~= before.push(RepositoryV { name: n@, path: path@, host: None }));
    None
}

/// What the edit form of a repository gives: as `repo_form`, but a path
/// that is no repository is refused with the local-folder message alone.
pub open spec fn repo_edit_form(lang: Language, name: Seq<char>, path: Seq<char>, is_repo: bool) -> Result<(Seq<char>, Seq<char>), Seq<char>> {
    if trim(name).len() == 0 || trim(path).len() == 0 {
        Err(translate(lang, "err_enter_name_and_path"@))
    } else if !is_repo {
        Err(translate(lang, "err_invalid_git_repo"@))
    } else {
        Ok((trim(name), path))
    }
}

/// Saves the edit of repository `idx`: its name and path change, its host
/// stays; on an error nothing changes and the message is returned.
pub fn apply_repository_edit(repos: &mut Vec<Repository>, idx: usize, lang: Language, name: &str, path: &str, is_repo: bool) -> (r: Option<String>)
    requires
        idx < old(repos)@.len(),
    ensures
        match repo_edit_form(lang, name@, path@, is_repo) {
            Ok((n, p)) => r is None && repos_view(final(repos)@) == repos_view(old(repos)@).update(
                idx as int,
                RepositoryV { name: n, path: p, host: old(repos)@[idx as int]@.host },
            ),
            Err(e) => (r matches Some(s) && s@ == e) && repos_view(final(repos)@) == repos_view(old(repos)@),
        },
{
    let n = trim_vec(&chars_of(name));
    let p = trim_vec(&chars_of(path));
    if n.len() == 0 || p.len() == 0 {
        return Some(lit(t(lang, "err_enter_name_and_path")));
    }
    if !is_repo {
        return Some(lit(t(lang, "err_invalid_git_repo")));
    }
    let ghost before = repos_view(repos@);
    let host = match &repos[idx].host {
        Some(h) => Some(lit(h.as_str())),
        None => None,
    };
    let repo = Repository { name: string_of(&n), path: lit(path), host };
    let ghost rv = repo@;
    repos.set(idx, repo);
    assert(repos_view(repos@) =~= before.update(idx as int, rv));
    None
}


// ---------------------------------------------------------------------------
// Registering several picked folders at once

/// Whether two path strings name the same path as `Path::eq` compares them:
/// component by component. Which characters separate components is fixed by
/// the platform the library is built for, so the result is the same for the
/// same strings wherever one build runs.
pub uninterp spec fn paths_equal(a: Seq<char>, b: Seq<char>) -> bool;

/// `Path::eq` on two path strings. Its result is named `paths_equal` of the
/// arguments; how `Path` splits components is not restated. A string names
/// the same path as itself.
#[verifier::external_body]
pub(crate) fn same_path(a: &str, b: &str) -> (r: bool)
    ensures
        r == paths_equal(a@, b@),
        a@ == b@ ==> r,
{
    std::path::Path::new(a) == std::path::Path::new(b)
}

/// Whether some repository's path is, as a string, `path`.
pub open spec fn path_listed(repos: Seq<RepositoryV>, path: Seq<char>) -> bool {
    exists|i: int| 0 <= i < repos.len() && (#[trigger] repos[i]).path == path
}

/// Whether some repository's path names the same path as `path` (see
/// `paths_equal`).
pub open spec fn path_registered(repos: Seq<RepositoryV>, path: Seq<char>) -> bool {
    exists|i: int| 0 <= i < repos.len() && paths_equal((#[trigger] repos[i]).path, path)
}

/// Whether `path` is registered already, as paths compare (see
/// `path_registered`): a path that some repository has, character for
/// character, always is.
pub fn is_registered(repos: &Vec<Repository>, path: &str) -> (r: bool)
    ensures
        r == path_registered(repos_view(repos@), path@),
        path_listed(repos_view(repos@), path@) ==> r,
{
    let ghost rv = repos_view(repos@);
    let mut i: usize = 0;
    while i < repos.len()
        invariant
            i <= repos@.len(),
            rv == repos_view(repos@),
            forall|j: int| 0 <= j < i ==> !paths_equal((#[trigger] rv[j]).path, path@),
            forall|j: int| 0 <= j < i ==> (#[trigger] rv[j]).path != path@,
        decreases repos.len() - i,
    {
        assert(rv[i as int].path == repos@[i as int].path@);
        if same_path(repos[i].path.as_str(), path) {
            assert(paths_equal(rv[i as int].path, path@));
            return true;
        }
        i = i + 1;
    }
    false
}

/// Why a picked folder is skipped: registered already, or no repository;
/// `None` when it is registered.
pub open spec fn pick_skip(lang: Language, name: Seq<char>, registered: bool, is_repo: bool) -> Option<Seq<char>> {
    if registered {
        Some(name + " "@ + translate(lang, "already_registered"@))
    } else if !is_repo {
        Some(name + " "@ + translate(lang, "not_a_git_repo"@))
    } else {
        None
    }
}

/// Deals with one picked folder, named `name` (its folder name) at `path`:
/// skipped with its reason (see `pick_skip`), or registered at the end of
/// the list; returns whether it was registered.
pub fn register_pick(
    repos: &mut Vec<Repository>,
    skipped: &mut Vec<String>,
    lang: Language,
    name: &str,
    path: &str,
    registered: bool,
    is_repo: bool,
) -> (added: bool)
    ensures
        match pick_skip(lang, name@, registered, is_repo) {
            Some(m) => !added && repos_view(final(repos)@) == repos_view(old(repos)@)
                && strings_view(final(skipped)@) == strings_view(old(skipped)@).push(m),
            None => added && repos_view(final(repos)@) == repos_view(old(repos)@).push(
                RepositoryV { name: name@, path: path@, host: None },
            ) && strings_view(final(skipped)@) == strings_view(old(skipped)@),
        },
{
    if registered || !is_repo {
        let reason = if registered { t(lang, "already_registered") } else { t(lang, "not_a_git_repo") };
        let mut v = chars_of(name);
        v.push(' ');
        proof {
            reveal_strlit(" ");
            assert(v@ =~= name@ + " "@);
        }
        let msg = crate::text::concat(&v, &chars_of(reason));
        let ghost prev = strings_view(skipped@);
        skipped.push(string_of(&msg));
        assert(strings_view(skipped@) =~= prev.push(msg@));
        false
    } else {
        let ghost before = repos_view(repos@);
        repos.push(Repository { name: lit(name), path: lit(path), host: None });
        assert(repos_view(repos@) =~= before.push(RepositoryV { name: name@, path: path@, host: None }));
        true
    }
}

pub open spec fn picks_view(s: Seq<(String, String, bool)>) -> Seq<(Seq<char>, Seq<char>, bool)> {
    s.map_values(|p: (String, String, bool)| (p.0@, p.1@, p.2))
}

/// The repositories, the number registered, and the skip messages after the
/// picked folders (name, path, whether the git check passed) are dealt with
/// in order, `registered[k]` telling whether folder `k` was found registered.
pub open spec fn bulk_fold(
    repos: Seq<RepositoryV>,
    picks: Seq<(Seq<char>, Seq<char>, bool)>,
    registered: Seq<bool>,
    lang: Language,
) -> (Seq<RepositoryV>, nat, Seq<Seq<char>>)
    decreases picks.len(),
{
    if picks.len() == 0 {
        (repos, 0, Seq::empty())
    } else {
        let prev = bulk_fold(repos, picks.drop_last(), registered.drop_last(), lang);
        let p = picks.last();
        match pick_skip(lang, p.0, registered.last(), p.2) {
            Some(m) => (prev.0, prev.1, prev.2.push(m)),
            None => (prev.0.push(RepositoryV { name: p.0, path: p.1, host: None }), prev.1 + 1, prev.2),
        }
    }
}

/// Whether the registration answers are possible ones: a folder whose path
/// a repository registered before it has, character for character, is
/// found registered.
pub open spec fn answers_consistent(
    repos: Seq<RepositoryV>,
    picks: Seq<(Seq<char>, Seq<char>, bool)>,
    registered: Seq<bool>,
    lang: Language,
) -> bool {
    &&& registered.len() == picks.len()
    &&& forall|k: int| 0 <= k < picks.len() && path_listed(
        bulk_fold(repos, picks.take(k), registered.take(k), lang).0,
        #[trigger] picks[k].1,
    ) ==> registered[k]
}

/// The registration answers: `registered[k]` is whether the path of folder
/// `k` is registered (see `path_registered`) in the list as it stands when
/// that folder's turn comes; so a folder whose path is listed, character
/// for character, is found registered.
pub open spec fn answers_exact(
    repos: Seq<RepositoryV>,
    picks: Seq<(Seq<char>, Seq<char>, bool)>,
    registered: Seq<bool>,
    lang: Language,
) -> bool {
    &&& answers_consistent(repos, picks, registered, lang)
    &&& forall|k: int| 0 <= k < picks.len() ==> #[trigger] registered[k] == path_registered(
        bulk_fold(repos, picks.take(k), registered.take(k), lang).0,
        picks[k].1,
    )
}

/// Registers the picked folders in order (see `register_pick`), each after
/// a check whether its path is registered already; returns the number
/// registered and the skip messages. The result is `bulk_fold` of the
/// answers to those checks (see `answers_exact`), which the picks and the
/// list determine one by one.
pub fn bulk_add_repositories(repos: &mut Vec<Repository>, lang: Language, picks: &Vec<(String, String, bool)>) -> (r: (usize, Vec<String>))
    ensures
        exists|registered: Seq<bool>| {
            &&& answers_exact(repos_view(old(repos)@), picks_view(picks@), registered, lang)
            &&& bulk_fold(repos_view(old(repos)@), picks_view(picks@), registered, lang) == (
                repos_view(final(repos)@),
                r.0 as nat,
                strings_view(r.1@),
            )
        },
{
    let ghost r0 = repos_view(repos@);
    let ghost pv = picks_view(picks@);
    let ghost mut flags: Seq<bool> = Seq::empty();
    let mut skipped: Vec<String> = Vec::new();
    let mut added: usize = 0;
    let mut i: usize = 0;
    assert(pv.take(0) =~= Seq::<(Seq<char>, Seq<char>, bool)>::empty());
    while i < picks.len()
        invariant
            i <= picks@.len(),
            pv == picks_view(picks@),
            flags.len() == i,
            added <= i,
            bulk_fold(r0, pv.take(i as int), flags, lang) == (repos_view(repos@), added as nat, strings_view(skipped@)),
            forall|k: int| 0 <= k < i && path_listed(
                bulk_fold(r0, pv.take(k), flags.take(k), lang).0,
                #[trigger] pv[k].1,
            ) ==> flags[k],
            forall|k: int| 0 <= k < i ==> #[trigger] flags[k] == path_registered(
                bulk_fold(r0, pv.take(k), flags.take(k), lang).0,
                pv[k].1,
            ),
        decreases picks.len() - i,
    {
        let reg = is_registered(repos, picks[i].1.as_str());
        let ghost old_flags = flags;
        proof {
            assert(pv[i as int].1 == picks@[i as int].1@);
            assert(old_flags =~= old_flags.take(i as int));
            flags = flags.push(reg);
        }
        let a = register_pick(repos, &mut skipped, lang, picks[i].0.as_str(), picks[i].1.as_str(), reg, picks[i].2);
        if a {
            added = added + 1;
        }
        proof {
            assert(pv.take(i + 1).drop_last() =~= pv.take(i as int));
            assert(pv.take(i + 1).last() == pv[i as int]);
            assert(flags.drop_last() =~= old_flags);
            assert forall|k: int| 0 <= k < i + 1 && path_listed(
                bulk_fold(r0, pv.take(k), flags.take(k), lang).0,
                #[trigger] pv[k].1,
            ) implies flags[k] by {
                if k < i {
                    assert(flags.take(k) =~= old_flags.take(k));
                } else {
                    assert(flags.take(k) =~= old_flags);
                }
            }
            assert forall|k: int| 0 <= k < i + 1 implies #[trigger] flags[k] == path_registered(
                bulk_fold(r0, pv.take(k), flags.take(k), lang).0,
                pv[k].1,
            ) by {
                if k < i {
                    assert(flags.take(k) =~= old_flags.take(k));
                    assert(flags[k] == old_flags[k]);
                } else {
                    assert(flags.take(k) =~= old_flags);
                }
            }
        }
        i = i + 1;
    }
    assert(pv.take(picks@.len() as int) =~= pv);
    proof {
        assert forall|k: int| 0 <= k < pv.len() && path_listed(
            bulk_fold(r0, pv.take(k), flags.take(k), lang).0,
            #[trigger] pv[k].1,
        ) implies flags[k] by {}
        assert(answers_consistent(r0, pv, flags, lang));
        assert(answers_exact(r0, pv, flags, lang));
    }
    (added, skipped)
}


/// The parts, with `sep` between each two.
pub open spec fn joined(parts: Seq<Seq<char>>, sep: Seq<char>) -> Seq<char>
    decreases parts.len(),
{
    if parts.len() == 0 {
        Seq::empty()
    } else if parts.len() == 1 {
        parts[0]
    } else {
        joined(parts.drop_last(), sep) + sep + parts.last()
    }
}

pub(crate) fn joined_exec(parts: &Vec<String>, sep: &str) -> (r: Vec<char>)
    ensures
        r@ == joined(strings_view(parts@), sep@),
{
    let ghost pv = strings_view(parts@);
    let mut r: Vec<char> = Vec::new();
    let s = chars_of(sep);
    let mut i: usize = 0;
    assert(pv.take(0) =~= Seq::<Seq<char>>::empty());
    while i < parts.len()
        invariant
            i <= parts@.len(),
            pv == strings_view(parts@),
            s@ == sep@,
            r@ == joined(pv.take(i as int), sep@),
        decreases parts.len() - i,
    {
        proof {
            assert(pv.take(i + 1).drop_last() =~= pv.take(i as int));
            assert(pv.take(i + 1).last() == parts@[i as int]@);
        }
        let part = chars_of(parts[i].as_str());
        if i == 0 {
            r = part;
            assert(pv.take(1)[0] == part@);
        } else {
            r = crate::text::concat(&crate::text::concat(&r, &s), &part);
        }
        i = i + 1;
    }
    assert(pv.take(parts@.len() as int) =~= pv);
    r
}

/// The notice after a bulk registration that registered `added` folders;
/// none when it registered none.
pub open spec fn bulk_added_notice(lang: Language, added: nat) -> Option<Seq<char>> {
    if added == 0 {
        None
    } else {
        Some(match lang {
            Language::English => "Added "@ + crate::text::decimal(added) + " repository(ies)"@,
            Language::Japanese => crate::text::decimal(added) + "件のリポジトリを追加しました"@,
        })
    }
}

/// `bulk_added_notice`.
pub fn bulk_added_message(lang: Language, added: usize) -> (r: Option<String>)
    ensures
        match bulk_added_notice(lang, added as nat) {
            Some(m) => r matches Some(s) && s@ == m,
            None => r is None,
        },
{
    if added == 0 {
        return None;
    }
    let d = crate::text::decimal_chars(added as u64);
    let v = match lang {
        Language::English => crate::text::concat(&crate::text::concat(&chars_of("Added "), &d), &chars_of(" repository(ies)")),
        Language::Japanese => crate::text::concat(&d, &chars_of("件のリポジトリを追加しました")),
    };
    Some(string_of(&v))
}

/// The notice listing the skipped folders with their reasons, separated by
/// commas; none when none was skipped.
pub open spec fn bulk_skipped_notice(lang: Language, skipped: Seq<Seq<char>>) -> Option<Seq<char>> {
    if skipped.len() == 0 {
        None
    } else {
        Some(match lang {
            Language::English => "Skipped: "@,
            Language::Japanese => "スキップ: "@,
        } + joined(skipped, ", "@))
    }
}

/// `bulk_skipped_notice`.
pub fn bulk_skipped_message(lang: Language, skipped: &Vec<String>) -> (r: Option<String>)
    ensures
        match bulk_skipped_notice(lang, strings_view(skipped@)) {
            Some(m) => r matches Some(s) && s@ == m,
            None => r is None,
        },
{
    if skipped.len() == 0 {
        return None;
    }
    let prefix = match lang {
        Language::English => chars_of("Skipped: "),
        Language::Japanese => chars_of("スキップ: "),
    };
    let j = joined_exec(skipped, ", ");
    Some(string_of(&crate::text::concat(&prefix, &j)))
}

// ---------------------------------------------------------------------------
// Headings and the member list

/// The heading over the registered repositories, with their number.
pub open spec fn repo_count_title(lang: Language, n: nat) -> Seq<char> {
    match lang {
        Language::English => "Registered Repositories ("@ + crate::text::decimal(n) + " total)"@,
        Language::Japanese => "登録済みリポジトリ  ("@ + crate::text::decimal(n) + "件)"@,
    }
}

/// The heading over the registered members, with their number.
pub open spec fn member_count_title(lang: Language, n: nat) -> Seq<char> {
    match lang {
        Language::English => "Registered Members ("@ + crate::text::decimal(n) + " total)"@,
        Language::Japanese => "登録済みメンバー  ("@ + crate::text::decimal(n) + "人)"@,
    }
}

fn around(pre: &str, n: usize, post: &str) -> (r: String)
    ensures
        r@ == pre@ + crate::text::decimal(n as nat) + post@,
{
    let d = crate::text::decimal_chars(n as u64);
    string_of(&crate::text::concat(&crate::text::concat(&chars_of(pre), &d), &chars_of(post)))
}

/// `repo_count_title`.
pub fn repo_count_heading(lang: Language, n: usize) -> (r: String)
    ensures
        r@ == repo_count_title(lang, n as nat),
{
    match lang {
        Language::English => around("Registered Repositories (", n, " total)"),
        Language::Japanese => around("登録済みリポジトリ  (", n, "件)"),
    }
}

/// `member_count_title`.
pub fn member_count_heading(lang: Language, n: usize) -> (r: String)
    ensures
        r@ == member_count_title(lang, n as nat),
{
    match lang {
        Language::English => around("Registered Members (", n, " total)"),
        Language::Japanese => around("登録済みメンバー  (", n, "人)"),
    }
}


/// The sort key of member `i` in the member list: its lower-cased name.
pub open spec fn member_key(members: Seq<MemberV>, i: usize) -> (u8, Seq<char>) {
    (0u8, lowercase(members[i as int].canonical_name))
}

/// The order the member list shows the members in, by position: sorted by
/// lower-cased name, members with the same lower-cased name in their
/// registration order.
pub fn member_display_order(members: &Vec<Member>) -> (r: Vec<usize>)
    ensures
        r@ == sort_rel(
            Seq::new(members@.len(), |i: int| i as usize),
            |a: usize, b: usize| key_before(member_key(members_view(members@), a), member_key(members_view(members@), b), false),
        ),
{
    let ghost mv = members_view(members@);
    let ghost key = |i: usize| member_key(mv, i);
    let mut items: Vec<usize> = Vec::new();
    let mut keys: Vec<(u8, Vec<char>)> = Vec::new();
    let mut i: usize = 0;
    while i < members.len()
        invariant
            i <= members@.len(),
            mv == members_view(members@),
            key == (|i: usize| member_key(mv, i)),
            items@ == Seq::new(i as nat, |k: int| k as usize),
            keys@.len() == i,
            forall|k: int| 0 <= k < i ==> (keys@[k].0, keys@[k].1@) == key(#[trigger] items@[k]),
        decreases members.len() - i,
    {
        let low = to_lowercase(members[i].canonical_name.as_str());
        keys.push((0u8, chars_of(low.as_str())));
        items.push(i);
        assert(items@ =~= Seq::new((i + 1) as nat, |k: int| k as usize));
        assert(mv[i as int].canonical_name == members@[i as int].canonical_name@);
        i = i + 1;
    }
    let ghost idx = items@;
    let r = stable_sort_by_keys(items, keys, false, Ghost(key));
    assert(Seq::new(members@.len(), |i: int| i as usize) =~= idx);
    assert((|a: usize, b: usize| key_before(key(a), key(b), false)) =~= (|a: usize, b: usize| key_before(
        member_key(members_view(members@), a),
        member_key(members_view(members@), b),
        false,
    )));
    r
}

/// The members the alias dialog offers for a filter text: those whose
/// lower-cased name contains the lower-cased filter, by position (all of
/// them for an empty filter).
pub fn alias_dialog_candidates(members: &Vec<Member>, filter: &str) -> (r: Vec<usize>)
    ensures
        r@ == matching_indices(
            members_view(members@).map_values(|m: MemberV| lowercase(m.canonical_name)),
            lowercase(filter@),
        ),
{
    let q = to_lowercase(filter);
    let ghost lf = |m: MemberV| lowercase(m.canonical_name);
    let ghost mv = members_view(members@);
    let mut lowered: Vec<String> = Vec::new();
    let mut i: usize = 0;
    while i < members.len()
        invariant
            i <= members@.len(),
            mv == members_view(members@),
            lf == (|m: MemberV| lowercase(m.canonical_name)),
            strings_view(lowered@) == mv.take(i as int).map_values(lf),
        decreases members.len() - i,
    {
        let l = to_lowercase(members[i].canonical_name.as_str());
        let ghost prev = lowered@;
        lowered.push(l);
        assert(strings_view(lowered@) =~= mv.take(i + 1).map_values(lf)) by {
            assert(strings_view(prev) =~= mv.take(i as int).map_values(lf));
            assert(mv[i as int].canonical_name == members@[i as int].canonical_name@);
            assert(lowered@ =~= prev.push(l));
            assert(strings_view(lowered@) =~= strings_view(prev).push(l@));
            assert(mv.take(i + 1).map_values(lf) =~= mv.take(i as int).map_values(lf).push(lf(mv[i as int])));
        }
        i = i + 1;
    }
    assert(mv.take(members@.len() as int) =~= mv);
    positions_containing(&lowered, q.as_str())
}


/// Adding a contributor's name and address to a member a second time
/// changes nothing: both are then the member's name or among its aliases,
/// up to ASCII case.
pub proof fn lemma_contributor_aliases_idempotent(m: MemberV, name: Seq<char>, email: Seq<char>)
    ensures
        with_contributor_aliases(with_contributor_aliases(m, name, email), name, email) == with_contributor_aliases(m, name, email),
{
    let m1 = with_contributor_aliases(m, name, email);
    let n = trim(name);
    let e = trim(email);
    let a1 = if n.len() > 0 && !eq_ignore_ascii_case(m.canonical_name, n) && !any_eq_ignore_case(m.aliases, n) {
        m.aliases.push(n)
    } else {
        m.aliases
    };
    // The name is now the member's name or an alias.
    if n.len() > 0 && !eq_ignore_ascii_case(m.canonical_name, n) {
        if !any_eq_ignore_case(m.aliases, n) {
            assert(a1[a1.len() - 1] == n);
            assert(eq_ignore_ascii_case(a1[a1.len() - 1], n));
        }
        assert(any_eq_ignore_case(a1, n));
        let j = choose|j: int| 0 <= j < a1.len() && eq_ignore_ascii_case(#[trigger] a1[j], n);
        assert(m1.aliases[j] == a1[j]);
        assert(any_eq_ignore_case(m1.aliases, n));
    }
    // The address is now an alias.
    if e.len() > 0 {
        if !any_eq_ignore_case(a1, e) {
            assert(m1.aliases[m1.aliases.len() - 1] == e);
            assert(eq_ignore_ascii_case(m1.aliases[m1.aliases.len() - 1], e));
        } else {
            let j = choose|j: int| 0 <= j < a1.len() && eq_ignore_ascii_case(#[trigger] a1[j], e);
            assert(m1.aliases[j] == a1[j]);
        }
        assert(any_eq_ignore_case(m1.aliases, e));
    }
}


/// A bulk registration never lists a path twice: every repository it adds
/// has a path (as a string) that no repository before it in the list has.
pub proof fn lemma_bulk_adds_new_paths(
    repos: Seq<RepositoryV>,
    picks: Seq<(Seq<char>, Seq<char>, bool)>,
    registered: Seq<bool>,
    lang: Language,
)
    requires
        answers_consistent(repos, picks, registered, lang),
    ensures
        bulk_fold(repos, picks, registered, lang).0.len() >= repos.len(),
        bulk_fold(repos, picks, registered, lang).0.take(repos.len() as int) == repos,
        forall|i: int, j: int|
            0 <= j < i < bulk_fold(repos, picks, registered, lang).0.len() && i >= repos.len() ==>
                (#[trigger] bulk_fold(repos, picks, registered, lang).0[j]).path != (#[trigger] bulk_fold(repos, picks, registered, lang).0[i]).path,
    decreases picks.len(),
{
    if picks.len() == 0 {
        assert(repos.take(repos.len() as int) =~= repos);
    } else {
        let pi = picks.drop_last();
        let ri = registered.drop_last();
        assert forall|k: int| 0 <= k < pi.len() && path_listed(
            bulk_fold(repos, pi.take(k), ri.take(k), lang).0,
            #[trigger] pi[k].1,
        ) implies ri[k] by {
            assert(pi.take(k) =~= picks.take(k));
            assert(ri.take(k) =~= registered.take(k));
            assert(pi[k] == picks[k]);
        }
        lemma_bulk_adds_new_paths(repos, pi, ri, lang);
        let prev = bulk_fold(repos, pi, ri, lang);
        let p = picks.last();
        let k = picks.len() - 1;
        assert(picks.take(k) =~= pi);
        assert(registered.take(k) =~= ri);
        if pick_skip(lang, p.0, registered.last(), p.2) is None {
            let r = prev.0.push(RepositoryV { name: p.0, path: p.1, host: None });
            assert(!path_listed(prev.0, picks[k].1));
            assert(r.take(repos.len() as int) =~= prev.0.take(repos.len() as int));
            assert forall|i: int, j: int| 0 <= j < i < r.len() && i >= repos.len() implies
                (#[trigger] r[j]).path != (#[trigger] r[i]).path by {
                if i == r.len() - 1 {
                    assert(r[j] == prev.0[j]);
                    if prev.0[j].path == p.1 {
                        assert(path_listed(prev.0, picks[k].1));
                    }
                } else {
                    assert(r[j] == prev.0[j] && r[i] == prev.0[i]);
                }
            }
        }
    }
}

} // verus!

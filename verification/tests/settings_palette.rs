use git_dashboard::analysis::{editor_invocation, editor_launch_error};
use git_dashboard::session::sync_targets;
use git_dashboard::config::{Language, Member, Repository, repo_cache_file_name, repo_cache_name};
use git_dashboard::diff::{status_color, StatusTone};
use git_dashboard::messages::{is_toast_alive, keep_new_result, on_worker_message, push_toast, retain_live_toasts, toast_ttl_ms, LoadBook, PullState, Toast, ToastKind, WorkerMessage};
use git_dashboard::palette::{filter_palette, palette_commands, palette_selection, PaletteAction};
use git_dashboard::search::{match_counter_text, step_match};
use git_dashboard::settings::{
    add_contributor_aliases, add_repository_from_form, alias_dialog_candidates, apply_member_edit,
    apply_repository_edit, bulk_add_repositories, bulk_added_message, bulk_skipped_message,
    member_count_heading, member_display_order, member_from_form, parse_alias_list, register_pick,
    repo_count_heading,
};
use git_dashboard::view::branch_color_index;

fn member(name: &str, aliases: &[&str], active: bool) -> Member {
    Member {
        canonical_name: name.to_string(),
        aliases: aliases.iter().map(|s| s.to_string()).collect(),
        is_active: active,
    }
}

fn repo(name: &str, path: &str) -> Repository {
    Repository { name: name.to_string(), path: path.to_string(), host: None }
}

#[test]
fn test_toast_lifetimes() {
    assert_eq!(toast_ttl_ms(ToastKind::Error), 6000);
    assert_eq!(toast_ttl_ms(ToastKind::Info), 3000);
    assert_eq!(toast_ttl_ms(ToastKind::Success), 3000);
    let mut toasts: Vec<Toast> = Vec::new();
    push_toast(&mut toasts, "saved".to_string(), ToastKind::Success, 1000);
    push_toast(&mut toasts, "failed".to_string(), ToastKind::Error, 1000);
    push_toast(&mut toasts, "note".to_string(), ToastKind::Info, 2500);
    assert_eq!(toasts.len(), 3);
    assert!(is_toast_alive(&toasts[0], 3999));
    assert!(!is_toast_alive(&toasts[0], 4000));
    // A clock read before the notice counts as no time passed.
    assert!(is_toast_alive(&toasts[0], 10));

    retain_live_toasts(&mut toasts, 4200);
    let left: Vec<&str> = toasts.iter().map(|t| t.message.as_str()).collect();
    assert_eq!(left, vec!["failed", "note"]);
    retain_live_toasts(&mut toasts, 4200);
    assert_eq!(toasts.len(), 2);
    retain_live_toasts(&mut toasts, 7000);
    assert!(toasts.is_empty());
}

#[test]
fn test_repo_cache_file_name() {
    assert_eq!(repo_cache_file_name(0), "repo-0000000000000000.json");
    assert_eq!(repo_cache_file_name(0xabc), "repo-0000000000000abc.json");
    assert_eq!(repo_cache_file_name(u64::MAX), "repo-ffffffffffffffff.json");
    assert_eq!(repo_cache_file_name(0x0123_4567_89ab_cdef), format!("repo-{:016x}.json", 0x0123_4567_89ab_cdefu64));
}

#[test]
fn test_status_color() {
    assert_eq!(status_color("A"), StatusTone::Success);
    assert_eq!(status_color("D"), StatusTone::Error);
    assert_eq!(status_color("R"), StatusTone::Warning);
    assert_eq!(status_color("M"), StatusTone::Accent);
    assert_eq!(status_color("AD"), StatusTone::Accent);
}

#[test]
fn test_branch_color_index() {
    // "ab": (97 * 31 + 98) = 3105
    assert_eq!(branch_color_index("ab", 8), 3105 % 8);
    assert_eq!(branch_color_index("", 8), 0);
    let mut h: u32 = 0;
    for b in "feature/ü-長い".bytes() {
        h = h.wrapping_mul(31).wrapping_add(b as u32);
    }
    assert_eq!(branch_color_index("feature/ü-長い", 7), (h as usize) % 7);
    assert_eq!(branch_color_index("main", 5), branch_color_index("main", 5));
}

#[test]
fn test_palette_commands() {
    let repos = vec!["alpha".to_string(), "beta".to_string()];
    let themes = vec!["Dark".to_string()];
    let cmds = palette_commands(Language::English, false, true, &repos, "System", &themes);
    let labels: Vec<&str> = cmds.iter().map(|c| c.0.as_str()).collect();
    assert_eq!(
        labels,
        vec![
            "Open Settings",
            "Collapse Sidebar",
            "Pull selected repository",
            "Open repository: alpha",
            "Open repository: beta",
            "Theme: System (Follow OS)",
            "Theme: Dark",
        ]
    );
    assert_eq!(cmds[3].1, PaletteAction::OpenRepo(0));
    assert_eq!(cmds[4].1, PaletteAction::OpenRepo(1));
    assert_eq!(cmds[5].1, PaletteAction::SetTheme("System".to_string()));
    assert_eq!(cmds[6].1, PaletteAction::SetTheme("Dark".to_string()));

    let ja = palette_commands(Language::Japanese, true, false, &repos, "System", &themes);
    assert_eq!(ja.len(), 6);
    assert_eq!(ja[1].0, "サイドバーを展開");
    assert_eq!(ja[2].0, "リポジトリを開く: alpha");
    assert_eq!(ja[5].0, "テーマ: Dark");

    assert_eq!(filter_palette(&cmds, "THEME"), vec![5, 6]);
    assert_eq!(filter_palette(&cmds, "repository"), vec![2, 3, 4]);
    assert_eq!(filter_palette(&cmds, "").len(), cmds.len());
    assert!(filter_palette(&cmds, "zzz").is_empty());
}

#[test]
fn test_palette_selection() {
    // Past the end: back onto the last entry.
    assert_eq!(palette_selection(9, 3, false, false), 2);
    assert_eq!(palette_selection(5, 0, false, false), 0);
    // Down wraps to the top, up wraps to the bottom.
    assert_eq!(palette_selection(2, 3, false, true), 0);
    assert_eq!(palette_selection(0, 3, true, false), 2);
    assert_eq!(palette_selection(1, 3, false, true), 2);
    // Both keys in one frame cancel out.
    assert_eq!(palette_selection(1, 3, true, true), 1);
    assert_eq!(palette_selection(0, 0, true, true), 0);
}

#[test]
fn test_diff_search_navigation() {
    assert_eq!(step_match(0, 3, false), 1);
    assert_eq!(step_match(2, 3, false), 0);
    assert_eq!(step_match(7, 3, false), 0);
    assert_eq!(step_match(0, 3, true), 2);
    assert_eq!(step_match(2, 3, true), 1);
    assert_eq!(step_match(step_match(1, 4, true), 4, false), 1);
    assert_eq!(match_counter_text(Language::English, true, 0, 0), "0 matches");
    assert_eq!(match_counter_text(Language::English, false, 0, 0), "Not found");
    assert_eq!(match_counter_text(Language::Japanese, false, 0, 0), "見つかりません");
    assert_eq!(match_counter_text(Language::English, false, 1, 12), "2/12");
}

#[test]
fn test_alias_list_and_member_form() {
    assert_eq!(parse_alias_list(" a@x.org , bob,, ,Carol "), vec!["a@x.org", "bob", "Carol"]);
    assert!(parse_alias_list("").is_empty());
    assert!(parse_alias_list(" , ").is_empty());

    let m = member_from_form(Language::English, "  Alice ", "alice@x.org, al", true).unwrap();
    assert_eq!(m.canonical_name, "Alice");
    assert_eq!(m.aliases, vec!["alice@x.org", "al"]);
    assert!(m.is_active);
    assert_eq!(
        member_from_form(Language::English, "   ", "x", false),
        Err("Please enter a display name.".to_string())
    );
    assert_eq!(
        member_from_form(Language::Japanese, "", "", true),
        Err("代表名を入力してください。".to_string())
    );
}

#[test]
fn test_apply_member_edit() {
    let mut members = vec![member("Alice", &["a"], false), member("Bob", &[], true)];
    assert_eq!(apply_member_edit(&mut members, 0, Language::English, " Alicia ", "x, y"), None);
    assert_eq!(members[0].canonical_name, "Alicia");
    assert_eq!(members[0].aliases, vec!["x", "y"]);
    assert!(!members[0].is_active);
    let before = members.clone();
    assert_eq!(
        apply_member_edit(&mut members, 1, Language::English, " ", "z"),
        Some("Please enter a display name.".to_string())
    );
    assert_eq!(members, before);
}

#[test]
fn test_add_contributor_aliases() {
    let mut m = member("Alice", &["ALICE@X.ORG"], true);
    add_contributor_aliases(&mut m, " alice ", "alice@x.org");
    // The name is the member's own name up to case, the address an alias.
    assert_eq!(m.aliases, vec!["ALICE@X.ORG"]);
    add_contributor_aliases(&mut m, " Al ", " al@y.org ");
    assert_eq!(m.aliases, vec!["ALICE@X.ORG", "Al", "al@y.org"]);
    add_contributor_aliases(&mut m, "", "");
    assert_eq!(m.aliases.len(), 3);
    // An address equal to the name just added is not added twice.
    let mut n = member("Nobody", &[], true);
    add_contributor_aliases(&mut n, "same", "SAME");
    assert_eq!(n.aliases, vec!["same"]);
    // A second time changes nothing.
    let mut p = member("Pat", &[], true);
    add_contributor_aliases(&mut p, "Patrick", "pat@x.org");
    let once = p.clone();
    add_contributor_aliases(&mut p, "Patrick", "pat@x.org");
    assert_eq!(p, once);
}

#[test]
fn test_member_order_and_candidates() {
    let members = vec![member("bob", &[], true), member("Alice", &[], true), member("alice", &[], true), member("Carl", &[], true)];
    assert_eq!(member_display_order(&members), vec![1, 2, 0, 3]);
    assert_eq!(alias_dialog_candidates(&members, "ALI"), vec![1, 2]);
    assert_eq!(alias_dialog_candidates(&members, ""), vec![0, 1, 2, 3]);
    assert!(alias_dialog_candidates(&members, "zed").is_empty());
}

#[test]
fn test_add_repository_from_form() {
    let mut repos = vec![repo("one", "/r/one")];
    assert_eq!(
        add_repository_from_form(&mut repos, Language::English, " ", "/r/two", true),
        Some("Please enter a display name and path.".to_string())
    );
    assert_eq!(
        add_repository_from_form(&mut repos, Language::English, "two", "/r/two", false),
        Some("Not a valid Git repository directory.".to_string())
    );
    assert_eq!(
        add_repository_from_form(&mut repos, Language::English, "far", "ssh://u@h/srv/x", false),
        Some("Cannot reach repository via SSH. Check key authentication, hostname, and remote path.".to_string())
    );
    assert_eq!(repos.len(), 1);
    assert_eq!(add_repository_from_form(&mut repos, Language::English, " two ", "/r/two", true), None);
    assert_eq!(repos[1], repo("two", "/r/two"));
}

#[test]
fn test_apply_repository_edit() {
    let mut repos = vec![Repository { name: "x".to_string(), path: "ssh://u@h/x".to_string(), host: Some("u@h".to_string()) }];
    assert_eq!(
        apply_repository_edit(&mut repos, 0, Language::English, "y", "ssh://u@h/y", false),
        Some("Not a valid Git repository directory.".to_string())
    );
    assert_eq!(apply_repository_edit(&mut repos, 0, Language::English, " y ", "ssh://u@h/y", true), None);
    assert_eq!(repos[0].name, "y");
    assert_eq!(repos[0].path, "ssh://u@h/y");
    assert_eq!(repos[0].host, Some("u@h".to_string()));
}

#[test]
fn test_bulk_registration() {
    let mut repos = vec![repo("one", "/r/one")];
    let picks = vec![
        ("one".to_string(), "/r/one".to_string(), true),
        ("two".to_string(), "/r/two".to_string(), true),
        ("junk".to_string(), "/r/junk".to_string(), false),
        ("two".to_string(), "/r/two".to_string(), true),
    ];
    let (added, skipped) = bulk_add_repositories(&mut repos, Language::English, &picks);
    assert_eq!(added, 1);
    assert_eq!(repos.len(), 2);
    assert_eq!(repos[1], repo("two", "/r/two"));
    assert_eq!(
        skipped,
        vec!["one (Already registered)", "junk (Not a Git repository)", "two (Already registered)"]
    );
    assert_eq!(bulk_added_message(Language::English, added), Some("Added 1 repository(ies)".to_string()));
    assert_eq!(bulk_added_message(Language::Japanese, 3), Some("3件のリポジトリを追加しました".to_string()));
    assert_eq!(bulk_added_message(Language::English, 0), None);
    assert_eq!(
        bulk_skipped_message(Language::English, &skipped),
        Some("Skipped: one (Already registered), junk (Not a Git repository), two (Already registered)".to_string())
    );
    assert_eq!(bulk_skipped_message(Language::Japanese, &vec!["a (登録済み)".to_string()]), Some("スキップ: a (登録済み)".to_string()));
    assert_eq!(bulk_skipped_message(Language::English, &Vec::new()), None);

    let mut more: Vec<Repository> = Vec::new();
    let mut sk: Vec<String> = Vec::new();
    assert!(!register_pick(&mut more, &mut sk, Language::Japanese, "z", "/z", false, false));
    assert_eq!(sk, vec!["z (Gitリポジトリではない)"]);
}

#[test]
fn test_count_headings() {
    assert_eq!(repo_count_heading(Language::English, 3), "Registered Repositories (3 total)");
    assert_eq!(repo_count_heading(Language::Japanese, 12), "登録済みリポジトリ  (12件)");
    assert_eq!(member_count_heading(Language::English, 0), "Registered Members (0 total)");
    assert_eq!(member_count_heading(Language::Japanese, 7), "登録済みメンバー  (7人)");
}

#[test]
fn test_editor_invocation() {
    assert_eq!(
        editor_invocation(Language::English, "code  --reuse-window", "/r/one"),
        Ok(("code".to_string(), vec!["--reuse-window".to_string(), "/r/one".to_string()]))
    );
    assert_eq!(editor_invocation(Language::English, "vim", "/r/x y"), Ok(("vim".to_string(), vec!["/r/x y".to_string()])));
    assert_eq!(
        editor_invocation(Language::English, "code", "ssh://u@h/srv/r"),
        Err("Remote (SSH) repositories cannot be opened in a local editor.".to_string())
    );
    assert_eq!(
        editor_invocation(Language::English, "  ", "/r"),
        Err("Editor command is not configured. Please set it in Settings.".to_string())
    );
    assert_eq!(
        editor_launch_error(Language::English, "not found", "codex -n"),
        "Failed to launch editor: not found (Command: codex -n)"
    );
    assert_eq!(editor_launch_error(Language::Japanese, "e", "c"), "エディタ起動失敗: e (コマンド: c)");
}

#[test]
fn test_sync_targets() {
    assert_eq!(sync_targets(&vec![Some(true), Some(false), None, Some(true)]), vec![0, 2, 3]);
    assert!(sync_targets(&vec![Some(false)]).is_empty());
    assert!(sync_targets(&Vec::new()).is_empty());
}

#[test]
fn test_is_registered() {
    use_is_registered();
}

fn use_is_registered() {
    let repos = vec![repo("one", "/r/one"), repo("two", "/r/two")];
    assert!(git_dashboard::settings::is_registered(&repos, "/r/two"));
    assert!(git_dashboard::settings::is_registered(&repos, "/r/one/"));
    assert!(!git_dashboard::settings::is_registered(&repos, "/r/three"));
    assert!(!git_dashboard::settings::is_registered(&Vec::new(), "/r/one"));
}

#[test]
fn failed_refresh_keeps_good_cached_result() {
    assert!(!keep_new_result(false, true));
    assert!(keep_new_result(false, false));
    assert!(keep_new_result(true, true));
    let mut book = LoadBook::new();
    book.start_load(3);
    book.start_load(5);
    book.start_load(3);
    assert!(book.is_loading(3) && book.is_loading(5));
    assert!(!book.finish_load(3, false, true));
    assert_eq!(book.cache_gen, 0);
    assert!(!book.is_loading(3));
    assert!(book.is_loading(5));
    assert!(book.finish_load(5, false, false));
    assert_eq!(book.cache_gen, 1);
    assert!(!book.is_loading(5));
}

#[test]
fn repo_cache_name_hashes_the_path() {
    let path = "/home/user/project";
    let mut h = std::collections::hash_map::DefaultHasher::new();
    std::hash::Hash::hash(std::path::Path::new(path), &mut h);
    let name = repo_cache_name(path);
    assert_eq!(name, repo_cache_file_name(std::hash::Hasher::finish(&h)));
    assert_eq!(name, repo_cache_name(path));
    assert_ne!(name, repo_cache_name("/home/user/other"));
    assert!(name.starts_with("repo-") && name.ends_with(".json") && name.len() == 26);
}

#[test]
fn worker_messages_update_book_and_notices() {
    let repos = vec![
        Repository { name: "a".to_string(), path: "/r/a".to_string(), host: None },
        Repository { name: "b".to_string(), path: "/r/b".to_string(), host: None },
    ];
    let mut book = LoadBook::new();
    book.start_load(1);
    let r = on_worker_message(
        &mut book,
        Language::English,
        &repos,
        true,
        WorkerMessage::RepoLoaded {
            repo_index: 1,
            error: Some("boom".to_string()),
            warnings: vec!["x".to_string(), "y".to_string()],
        },
    );
    assert!(!r.replaced);
    assert_eq!(book.cache_gen, 0);
    assert!(!book.is_loading(1));
    assert_eq!(
        r.toasts,
        vec![
            ("Update failed: boom".to_string(), ToastKind::Error),
            ("Partial analysis failed: x (1 more)".to_string(), ToastKind::Error),
        ]
    );
    let r = on_worker_message(
        &mut book,
        Language::English,
        &repos,
        true,
        WorkerMessage::PullFinished { path: "/r/b".to_string(), result: Ok("done".to_string()) },
    );
    assert!(r.toasts.is_empty());
    assert_eq!(r.reload, Some(1));
    assert_eq!(r.status, Some(("/r/b".to_string(), PullState::Success("done".to_string()))));
    let r = on_worker_message(
        &mut book,
        Language::English,
        &repos,
        false,
        WorkerMessage::FetchFinished { path: "/r/z".to_string(), result: Err("no net".to_string()) },
    );
    assert_eq!(r.toasts, vec![("Fetch failed: no net".to_string(), ToastKind::Error)]);
    assert_eq!(r.reload, None);
    assert_eq!(r.status, Some(("/r/z".to_string(), PullState::Error("no net".to_string()))));
}

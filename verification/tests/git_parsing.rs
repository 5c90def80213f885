use git_dashboard::git::{
    diff_range, get_branches, get_stash_list, get_tags, get_tags_lookups, parse_changed_files,
    parse_commit_log, parse_ssh_repo, parse_sync_status, repo_name_from_ssh_path,
    split_batch_output, check_safe_ref,
};
use git_dashboard::blame::{blame_args, blame_ref_for, blame_retry_args, get_file_blame, parse_blame};

#[test]
fn test_parse_commit_log() {
    let log = "\
a1b2c3d|||Alice|||2023-01-01 12:00|||First commit
e5f6g7h|||Bob|||2023-01-02 15:30|||Second commit
";
    let commits = parse_commit_log(log);
    assert_eq!(commits.len(), 2);
    assert_eq!(commits[0].hash, "a1b2c3d");
    assert_eq!(commits[0].author, "Alice");
    assert_eq!(commits[0].date, "2023-01-01 12:00");
    assert_eq!(commits[0].message, "First commit");

    assert_eq!(commits[1].hash, "e5f6g7h");
    assert_eq!(commits[1].author, "Bob");
    assert_eq!(commits[1].date, "2023-01-02 15:30");
    assert_eq!(commits[1].message, "Second commit");
}

#[test]
fn test_parse_changed_files() {
    let name_status = "\
M\tsrc/main.rs
A\tsrc/git.rs
R098\told_name.rs\tnew_name.rs
D\tdeleted.rs
";
    let numstat = "\
10\t5\tsrc/main.rs
100\t0\tsrc/git.rs
20\t20\tnew_name.rs
0\t30\tdeleted.rs
";
    let files = parse_changed_files(name_status, numstat);
    assert_eq!(files.len(), 4);

    assert_eq!(files[0].status, "M");
    assert_eq!(files[0].path, "src/main.rs");
    assert_eq!(files[0].old_path, None);
    assert_eq!(files[0].additions, 10);
    assert_eq!(files[0].deletions, 5);

    assert_eq!(files[1].status, "A");
    assert_eq!(files[1].path, "src/git.rs");
    assert_eq!(files[1].old_path, None);
    assert_eq!(files[1].additions, 100);
    assert_eq!(files[1].deletions, 0);

    assert_eq!(files[2].status, "R");
    assert_eq!(files[2].path, "new_name.rs");
    assert_eq!(files[2].old_path, Some("old_name.rs".to_string()));
    assert_eq!(files[2].additions, 20);
    assert_eq!(files[2].deletions, 20);

    assert_eq!(files[3].status, "D");
    assert_eq!(files[3].path, "deleted.rs");
    assert_eq!(files[3].old_path, None);
    assert_eq!(files[3].additions, 0);
    assert_eq!(files[3].deletions, 30);
}

#[test]
fn test_diff_range() {
    let range1 = diff_range(Some("v1.0.0"), "v2.0.0", false);
    assert_eq!(range1, vec!["v1.0.0..v2.0.0".to_string()]);

    let range2 = diff_range(None, "v2.0.0", false);
    assert_eq!(range2, vec!["v2.0.0^..v2.0.0".to_string()]);

    let range3 = diff_range(Some("main"), "feature", true);
    assert_eq!(range3, vec!["main...feature".to_string()]);
    let range4 = diff_range(None, "v2.0.0", true);
    assert_eq!(range4, vec!["v2.0.0^..v2.0.0".to_string()]);
}

#[test]
fn test_parse_sync_status() {
    let s = parse_sync_status(true, "3\t5");
    assert!(s.has_upstream);
    assert_eq!(s.ahead, 3);
    assert_eq!(s.behind, 5);

    let none = parse_sync_status(false, "");
    assert!(!none.has_upstream);
    assert_eq!((none.ahead, none.behind), (0, 0));

    let bad = parse_sync_status(true, "garbage");
    assert_eq!((bad.ahead, bad.behind), (0, 0));
}

#[test]
fn test_repo_name_from_ssh_path() {
    assert_eq!(repo_name_from_ssh_path("/home/dev/myrepo"), Some("myrepo".to_string()));
    assert_eq!(repo_name_from_ssh_path("/srv/app.git"), Some("app".to_string()));
    assert_eq!(repo_name_from_ssh_path("/srv/app/"), Some("app".to_string()));
    assert_eq!(repo_name_from_ssh_path("/"), None);
    assert_eq!(repo_name_from_ssh_path(""), None);
}

#[test]
fn test_parse_ssh_repo() {
    assert_eq!(
        parse_ssh_repo("ssh://dev@vm01/home/dev/myrepo"),
        Some(("dev@vm01".to_string(), "/home/dev/myrepo".to_string()))
    );
    assert_eq!(
        parse_ssh_repo("ssh://devbox/srv/app"),
        Some(("devbox".to_string(), "/srv/app".to_string()))
    );
    assert_eq!(parse_ssh_repo("/Users/me/repo"), None);
    assert_eq!(parse_ssh_repo("C:\\work\\repo"), None);
    assert_eq!(parse_ssh_repo("ssh://hostonly"), None);
}

#[test]
fn test_split_batch_output() {
    let sep = "__SEP__";
    let raw = format!("main\n{sep}0\nerror: no upstream\n{sep}128\na\nb\nc\n{sep}0\n");
    let r = split_batch_output(&raw, sep, 3, "");
    assert_eq!(r[0].as_deref(), Ok("main"));
    assert_eq!(r[1].as_ref().unwrap_err(), "error: no upstream");
    assert_eq!(r[2].as_deref(), Ok("a\nb\nc"));
}

#[test]
fn test_split_batch_output_empty_command_output() {
    let sep = "__SEP__";
    let raw = format!("{sep}0\nx\n{sep}0\n");
    let r = split_batch_output(&raw, sep, 2, "");
    assert_eq!(r[0].as_deref(), Ok(""));
    assert_eq!(r[1].as_deref(), Ok("x"));
}

#[test]
fn test_split_batch_output_missing_sentinels_padded() {
    let sep = "__SEP__";
    let raw = format!("first\n{sep}0\npartial");
    let r = split_batch_output(&raw, sep, 3, "connection closed");
    assert_eq!(r[0].as_deref(), Ok("first"));
    assert_eq!(r[1].as_ref().unwrap_err(), "connection closed");
    assert_eq!(r[2].as_ref().unwrap_err(), "connection closed");
    assert_eq!(r.len(), 3);
}

#[test]
fn test_split_batch_output_total_failure() {
    let r = split_batch_output("", "__SEP__", 2, "ssh: could not resolve host");
    assert_eq!(r.len(), 2);
    assert!(r.iter().all(|x| x.is_err()));
}

#[test]
fn split_batch_output_without_connection_message() {
    let r = split_batch_output("", "__SEP__", 1, "");
    assert_eq!(r[0].as_ref().unwrap_err(), "SSH接続に失敗しました");
}

#[test]
fn unsafe_refs_are_refused() {
    assert!(check_safe_ref("main").is_ok());
    assert_eq!(check_safe_ref("--all").unwrap_err(), "Git ref cannot start with '-': --all");
}

#[test]
fn test_get_stash_list() {
    assert!(get_stash_list(Ok(String::new())).unwrap().is_empty());
    let out = "stash@{0}|2 hours ago|Test User|On main: my stashed changes\n\nbad line\n";
    let s = get_stash_list(Ok(out.to_string())).unwrap();
    assert_eq!(s.len(), 1);
    assert_eq!(s[0].ref_name, "stash@{0}");
    assert_eq!(s[0].date_relative, "2 hours ago");
    assert_eq!(s[0].author, "Test User");
    assert!(s[0].message.contains("my stashed changes"));
    assert_eq!(get_stash_list(Err("boom".to_string())).unwrap_err(), "boom");
}

#[test]
fn branches_are_newest_first_without_duplicates() {
    let out = "\
main|||1700000000|||Alice|||Init
origin/main|||1700000500|||Bob|||Remote work
origin/HEAD -> origin/main|||0|||x|||y
feature|||bad|||Carol|||WIP
main|||1800000000|||Alice|||Duplicate
";
    let b = get_branches(Ok(out.to_string()));
    let names: Vec<&str> = b.iter().map(|x| x.name.as_str()).collect();
    assert_eq!(names, vec!["origin/main", "main", "feature"]);
    assert_eq!(b[2].date_unix, 0);
    assert_eq!(b[2].date, "不明");
    assert!(b[0].is_remote);
    assert!(!b[1].is_remote);
}

#[test]
fn tags_take_messages_from_lookups() {
    let out = "\
v1.0|||2024-01-01|||Release one|||2024-01-02|||abc1234|||
v0.9|||2023-12-01||||||2023-12-02|||def5678|||
";
    let o = Ok(out.to_string());
    let lookups = get_tags_lookups(&o);
    assert_eq!(lookups.len(), 1);
    assert_eq!(lookups[0][3], "v0.9");
    let tags = get_tags(o, vec![Ok("  looked up  \n".to_string())]);
    assert_eq!(tags.len(), 2);
    assert_eq!(tags[0].name, "v1.0");
    assert_eq!(tags[0].message, "Release one");
    assert_eq!(tags[1].message, "looked up");
}

#[test]
fn test_get_file_blame() {
    let h = "1234567890abcdef1234567890abcdef12345678";
    let out = format!(
        "{h} 1 1 2\nauthor Blame Author\nauthor-mail <blame@example.com>\nauthor-time 1700000000\nauthor-tz +0000\nsummary first commit\nfilename file.txt\n\tline 1\n{h} 2 2\nauthor Blame Author\nsummary first commit\nfilename file.txt\n\tline 2\n"
    );
    let blame = get_file_blame(Ok(out)).unwrap();
    assert_eq!(blame.len(), 2);
    assert_eq!(blame[0].author, "Blame Author");
    assert_eq!(blame[0].summary, "first commit");
    assert_eq!(blame[0].date, "2023-11-14");
    assert_eq!(blame[0].hash, h);
    assert_eq!(blame[1].author, "Blame Author");
    assert_eq!(blame[1].summary, "first commit");
}

#[test]
fn blame_keeps_first_details_per_commit() {
    let a = "a".repeat(40);
    let b = "b".repeat(40);
    let out = format!(
        "{a} 1 1\nauthor First\nsummary one\n\tx\n{b} 2 2\nauthor Second\nsummary two\n\ty\n{a} 3 3\nauthor Changed\n\tz\n"
    );
    let e = parse_blame(&out);
    assert_eq!(e.len(), 3);
    assert_eq!(e[1].author, "Second");
    assert_eq!(e[2].author, "First");
    assert_eq!(e[2].summary, "one");
}

#[test]
fn blame_arguments_and_retry() {
    assert_eq!(
        blame_args("HEAD", "f.txt").unwrap(),
        vec!["blame", "--line-porcelain", "HEAD", "--", "f.txt"]
    );
    assert!(blame_args("-x", "f.txt").is_err());
    assert_eq!(
        blame_retry_args("abc^", "f.txt", "e".to_string()).unwrap(),
        vec!["blame", "--line-porcelain", "abc", "--", "f.txt"]
    );
    assert_eq!(blame_retry_args("abc", "f.txt", "e".to_string()).unwrap_err(), "e");
    assert_eq!(get_file_blame(Err("no".to_string())).unwrap_err(), "no");
}

#[test]
fn blame_revision_for_a_diff() {
    assert_eq!(blame_ref_for("WORKING_TREE", true, &Some("v1".to_string())), "HEAD");
    assert_eq!(blame_ref_for("abc1234", true, &Some("v1".to_string())), "v1");
    assert_eq!(blame_ref_for("abc1234", true, &None), "abc1234^");
    assert_eq!(blame_ref_for("abc1234", false, &Some("v1".to_string())), "abc1234^");
}

#[test]
fn timestamps_have_the_date_time_shape() {
    assert_eq!(git_dashboard::git::format_timestamp(0), "不明");
    let s = git_dashboard::git::format_timestamp(1_700_000_000);
    let c: Vec<char> = s.chars().collect();
    assert_eq!(c.len(), 19);
    assert_eq!((c[4], c[7], c[10], c[13], c[16]), ('-', '-', ' ', ':', ':'));
    for (i, ch) in c.iter().enumerate() {
        if ![4, 7, 10, 13, 16].contains(&i) {
            assert!(ch.is_ascii_digit());
        }
    }
    assert!(git_dashboard::activity::local_stamp(i64::MAX).is_none());
}

#[test]
fn changed_files_list_does_not_depend_on_numstat() {
    let name_status = "M\ta.rs\nbroken\nR100\told.rs\tnew.rs\n";
    let with_counts = parse_changed_files(name_status, "3\t4\ta.rs\n1\t1\ta.rs\n-\t-\tnew.rs\n");
    let without = parse_changed_files(name_status, "");
    assert_eq!(with_counts.len(), 2);
    assert_eq!(without.len(), 2);
    for (x, y) in with_counts.iter().zip(without.iter()) {
        assert_eq!(x.status, y.status);
        assert_eq!(x.path, y.path);
        assert_eq!(x.old_path, y.old_path);
        assert_eq!((y.additions, y.deletions), (0, 0));
    }
    assert_eq!((with_counts[0].additions, with_counts[0].deletions), (1, 1));
    assert_eq!((with_counts[1].additions, with_counts[1].deletions), (0, 0));
    assert_eq!(with_counts[1].old_path, Some("old.rs".to_string()));
}

#[test]
fn tag_dates_and_hashes_fall_back_in_order() {
    let out = "\
t1||||||s1|||2024-02-02|||obj1|||
t2||||||s2||||||obj2|||com2
|||2024-01-01|||nameless|||x|||y|||z
short|||2024-01-01
";
    let tags = get_tags(Ok(out.to_string()), Vec::new());
    assert_eq!(tags.len(), 2);
    assert_eq!(tags[0].date, "2024-02-02");
    assert_eq!(tags[0].hash, "obj1");
    assert_eq!(tags[1].date, "不明");
    assert_eq!(tags[1].hash, "com2");
}

#[test]
fn batch_results_are_segments_between_sentinels() {
    let raw = "a\nb\n\n@@END@@0\nc\n@@END@@ 1 \nlate output\n";
    let r = split_batch_output(raw, "@@END@@", 3, "host unreachable");
    assert_eq!(r.len(), 3);
    assert_eq!(r[0], Ok("a\nb".to_string()));
    assert_eq!(r[1], Err("c".to_string()));
    assert_eq!(r[2], Err("host unreachable".to_string()));
    let short = split_batch_output(raw, "@@END@@", 1, "");
    assert_eq!(short, vec![Ok("a\nb".to_string())]);
    let none = split_batch_output("", "@@END@@", 1, "");
    assert_eq!(none, vec![Err("SSH接続に失敗しました".to_string())]);
}

#[test]
fn timestamps_show_their_own_moment() {
    for ts in [1_700_000_000i64, 86_400, -1_000_000, 4_000_000_000] {
        let local = chrono::TimeZone::timestamp_opt(&chrono::Local, ts, 0).single().unwrap();
        assert_eq!(git_dashboard::git::format_timestamp(ts), local.format("%Y-%m-%d %H:%M:%S").to_string());
        let s = git_dashboard::activity::local_stamp(ts).unwrap();
        let naive = local.naive_local();
        assert_eq!(s.day, chrono::Datelike::num_days_from_ce(&naive.date()));
        assert_eq!(s.hour, chrono::Timelike::hour(&naive));
        assert_eq!(s.weekday, chrono::Datelike::weekday(&naive).num_days_from_sunday());
    }
}

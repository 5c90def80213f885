use git_dashboard::files::get_files_report;
use git_dashboard::git::shell_quote;
use git_dashboard::remote::{batch_failure, batch_ssh_args, batch_timeout_secs, git_command_for, BATCH_SEP};
use git_dashboard::summary::{get_repo_name, get_summary, remote_url_args, summary_commands, tracked_files};

fn ok(s: &str) -> Result<String, String> {
    Ok(s.to_string())
}

#[test]
fn summary_from_batch_outputs() {
    let outputs = vec![
        ok("main\n"),
        ok("42\n"),
        ok("* main\n  remotes/origin/HEAD -> origin/main\n  remotes/origin/main\n\n"),
        ok("a.rs\n b.rs \n\n"),
        ok("origin\n"),
        ok(" M a.rs\n?? c.rs\n"),
        Err("no upstream".to_string()),
        ok("1\t2"),
        ok("A|||a@x|||1\nB|||b@x|||2\n"),
    ];
    let sizes = vec![Some(1024), None];
    let s = get_summary("repo".to_string(), "/tmp/repo".to_string(), &outputs, &sizes, &[]);
    assert_eq!(s.repo_name, "repo");
    assert_eq!(s.current_branch, "main");
    assert_eq!(s.total_commits, 42);
    assert_eq!(s.total_branches, 2);
    assert_eq!(s.total_files, 2);
    assert_eq!(s.total_size_bytes, 1024);
    assert_eq!(s.total_size_formatted, "1.0 KB");
    assert!(s.has_remote);
    assert_eq!(s.uncommitted_changes, 2);
    assert!(!s.has_upstream);
    assert_eq!((s.ahead, s.behind), (0, 0));
    assert_eq!(s.total_contributors, 2);
}

#[test]
fn test_get_summary_no_upstream() {
    // A fresh repository: the upstream name and the counts fail.
    let outputs = vec![
        ok(""),
        Err("fatal: bad revision 'HEAD'".to_string()),
        ok(""),
        ok(""),
        ok(""),
        ok(""),
        Err("fatal: no upstream".to_string()),
        Err("fatal: no upstream".to_string()),
        Err("fatal: no commits".to_string()),
    ];
    let summary = get_summary("r".to_string(), "/r".to_string(), &outputs, &vec![], &[]);
    assert!(!summary.has_upstream);
    assert_eq!(summary.ahead, 0);
    assert_eq!(summary.behind, 0);
    assert!(!summary.has_remote);
    assert_eq!(summary.total_commits, 0);
}

#[test]
fn summary_commands_and_files() {
    let c = summary_commands();
    assert_eq!(c.len(), 9);
    assert_eq!(c[7], vec!["rev-list", "--left-right", "--count", "HEAD...@{u}"]);
    assert_eq!(tracked_files(" a \n\n b\n"), vec!["a", "b"]);
    assert_eq!(remote_url_args(), vec!["config", "--get", "remote.origin.url"]);
}

#[test]
fn repository_names() {
    assert_eq!(get_repo_name(&ok("git@github.com:me/tool.git\n"), "/x/y", None), "tool");
    assert_eq!(get_repo_name(&ok("https://h/a/b"), "/x/y", None), "b");
    assert_eq!(get_repo_name(&Err("none".to_string()), "ssh://h/srv/app.git", None), "app");
    assert_eq!(get_repo_name(&Err("none".to_string()), "ssh://h/", Some("x".to_string())), "x");
    assert_eq!(get_repo_name(&ok("noslash"), "/x/y", Some("y".to_string())), "y");
    assert_eq!(get_repo_name(&ok(""), "/x/y", None), "不明なリポジトリ");
}

#[test]
fn files_report_groups_extensions() {
    let ls = "src/a.rs\nsrc/b.RS\nREADME\nMakefile\nweb/app.js\n";
    let sizes = vec![Some(10), Some(300), None, Some(5), Some(2048)];
    let r = get_files_report(ls, &sizes);
    assert_eq!(r.extensions.len(), 3);
    assert_eq!((r.extensions[0].ext.as_str(), r.extensions[0].count), ("rs", 2));
    assert_eq!((r.extensions[1].ext.as_str(), r.extensions[1].count), ("other", 2));
    assert_eq!((r.extensions[2].ext.as_str(), r.extensions[2].count), ("js", 1));
    assert_eq!(r.largest_files.len(), 5);
    assert_eq!(r.largest_files[0].path, "web/app.js");
    assert_eq!(r.largest_files[0].size_formatted, "2.0 KB");
    assert_eq!(r.largest_files[4].path, "README");
    let many: String = (0..15).map(|i| format!("f{i}.txt\n")).collect();
    let r2 = get_files_report(&many, &vec![]);
    assert_eq!(r2.largest_files.len(), 10);
    assert_eq!(r2.largest_files[0].path, "f0.txt");
}

#[test]
fn git_invocations() {
    let args = vec!["log".to_string(), "--format=%s".to_string()];
    let local = git_command_for("/repo", &args);
    assert_eq!(local.program, "git");
    assert_eq!(local.args, args);
    assert_eq!(local.current_dir, Some("/repo".to_string()));
    assert_eq!(local.env.len(), 4);
    let remote = git_command_for("ssh://dev@vm/srv/app", &args);
    assert_eq!(remote.program, "ssh");
    assert_eq!(
        remote.args,
        vec!["-o", "BatchMode=yes", "-o", "ConnectTimeout=8", "dev@vm", "git", "-C", "'/srv/app'", "'log'", "'--format=%s'"]
    );
    assert_eq!(remote.current_dir, None);
}

#[test]
fn batch_script_and_limits() {
    let cmds = vec![vec!["status".to_string()], vec!["log".to_string(), "-1".to_string()]];
    let a = batch_ssh_args("h", "/srv/it's", &cmds);
    assert_eq!(a.len(), 6);
    let q = shell_quote("/srv/it's");
    let expected = format!(
        "git -C {q} 'status' 2>&1; printf '\\n%s%d\\n' '{BATCH_SEP}' \"$?\"\ngit -C {q} 'log' '-1' 2>&1; printf '\\n%s%d\\n' '{BATCH_SEP}' \"$?\"\n"
    );
    assert_eq!(a[5], expected);
    assert_eq!(batch_timeout_secs(0), 30);
    assert_eq!(batch_timeout_secs(3), 90);
    assert_eq!(batch_timeout_secs(9), 120);
    let f = batch_failure(3, "down");
    assert_eq!(f.len(), 3);
    assert!(f.iter().all(|r| r.as_ref().unwrap_err() == "down"));
}

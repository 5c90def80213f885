use git_dashboard::activity::{activity_chart_titles, activity_periods, empty_activity, hour_labels, period_label, weekday_labels};
use git_dashboard::view::stash_message_line;
use git_dashboard::analysis::RepoData;
use git_dashboard::config::{Language, Repository};
use git_dashboard::files::FilesReport;
use git_dashboard::git::CommitSummary;
use git_dashboard::home::{
    analysis_progress, distinct_hosts, home_list_inputs, list_fields, repo_card, status_dot, sync_badge, tech_label,
    uncommitted_badge, CardTone,
};
use git_dashboard::messages::PullState;
use git_dashboard::summary::Summary;
use git_dashboard::tech::TechInfo;

fn summary(has_remote: bool, has_upstream: bool, ahead: usize, behind: usize) -> Summary {
    Summary {
        repo_name: "r".to_string(),
        repo_path: "/r".to_string(),
        current_branch: "main".to_string(),
        total_commits: 3,
        total_contributors: 1,
        total_branches: 1,
        total_files: 2,
        total_size_bytes: 10,
        total_size_formatted: "10 B".to_string(),
        has_upstream,
        ahead,
        behind,
        has_remote,
        uncommitted_changes: 4,
    }
}

fn data(commits: Vec<CommitSummary>, tech: TechInfo) -> RepoData {
    RepoData {
        summary: summary(true, true, 0, 2),
        contributors: Vec::new(),
        branches: Vec::new(),
        tags: Vec::new(),
        activity: empty_activity(),
        files: FilesReport { extensions: Vec::new(), largest_files: Vec::new() },
        readme: None,
        recent_commits: commits,
        tech_info: tech,
        stash_list: Vec::new(),
    }
}

fn tech(l: &str, lv: &str, f: &str, fv: &str) -> TechInfo {
    TechInfo {
        language: l.to_string(),
        lang_version: lv.to_string(),
        framework: f.to_string(),
        framework_version: fv.to_string(),
    }
}

fn repo(name: &str, path: &str, host: Option<&str>) -> Repository {
    Repository { name: name.to_string(), path: path.to_string(), host: host.map(|h| h.to_string()) }
}

#[test]
fn progress_line() {
    assert_eq!(analysis_progress(Language::English, 2, 5), Some("Analysis in progress: 2 of 5 completed".to_string()));
    assert_eq!(analysis_progress(Language::Japanese, 2, 5), Some("分析進行中: 5 件中 2 件の分析が完了".to_string()));
    assert_eq!(analysis_progress(Language::English, 5, 5), None);
}

#[test]
fn badges_and_dots() {
    assert_eq!(sync_badge(Language::English, &summary(false, false, 0, 0)), ("Local only".to_string(), CardTone::Faint));
    assert_eq!(sync_badge(Language::English, &summary(true, false, 0, 0)), ("No upstream".to_string(), CardTone::Faint));
    assert_eq!(sync_badge(Language::English, &summary(true, true, 1, 3)), ("↓3".to_string(), CardTone::Warning));
    assert_eq!(sync_badge(Language::English, &summary(true, true, 2, 0)), ("↑2".to_string(), CardTone::Dim));
    assert_eq!(sync_badge(Language::Japanese, &summary(true, true, 0, 0)), ("最新".to_string(), CardTone::Success));
    assert_eq!(status_dot(&None), CardTone::Faint);
    assert_eq!(status_dot(&Some(PullState::Pulling)), CardTone::Accent);
    assert_eq!(status_dot(&Some(PullState::Success("ok".to_string()))), CardTone::Success);
    assert_eq!(status_dot(&Some(PullState::Error("x".to_string()))), CardTone::Error);
    assert_eq!(uncommitted_badge(Language::English, 4), "4 changes");
    assert_eq!(uncommitted_badge(Language::Japanese, 4), "変更 4件");
}

#[test]
fn tech_labels() {
    assert_eq!(tech_label("-", "1.0"), "-");
    assert_eq!(tech_label("Rust", "-"), "Rust");
    assert_eq!(tech_label("Rust", "1.80"), "Rust (1.80)");
}

#[test]
fn cards() {
    let loading = repo_card(Language::English, &None);
    assert_eq!(loading.commit_line, "Loading analysis data...");
    assert_eq!(loading.metadata, "Loading...");
    assert_eq!(loading.badge, None);
    assert_eq!(loading.uncommitted, 0);

    let failed = repo_card(Language::English, &Some(Err("git not found".to_string())));
    assert_eq!(failed.commit_line, "Analysis failed: git not found");
    assert_eq!(failed.metadata, "Error: git not found");

    let long = "x".repeat(70);
    let c = CommitSummary {
        hash: "abc1234".to_string(),
        author: "A".to_string(),
        date: "2024-05-01 10:00".to_string(),
        message: long.clone(),
    };
    let ok = repo_card(Language::English, &Some(Ok(data(vec![c], tech("Rust", "1.80", "-", "-")))));
    assert_eq!(ok.commit_line, format!("{}...", "x".repeat(57)));
    assert_eq!(ok.metadata, "Rust (1.80)  ·  branch: main  ·  2024-05-01 10:00");
    assert_eq!(ok.badge, Some(("↓2".to_string(), CardTone::Warning)));
    assert_eq!(ok.uncommitted, 4);

    let empty = repo_card(Language::English, &Some(Ok(data(Vec::new(), tech("-", "-", "-", "-")))));
    assert_eq!(empty.commit_line, "No commits");
    assert_eq!(empty.metadata, "branch: main  ·  Unknown");
    let exactly = "y".repeat(60);
    let c60 = CommitSummary { hash: "h".to_string(), author: "a".to_string(), date: "-".to_string(), message: exactly.clone() };
    let mut d = data(vec![c60], tech("-", "-", "-", "-"));
    d.summary.current_branch = "-".to_string();
    let card = repo_card(Language::Japanese, &Some(Ok(d)));
    assert_eq!(card.commit_line, exactly);
    assert_eq!(card.metadata, "メタデータなし");
}

#[test]
fn hosts_and_entries() {
    let repos = vec![
        repo("a", "ssh://u@zeta/a", Some("u@zeta")),
        repo("b", "/local/b", None),
        repo("c", "ssh://u@alpha/c", Some("u@alpha")),
        repo("d", "ssh://u@zeta/d", Some("u@zeta")),
    ];
    assert_eq!(distinct_hosts(&repos), vec!["u@alpha", "u@zeta"]);
    assert!(distinct_hosts(&Vec::new()).is_empty());

    let c = CommitSummary { hash: "h".to_string(), author: "a".to_string(), date: "2024-01-02".to_string(), message: "m".to_string() };
    let fields = vec![Some(list_fields(&data(vec![c], tech("Go", "-", "Gin", "-")))), None, None, None];
    assert_eq!(fields[0], Some(("2024-01-02".to_string(), "Go".to_string(), "Gin".to_string())));
    let all = home_list_inputs(&repos, &fields, &None);
    assert_eq!(all.len(), 4);
    assert_eq!(all[0].last_commit_date, "2024-01-02");
    assert_eq!(all[0].framework, "Gin");
    assert_eq!(all[1].language, "");
    let zeta = home_list_inputs(&repos, &fields, &Some("u@zeta".to_string()));
    let idx: Vec<usize> = zeta.iter().map(|e| e.index).collect();
    assert_eq!(idx, vec![0, 3]);
    assert_eq!(zeta[1].name, "d");
}

#[test]
fn activity_labels() {
    let p = activity_periods(Language::English);
    let days: Vec<usize> = p.iter().map(|x| x.1).collect();
    assert_eq!(days, vec![30, 90, 180, 365, 0]);
    assert_eq!(p[0].0, "30 Days");
    assert_eq!(p[4].0, "All Time");
    assert_eq!(period_label(Language::English, 0), "All Time");
    assert_eq!(period_label(Language::Japanese, 365), "過去1年間");
    assert_eq!(period_label(Language::English, 90), "Past 90 days");
    assert_eq!(period_label(Language::Japanese, 180), "過去180日間");
    let (a, b, c) = activity_chart_titles(Language::English, "Past 90 days");
    assert_eq!(a, "Commit Activity (Past 90 days)");
    assert_eq!(b, "⏰ Hourly Commits (Past 90 days)");
    assert_eq!(c, "Commits by Day of Week (Past 90 days)");
    let (a, _, c) = activity_chart_titles(Language::Japanese, "全期間");
    assert_eq!(a, "コミットアクティビティ（全期間）");
    assert_eq!(c, "曜日別コミット数（全期間）");
    let hours = hour_labels(Language::English);
    assert_eq!(hours.len(), 24);
    assert_eq!(hours[0], "00:00");
    assert_eq!(hours[7], "07:00");
    assert_eq!(hours[23], "23:00");
    assert_eq!(hour_labels(Language::Japanese)[9], "09時");
    assert_eq!(weekday_labels(Language::English), vec!["Sun", "Mon", "Tue", "Wed", "Thu", "Fri", "Sat"]);
    assert_eq!(weekday_labels(Language::Japanese)[6], "土");
}

#[test]
fn stash_lines() {
    assert_eq!(stash_message_line("short"), "short");
    let long = "m".repeat(51);
    assert_eq!(stash_message_line(&long), format!("{}...", "m".repeat(47)));
    assert_eq!(stash_message_line(&"z".repeat(50)), "z".repeat(50));
}

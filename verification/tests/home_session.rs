use git_dashboard::config::RecentCompare;
use git_dashboard::repos::{filter_and_sort_repositories, RepoFilterSortInput};
use git_dashboard::session::{
    bump_seq, cur_seq, is_background, is_stale, record_recent_compare, JobKind, JobQueue, JobSeqs,
};

fn items() -> Vec<RepoFilterSortInput> {
    vec![
        RepoFilterSortInput {
            index: 0,
            name: "rust-project".to_string(),
            path: "/path/to/rust".to_string(),
            last_commit_date: "2026-06-01 12:00".to_string(),
            language: "Rust".to_string(),
            framework: "egui".to_string(),
        },
        RepoFilterSortInput {
            index: 1,
            name: "rails-project".to_string(),
            path: "/path/to/rails".to_string(),
            last_commit_date: "2026-06-05 10:00".to_string(),
            language: "Ruby".to_string(),
            framework: "Rails".to_string(),
        },
        RepoFilterSortInput {
            index: 2,
            name: "django-project".to_string(),
            path: "/path/to/django".to_string(),
            last_commit_date: "2026-06-03 14:00".to_string(),
            language: "Python".to_string(),
            framework: "Django".to_string(),
        },
    ]
}

#[test]
fn test_filter_and_sort_repositories() {
    let items = items();
    let filtered = filter_and_sort_repositories(items.clone(), "ruby", 0);
    assert_eq!(filtered.len(), 1);
    assert_eq!(filtered[0].name, "rails-project");

    let sorted_name_asc = filter_and_sort_repositories(items.clone(), "", 0);
    assert_eq!(sorted_name_asc[0].name, "django-project");
    assert_eq!(sorted_name_asc[1].name, "rails-project");
    assert_eq!(sorted_name_asc[2].name, "rust-project");

    let sorted_name_desc = filter_and_sort_repositories(items.clone(), "", 1);
    assert_eq!(sorted_name_desc[0].name, "rust-project");
    assert_eq!(sorted_name_desc[1].name, "rails-project");
    assert_eq!(sorted_name_desc[2].name, "django-project");

    let sorted_date_desc = filter_and_sort_repositories(items.clone(), "", 2);
    assert_eq!(sorted_date_desc[0].name, "rails-project");
    assert_eq!(sorted_date_desc[1].name, "django-project");
    assert_eq!(sorted_date_desc[2].name, "rust-project");

    let sorted_date_asc = filter_and_sort_repositories(items.clone(), "", 3);
    assert_eq!(sorted_date_asc[0].name, "rust-project");
    assert_eq!(sorted_date_asc[1].name, "django-project");
    assert_eq!(sorted_date_asc[2].name, "rails-project");
}

#[test]
fn repositories_without_dates_sort_last() {
    let mut it = items();
    it[0].last_commit_date = String::new();
    let desc = filter_and_sort_repositories(it.clone(), "  PATH/TO  ", 2);
    assert_eq!(desc.len(), 3);
    assert_eq!(desc[2].name, "rust-project");
    let asc = filter_and_sort_repositories(it.clone(), "", 3);
    assert_eq!(asc[2].name, "rust-project");
    let unsorted = filter_and_sort_repositories(it, "", 9);
    assert_eq!(unsorted[0].index, 0);
}

fn rc(repo: &str, base: &str, target: &str) -> RecentCompare {
    RecentCompare { repo_path: repo.to_string(), base: base.to_string(), target: target.to_string() }
}

#[test]
fn recent_compares_newest_first_and_capped() {
    let mut h: Vec<RecentCompare> = Vec::new();
    assert!(!record_recent_compare(&mut h, "/r", "main", "WORKING_TREE"));
    assert!(h.is_empty());
    for i in 0..7 {
        assert!(record_recent_compare(&mut h, "/r", "main", &format!("f{i}")));
    }
    assert_eq!(h.len(), 5);
    assert_eq!(h[0], rc("/r", "main", "f6"));
    assert!(!record_recent_compare(&mut h, "/r", "main", "f6"));
    assert!(record_recent_compare(&mut h, "/r", "main", "f4"));
    assert_eq!(h[0], rc("/r", "main", "f4"));
    assert_eq!(h.iter().filter(|r| **r == rc("/r", "main", "f4")).count(), 1);
    for i in 0..60 {
        record_recent_compare(&mut h, &format!("/other{i}"), "a", "b");
    }
    assert_eq!(h.len(), 50);
}

#[test]
fn test_job_queue_interactive_first() {
    let mut q: JobQueue<JobKind> = JobQueue::new();
    q.push(JobKind::LoadRepo, is_background(JobKind::LoadRepo));
    q.push(JobKind::LoadBranchLog, is_background(JobKind::LoadBranchLog));
    assert!(!is_background(q.pop().unwrap()));
    assert!(is_background(q.pop().unwrap()));
    assert!(q.pop().is_none());
    assert!(q.is_empty());
}

#[test]
fn stale_jobs_are_detected() {
    let mut seqs = JobSeqs {
        files: 0,
        content: 0,
        blame: 0,
        branch_log: 0,
        commit_detail: 0,
        activity: 0,
        diff_commits: 0,
    };
    let s1 = bump_seq(&mut seqs.files);
    assert_eq!(s1, 1);
    assert_eq!(cur_seq(&seqs.files), 1);
    assert!(!is_stale(JobKind::LoadChangedFiles, s1, &seqs));
    bump_seq(&mut seqs.files);
    assert!(is_stale(JobKind::LoadChangedFiles, s1, &seqs));
    assert!(!is_stale(JobKind::LoadRepo, 99, &seqs));
}

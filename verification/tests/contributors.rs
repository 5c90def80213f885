use git_dashboard::config::Member;
use git_dashboard::contributors::{contributor_log_args, get_contributors, process_contributor_log, shown_contributors};
use git_dashboard::view::share_percent;

fn percentage(count: usize, total: usize) -> f64 {
    let (num, den) = share_percent(count, total);
    num as f64 / den as f64
}

#[test]
fn test_process_contributor_log() {
    let log_data = "\
田中|||tanaka@example.com|||1620000000
Tanaka|||tanaka@example.com|||1620000100
Bob|||bob@example.com|||1620000200
Alice|||alice@example.com|||1620000300
";
    let members = vec![
        Member {
            canonical_name: "田中".to_string(),
            aliases: vec!["Tanaka".to_string(), "tanaka@example.com".to_string()],
            is_active: true,
        },
        Member {
            canonical_name: "Alice".to_string(),
            aliases: vec![],
            is_active: false,
        },
    ];

    let result = process_contributor_log(log_data, &members);
    let (_, total) = shown_contributors(result.clone(), false);

    assert_eq!(result.len(), 3);

    assert_eq!(result[0].name, "田中");
    assert_eq!(result[0].commit_count, 2);
    assert_eq!(percentage(result[0].commit_count, total), 50.0);
    assert!(result[0].is_member);
    assert!(result[0].is_active);

    let alice_info = result.iter().find(|c| c.name == "Alice").unwrap();
    assert_eq!(alice_info.commit_count, 1);
    assert_eq!(percentage(alice_info.commit_count, total), 25.0);
    assert!(alice_info.is_member);
    assert!(!alice_info.is_active);

    let bob_info = result.iter().find(|c| c.name == "Bob").unwrap();
    assert_eq!(bob_info.commit_count, 1);
    assert_eq!(percentage(bob_info.commit_count, total), 25.0);
    assert!(!bob_info.is_member);
    assert!(!bob_info.is_active);
}

#[test]
fn contributors_merge_addresses_and_times() {
    let log = "\
Dev|||a@x.com|||300
dev|||b@x.com|||100
Dev|||a@x.com|||200
Other||||||0
short line
";
    let members = vec![Member {
        canonical_name: "Dev".to_string(),
        aliases: vec!["B@X.COM".to_string()],
        is_active: true,
    }];
    let r = process_contributor_log(log, &members);
    assert_eq!(r.len(), 2);
    assert_eq!(r[0].name, "Dev");
    assert_eq!(r[0].commit_count, 3);
    assert_eq!(r[0].email, "a@x.com, b@x.com");
    assert_eq!(r[0].first_timestamp, 100);
    assert_eq!(r[0].last_timestamp, 300);
    assert_eq!(r[1].name, "Other");
    assert_eq!(r[1].email, "");
    assert_eq!(r[1].first_commit, "不明");
    let total: usize = r.iter().map(|c| c.commit_count).sum();
    assert_eq!(total, 4);
}

#[test]
fn contributors_from_log_command() {
    assert_eq!(contributor_log_args(), vec!["log", "--format=%an|||%ae|||%at"]);
    assert!(get_contributors(Err("no commits".to_string()), &[]).unwrap().is_empty());
    let r = get_contributors(Ok("A|||a@x|||1\nB|||b@x|||2\nB|||b@x|||3\n".to_string()), &[]).unwrap();
    assert_eq!(r[0].name, "B");
    assert_eq!(r[1].name, "A");
}

#[test]
fn shares_are_exact_fractions() {
    assert_eq!(share_percent(1, 4), (100, 4));
    assert_eq!(share_percent(0, 0), (0, 1));
    assert_eq!(share_percent(3, 3), (300, 3));
}

#[test]
fn active_filter_keeps_active_members_and_their_total() {
    let log_data = "\
Ann|||ann@example.com|||100
Ann|||ann@example.com|||200
Ben|||ben@example.com|||300
Cal|||cal@example.com|||400
";
    let members = vec![
        Member { canonical_name: "Ann".to_string(), aliases: vec![], is_active: true },
        Member { canonical_name: "Cal".to_string(), aliases: vec![], is_active: false },
    ];
    let all = process_contributor_log(log_data, &members);
    let (every, total) = shown_contributors(all.clone(), false);
    assert_eq!(every, all);
    assert_eq!(total, 4);
    let (active, active_total) = shown_contributors(all, true);
    assert_eq!(active.len(), 1);
    assert_eq!(active[0].name, "Ann");
    assert_eq!(active_total, 2);
    assert_eq!(share_percent(active[0].commit_count, active_total), (200, 2));
}

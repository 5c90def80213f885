use git_dashboard::ansi::graph_row_hash;
use git_dashboard::config::Language;
use git_dashboard::git::{BranchInfo, CommitSummary, TagInfo};
use git_dashboard::picker::{
    branch_filter_hint, branch_list_rows, commit_is_current, compare_labels, toggle_marker, picked_ref, picker_rows, tag_slot_of, tag_slots, PickerPick,
};

fn commit(hash: &str, author: &str, date: &str, message: &str) -> CommitSummary {
    CommitSummary { hash: hash.to_string(), author: author.to_string(), date: date.to_string(), message: message.to_string() }
}

fn tag(name: &str, hash: &str, message: &str) -> TagInfo {
    TagInfo { name: name.to_string(), date: "2024-01-01".to_string(), message: message.to_string(), hash: hash.to_string() }
}

fn branch(name: &str) -> BranchInfo {
    BranchInfo {
        name: name.to_string(),
        is_remote: false,
        author: "A".to_string(),
        date: "today".to_string(),
        date_unix: 0,
        message: "m".to_string(),
    }
}

fn sample() -> (Vec<CommitSummary>, Vec<TagInfo>, Vec<BranchInfo>) {
    let commits = vec![
        commit("a1b2c3d", "Alice", "2024-05-02 10:00", "Fix parser"),
        commit("e4f5a6b", "Bob", "2024-05-01 09:00", "Add README"),
        commit("0c0ffee", "Carol", "2024-04-30 08:00", "Initial"),
    ];
    let tags = vec![
        tag("v1.0", "e4f5a6b", "release one"),
        tag("v0.9", "e4f5a6b0", "longer hash"),
        tag("old", "deadbee", "before the window"),
        tag("nohash", "", "legacy cache"),
    ];
    let branches = vec![branch("main"), branch("feature/Login"), branch("origin/main")];
    (commits, tags, branches)
}

#[test]
fn tags_sit_on_their_commits() {
    let (commits, tags, _) = sample();
    assert_eq!(tag_slot_of(&commits, "e4f5a6b"), Some(1));
    // A longer abbreviation finds the commit by prefix.
    assert_eq!(tag_slot_of(&commits, "e4f5a6b0"), Some(1));
    assert_eq!(tag_slot_of(&commits, "0c0"), Some(2));
    assert_eq!(tag_slot_of(&commits, "deadbee"), None);
    assert_eq!(tag_slot_of(&commits, ""), None);
    assert_eq!(tag_slots(&commits, &tags), vec![Some(1), Some(1), None, None]);
    // The exact hash wins over an earlier prefix match; of equal hashes the last.
    let dup = vec![commit("abc", "x", "d", "m"), commit("abcd", "x", "d", "m"), commit("abcd", "y", "d", "m")];
    assert_eq!(tag_slot_of(&dup, "abcd"), Some(2));
    assert_eq!(tag_slot_of(&dup, "ab"), Some(0));
}

#[test]
fn empty_search_shows_recent_rows() {
    let (commits, tags, branches) = sample();
    let rows = picker_rows(&commits, &tags, &branches, "", true, Language::English);
    assert!(rows.working_tree);
    assert_eq!(rows.branches, vec![0, 1, 2]);
    assert_eq!(rows.commits, vec![0, 1, 2]);
    assert_eq!(rows.leftover_tags, vec![2, 3]);
    assert_eq!(rows.first, Some(PickerPick::WorkingTree));
    assert_eq!(picked_ref(PickerPick::WorkingTree, &commits, &tags, &branches), "WORKING_TREE");

    let many: Vec<BranchInfo> = (0..10).map(|i| branch(&format!("b{i}"))).collect();
    let rows = picker_rows(&commits, &tags, &many, "", false, Language::English);
    assert!(!rows.working_tree);
    assert_eq!(rows.branches, (0..8).collect::<Vec<usize>>());
    assert_eq!(rows.first, Some(PickerPick::Branch(0)));
    assert_eq!(branch_filter_hint(Language::English, true, 10), Some("(Total 10 — filter by search)".to_string()));
    assert_eq!(branch_filter_hint(Language::Japanese, true, 9), Some("（全9件 — 検索で絞り込み）".to_string()));
    assert_eq!(branch_filter_hint(Language::English, false, 10), None);
    assert_eq!(branch_filter_hint(Language::English, true, 8), None);
}

#[test]
fn search_filters_every_section() {
    let (commits, tags, branches) = sample();
    // A tag name finds the commit it sits on.
    let rows = picker_rows(&commits, &tags, &branches, "V0.9", true, Language::English);
    assert!(!rows.working_tree);
    assert!(rows.branches.is_empty());
    assert_eq!(rows.commits, vec![1]);
    assert!(rows.leftover_tags.is_empty());
    assert_eq!(rows.first, Some(PickerPick::Commit(1)));
    assert_eq!(picked_ref(PickerPick::Commit(1), &commits, &tags, &branches), "e4f5a6b");

    let rows = picker_rows(&commits, &tags, &branches, "LOGIN", true, Language::English);
    assert_eq!(rows.branches, vec![1]);
    assert_eq!(rows.first, Some(PickerPick::Branch(1)));
    assert_eq!(picked_ref(PickerPick::Branch(1), &commits, &tags, &branches), "feature/Login");

    let rows = picker_rows(&commits, &tags, &branches, "legacy", true, Language::English);
    assert_eq!(rows.leftover_tags, vec![3]);
    assert_eq!(rows.first, Some(PickerPick::Tag(3)));
    assert_eq!(picked_ref(PickerPick::Tag(3), &commits, &tags, &branches), "nohash");

    // The uncommitted changes are found by their label or the words for them.
    assert!(picker_rows(&commits, &tags, &branches, "work", true, Language::English).working_tree);
    assert!(picker_rows(&commits, &tags, &branches, "COMMITTED", true, Language::English).working_tree);
    assert!(picker_rows(&commits, &tags, &branches, "作業", true, Language::Japanese).working_tree);
    assert!(!picker_rows(&commits, &tags, &branches, "work", false, Language::English).working_tree);

    // Author and date are searched too.
    assert_eq!(picker_rows(&commits, &tags, &branches, "carol", false, Language::English).commits, vec![2]);
    assert_eq!(picker_rows(&commits, &tags, &branches, "2024-05", false, Language::English).commits, vec![0, 1]);
    let none = picker_rows(&commits, &tags, &branches, "zzz", false, Language::English);
    assert_eq!(none.first, None);
}

#[test]
fn current_commit_by_hash_or_tag() {
    let (commits, tags, _) = sample();
    let slots = tag_slots(&commits, &tags);
    assert!(commit_is_current(&commits, 0, &tags, &slots, "a1b2"));
    assert!(commit_is_current(&commits, 0, &tags, &slots, "a1b2c3d4e5"));
    assert!(commit_is_current(&commits, 1, &tags, &slots, "v1.0"));
    assert!(!commit_is_current(&commits, 0, &tags, &slots, "v1.0"));
    assert!(!commit_is_current(&commits, 2, &tags, &slots, "old"));
}

#[test]
fn graph_rows_name_their_commit() {
    assert_eq!(graph_row_hash("* \x1b[33ma1b2c3d\x1b[m Fix parser"), Some("a1b2c3d".to_string()));
    assert_eq!(graph_row_hash("| * (abc1234) message"), Some("abc1234".to_string()));
    assert_eq!(graph_row_hash("* 0c0ffee1, tag: v1"), Some("0c0ffee1".to_string()));
    assert_eq!(graph_row_hash("|/"), None);
    assert_eq!(graph_row_hash("* deadbeefcafe1234 too long"), None);
    assert_eq!(graph_row_hash(""), None);
}

#[test]
fn branch_list_filter() {
    let branches = vec![branch("main"), branch("feature/Login"), branch("origin/main")];
    assert_eq!(branch_list_rows(&branches, "  MAIN "), vec![0, 2]);
    assert_eq!(branch_list_rows(&branches, "   "), vec![0, 1, 2]);
    assert!(branch_list_rows(&branches, "release").is_empty());
}

#[test]
fn markers_and_compare_labels() {
    assert_eq!(toggle_marker(&None, "v1"), Some("v1".to_string()));
    assert_eq!(toggle_marker(&Some("v1".to_string()), "v1"), None);
    assert_eq!(toggle_marker(&Some("v0".to_string()), "v1"), Some("v1".to_string()));
    let once = toggle_marker(&None, "v2");
    assert_eq!(toggle_marker(&once, "v2"), None);
    assert_eq!(compare_labels(&None, &None), None);
    assert_eq!(compare_labels(&Some("v1.0".to_string()), &None), Some(("v1.0".to_string(), "?".to_string())));
    assert_eq!(
        compare_labels(&Some("0123456789abcdefXYZ".to_string()), &Some("main".to_string())),
        Some(("0123456789abcdef…".to_string(), "main".to_string()))
    );
}
